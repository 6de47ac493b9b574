//! `history` and `restore`: browsing the archived versions of a folder's files and
//! rolling one back.

use serde_json::Value;
use vstd::prelude::*;
use vstd::string::*;

use crate::commands::size;
use crate::commands::versions;
use crate::commands::versions::{FileView, Files, Version, VersionView};
use crate::json;
use crate::json::Json;
use crate::output;
use crate::output::{Output, OutputView};
use crate::text;

verus! {

/// Why a command on a folder's history fails.
#[derive(Debug)]
pub enum HistoryError {
    /// No file is meant by what was asked for.
    NoHistory { wanted: String, known: Vec<String> },
    /// Several files have the name that was asked for.
    SeveralFiles { wanted: String, paths: Vec<String> },
    /// The file has no version to bring back.
    NoVersions { path: String },
    /// No version of the file is from the time that was asked for.
    NoMatch { path: String, when: String },
    /// Several versions are from the time that was asked for.
    SeveralVersions { when: String, times: Vec<String> },
    /// There is nobody to ask for a confirmation.
    NeedsYes { path: String },
    /// Syncthing did not restore the file.
    Refused { path: String, why: String },
}

/// What an error says.
pub enum Problem {
    NoHistory { wanted: Seq<char>, known: Seq<Seq<char>> },
    SeveralFiles { wanted: Seq<char>, paths: Seq<Seq<char>> },
    NoVersions { path: Seq<char> },
    NoMatch { path: Seq<char>, when: Seq<char> },
    SeveralVersions { when: Seq<char>, times: Seq<Seq<char>> },
    NeedsYes { path: Seq<char> },
    Refused { path: Seq<char>, why: Seq<char> },
}

impl View for HistoryError {
    type V = Problem;

    open spec fn view(&self) -> Problem {
        match self {
            HistoryError::NoHistory { wanted, known } => Problem::NoHistory {
                wanted: wanted@,
                known: text::texts(known@),
            },
            HistoryError::SeveralFiles { wanted, paths } => Problem::SeveralFiles {
                wanted: wanted@,
                paths: text::texts(paths@),
            },
            HistoryError::NoVersions { path } => Problem::NoVersions { path: path@ },
            HistoryError::NoMatch { path, when } => Problem::NoMatch { path: path@, when: when@ },
            HistoryError::SeveralVersions { when, times } => Problem::SeveralVersions {
                when: when@,
                times: text::texts(times@),
            },
            HistoryError::NeedsYes { path } => Problem::NeedsYes { path: path@ },
            HistoryError::Refused { path, why } => Problem::Refused { path: path@, why: why@ },
        }
    }
}

/// Which files have any history, for a "not found" error.
pub open spec fn hint(known: Seq<Seq<char>>, clean: spec_fn(Seq<char>) -> Seq<char>) -> Seq<char> {
    if known.len() == 0 {
        " This folder has no history yet."@
    } else {
        " Files with history:"@ + output::indented(known.map_values(clean))
    }
}

/// A hint listing which files have any history, for a "not found" error.
pub fn list_hint<F: Fn(&str) -> String>(known: &Vec<String>, sanitize: &F) -> (r: String)
    requires
        output::sanitizer(*sanitize),
    ensures
        r@ == hint(text::texts(known@), output::cleaner(*sanitize)),
{
    if known.len() == 0 {
        return " This folder has no history yet.".to_owned();
    }
    let mut s = " Files with history:".to_owned();
    s.append(output::indented_text(&output::cleaned_all(sanitize, known)).as_str());
    s
}

/// What is told of a problem.
pub open spec fn problem_text(p: Problem, clean: spec_fn(Seq<char>) -> Seq<char>) -> Seq<char> {
    match p {
        Problem::NoHistory { wanted, known } => "no history for '"@ + clean(wanted)
            + "' in this folder."@ + hint(known, clean),
        Problem::SeveralFiles { wanted, paths } => "'"@ + clean(wanted)
            + "' matches several files — name the path exactly:"@ + output::indented(
            paths.map_values(clean),
        ),
        Problem::NoVersions { path } => "'"@ + clean(path) + "' has no archived versions"@,
        Problem::NoMatch { path, when } => "no version of '"@ + clean(path) + "' at '"@ + clean(
            when,
        ) + "' — run `byteferret history <folder> "@ + clean(path) + "` to see the times."@,
        Problem::SeveralVersions { when, times } => "'"@ + clean(when) + "' matches "@
            + text::decimal(times.len()) + " versions — be more precise:"@ + output::indented(
            times,
        ),
        Problem::NeedsYes { path } => "refusing to restore '"@ + path
            + "' without --yes (there is no prompt in --json mode)"@,
        Problem::Refused { path, why } => "Syncthing could not restore '"@ + clean(path) + "': "@
            + clean(why),
    }
}

impl HistoryError {
    /// What is told of the error.
    pub fn message<F: Fn(&str) -> String>(&self, sanitize: &F) -> (r: String)
        requires
            output::sanitizer(*sanitize),
        ensures
            r@ == problem_text(self@, output::cleaner(*sanitize)),
    {
        match self {
            HistoryError::NoHistory { wanted, known } => {
                let mut s = "no history for '".to_owned();
                s.append(output::cleaned(sanitize, wanted.as_str()).as_str());
                s.append("' in this folder.");
                s.append(list_hint(known, sanitize).as_str());
                s
            },
            HistoryError::SeveralFiles { wanted, paths } => {
                let mut s = "'".to_owned();
                s.append(output::cleaned(sanitize, wanted.as_str()).as_str());
                s.append("' matches several files — name the path exactly:");
                s.append(output::indented_text(&output::cleaned_all(sanitize, paths)).as_str());
                s
            },
            HistoryError::NoVersions { path } => {
                let mut s = "'".to_owned();
                s.append(output::cleaned(sanitize, path.as_str()).as_str());
                s.append("' has no archived versions");
                s
            },
            HistoryError::NoMatch { path, when } => {
                let shown = output::cleaned(sanitize, path.as_str());
                let mut s = "no version of '".to_owned();
                s.append(shown.as_str());
                s.append("' at '");
                s.append(output::cleaned(sanitize, when.as_str()).as_str());
                s.append("' — run `byteferret history <folder> ");
                s.append(shown.as_str());
                s.append("` to see the times.");
                s
            },
            HistoryError::SeveralVersions { when, times } => {
                let mut s = "'".to_owned();
                s.append(output::cleaned(sanitize, when.as_str()).as_str());
                s.append("' matches ");
                s.append(text::decimal_text(times.len() as u128).as_str());
                s.append(" versions — be more precise:");
                s.append(output::indented_text(times).as_str());
                s
            },
            HistoryError::NeedsYes { path } => {
                let mut s = "refusing to restore '".to_owned();
                s.append(path.as_str());
                s.append("' without --yes (there is no prompt in --json mode)");
                s
            },
            HistoryError::Refused { path, why } => {
                let mut s = "Syncthing could not restore '".to_owned();
                s.append(output::cleaned(sanitize, path.as_str()).as_str());
                s.append("': ");
                s.append(output::cleaned(sanitize, why.as_str()).as_str());
                s
            },
        }
    }
}

/// A path without the `./` that it begins with, however often.
pub open spec fn without_dots(s: Seq<char>) -> Seq<char>
    decreases s.len(),
{
    if s.len() >= 2 && s[0] == '.' && s[1] == '/' {
        without_dots(s.skip(2))
    } else {
        s
    }
}

/// A path without the `/` that it begins with, however often.
pub open spec fn without_slashes(s: Seq<char>) -> Seq<char>
    decreases s.len(),
{
    if s.len() >= 1 && s[0] == '/' {
        without_slashes(s.skip(1))
    } else {
        s
    }
}

/// The path that a user-typed file reference stands for.
pub open spec fn wanted_path(wanted: Seq<char>) -> Seq<char> {
    without_slashes(without_dots(text::replaced(wanted, '\\', '/')))
}

/// The path that a user-typed file reference stands for.
fn normalized(wanted: &str) -> (r: String)
    ensures
        r@ == wanted_path(wanted@),
{
    let v = text::chars_of(text::replace_char(wanted, '\\', '/').as_str());
    let mut from: usize = 0;
    assert(v@.skip(0) =~= v@);
    while v.len() - from >= 2 && v[from] == '.' && v[from + 1] == '/'
        invariant
            from <= v@.len(),
            without_dots(v@) == without_dots(v@.skip(from as int)),
        decreases v@.len() - from,
    {
        assert(v@.skip(from as int).skip(2) =~= v@.skip(from + 2));
        from += 2;
    }
    let ghost rest = v@.skip(from as int);
    while from < v.len() && v[from] == '/'
        invariant
            from <= v@.len(),
            without_slashes(rest) == without_slashes(v@.skip(from as int)),
        decreases v@.len() - from,
    {
        assert(v@.skip(from as int).skip(1) =~= v@.skip(from + 1));
        from += 1;
    }
    assert(v@.subrange(from as int, v@.len() as int) =~= v@.skip(from as int));
    text::slice_text(&v, from, v.len())
}

/// What a path has behind its last `/`.
pub open spec fn base_name(path: Seq<char>) -> Seq<char>
    decreases path.len(),
{
    if path.len() == 0 || path.last() == '/' {
        seq![]
    } else {
        base_name(path.drop_last()).push(path.last())
    }
}

/// What a path has behind its last `/`.
fn base_name_of(path: &str) -> (r: String)
    ensures
        r@ == base_name(path@),
{
    let v = text::chars_of(path);
    let mut from: usize = v.len();
    assert(v@.take(from as int) =~= v@);
    assert(v@.skip(from as int) =~= Seq::<char>::empty());
    assert(base_name(v@) =~= base_name(v@.take(from as int)) + v@.skip(from as int));
    while from > 0 && v[from - 1] != '/'
        invariant
            from <= v@.len(),
            base_name(v@) == base_name(v@.take(from as int)) + v@.skip(from as int),
        decreases from,
    {
        assert(v@.take(from as int).drop_last() =~= v@.take(from - 1));
        assert(base_name(v@.take(from as int)) + v@.skip(from as int) =~= base_name(
            v@.take(from - 1),
        ) + v@.skip(from - 1));
        from -= 1;
    }
    assert(base_name(v@) =~= v@.skip(from as int));
    assert(v@.subrange(from as int, v@.len() as int) =~= v@.skip(from as int));
    text::slice_text(&v, from, v.len())
}

/// The files whose base name is `name`.
pub open spec fn named(files: Seq<FileView>, name: Seq<char>) -> Seq<FileView> {
    files.filter(|f: FileView| base_name(f.path) == name)
}

/// The paths of the files.
pub open spec fn paths(files: Seq<FileView>) -> Seq<Seq<char>> {
    files.map_values(|f: FileView| f.path)
}

/// The file that a reference means: the one with exactly that path, else the only
/// one with that base name.
pub open spec fn resolve(files: Seq<FileView>, wanted: Seq<char>) -> Result<FileView, Problem> {
    let path = wanted_path(wanted);
    let matches = named(files, path);
    if versions::has_path(files, path) {
        Ok(FileView { path, versions: versions::by_path(files)[path] })
    } else if matches.len() == 1 {
        Ok(matches[0])
    } else if matches.len() == 0 {
        Err(Problem::NoHistory { wanted, known: paths(files) })
    } else {
        Err(Problem::SeveralFiles { wanted, paths: paths(matches) })
    }
}

/// A file as a pair of its path and its versions.
pub open spec fn pair_view(p: (&String, &Vec<Version>)) -> FileView {
    FileView { path: p.0@, versions: versions::version_views(p.1@) }
}

/// Resolve a user-typed file reference to one entry in the versions map: an exact
/// path first, else a unique match on the file's base name (so `todo.md` finds
/// `sub/todo.md` when there is only one).
pub fn find_file<'a>(files: &'a Files, wanted: &str) -> (r: Result<
    (&'a String, &'a Vec<Version>),
    HistoryError,
>)
    requires
        files.wf(),
    ensures
        match r {
            Ok(p) => resolve(files@, wanted@) == Ok::<FileView, Problem>(pair_view(p)),
            Err(e) => resolve(files@, wanted@) == Err::<FileView, Problem>(e@),
        },
{
    let norm = normalized(wanted);
    let entries = files.entries();
    let ghost fs = files@;
    let ghost pred = |f: FileView| base_name(f.path) == norm@;
    let mut known: Vec<String> = Vec::new();
    let mut by_base: Vec<usize> = Vec::new();
    let mut base_paths: Vec<String> = Vec::new();
    let mut i: usize = 0;
    assert(fs.take(0).filter(pred) =~= Seq::<FileView>::empty()) by {
        reveal(Seq::filter);
    }
    while i < entries.len()
        invariant
            i <= entries@.len(),
            files.wf(),
            fs == files@,
            entries@.len() == fs.len(),
            forall|k: int| 0 <= k < fs.len() ==> (#[trigger] entries@[k])@ == fs[k],
            norm@ == wanted_path(wanted@),
            pred == (|f: FileView| base_name(f.path) == norm@),
            forall|k: int| 0 <= k < i ==> (#[trigger] fs[k]).path != norm@,
            known@.len() == i,
            forall|k: int| 0 <= k < i ==> (#[trigger] known@[k])@ == fs[k].path,
            by_base@.len() == fs.take(i as int).filter(pred).len(),
            base_paths@.len() == by_base@.len(),
            forall|k: int|
                0 <= k < by_base@.len() ==> (#[trigger] by_base@[k]) < fs.len()
                    && fs[by_base@[k] as int] == fs.take(i as int).filter(pred)[k],
            forall|k: int|
                0 <= k < base_paths@.len() ==> (#[trigger] base_paths@[k])@ == fs.take(
                    i as int,
                ).filter(pred)[k].path,
        decreases entries@.len() - i,
    {
        let entry = &entries[i];
        assert(entry@ == fs[i as int]);
        if entry.path == norm {
            proof {
                assert(fs[i as int].path == norm@);
                versions::lemma_by_path(fs, i as int);
            }
            return Ok((&entry.path, &entry.versions));
        }
        proof {
            reveal(Seq::filter);
            assert(fs.take(i + 1).drop_last() =~= fs.take(i as int));
            assert(fs.take(i + 1).last() == fs[i as int]);
        }
        known.push(entry.path.clone());
        if base_name_of(entry.path.as_str()) == norm {
            by_base.push(i);
            base_paths.push(entry.path.clone());
        }
        i += 1;
    }
    assert(fs.take(i as int) =~= fs);
    assert(!versions::has_path(fs, norm@));
    assert(named(fs, norm@) == fs.filter(pred));
    if by_base.len() == 1 {
        let at: usize = by_base[0];
        assert(entries@[at as int]@ == fs[at as int]);
        Ok((&entries[at].path, &entries[at].versions))
    } else if by_base.len() == 0 {
        assert(text::texts(known@) =~= paths(fs));
        Err(HistoryError::NoHistory { wanted: wanted.to_owned(), known })
    } else {
        assert(text::texts(base_paths@) =~= paths(named(fs, norm@)));
        Err(HistoryError::SeveralFiles { wanted: wanted.to_owned(), paths: base_paths })
    }
}

/// A version is from the time: its tag is the text itself, or its shown time begins
/// with it.
pub open spec fn is_from(v: VersionView, when: Seq<char>) -> bool {
    v.tag == when || text::replaced(text::trimmed(when), 'T', ' ').is_prefix_of(
        versions::shown_time(v.tag),
    )
}

/// The versions that are from the time.
pub open spec fn from_time(vs: Seq<VersionView>, when: Seq<char>) -> Seq<VersionView> {
    vs.filter(|v: VersionView| is_from(v, when))
}

/// The shown times of versions.
pub open spec fn times(vs: Seq<VersionView>) -> Seq<Seq<char>> {
    vs.map_values(|v: VersionView| versions::shown_time(v.tag))
}

/// The version to bring back: the only one from the time, or the first one where no
/// time is given.
pub open spec fn pick(
    path: Seq<char>,
    vs: Seq<VersionView>,
    at: Option<Seq<char>>,
) -> Result<VersionView, Problem> {
    match at {
        None => if vs.len() > 0 {
            Ok(vs[0])
        } else {
            Err(Problem::NoVersions { path })
        },
        Some(when) => {
            let matches = from_time(vs, when);
            if matches.len() == 1 {
                Ok(matches[0])
            } else if matches.len() == 0 {
                Err(Problem::NoMatch { path, when })
            } else {
                Err(Problem::SeveralVersions { when, times: times(matches) })
            }
        },
    }
}

/// The characters of an optional text.
pub open spec fn opt_text(s: Option<&str>) -> Option<Seq<char>> {
    match s {
        Some(s) => Some(s@),
        None => None,
    }
}

/// Pick the version to restore: the one at `--at` (an unambiguous prefix of a
/// listed time, or the raw tag), or the newest when `--at` is omitted, where the
/// versions have the newest first.
pub fn choose_version<'a>(path: &str, versions: &'a Vec<Version>, at: Option<&str>) -> (r: Result<
    &'a Version,
    HistoryError,
>)
    ensures
        match r {
            Ok(v) => pick(path@, versions::version_views(versions@), opt_text(at)) == Ok::<
                VersionView,
                Problem,
            >(v@) && exists|i: int| 0 <= i < versions@.len() && *v == #[trigger] versions@[i],
            Err(e) => pick(path@, versions::version_views(versions@), opt_text(at)) == Err::<
                VersionView,
                Problem,
            >(e@),
        },
{
    let ghost vs = versions::version_views(versions@);
    let when = match at {
        None => {
            // The newest: the list has it first.
            if versions.len() == 0 {
                return Err(HistoryError::NoVersions { path: path.to_owned() });
            }
            return Ok(&versions[0]);
        },
        Some(when) => when,
    };
    let norm = text::replace_char(text::trim(when).as_str(), 'T', ' ');
    let ghost pred = |v: VersionView| is_from(v, when@);
    let mut found: Vec<usize> = Vec::new();
    let mut i: usize = 0;
    assert(vs.take(0).filter(pred) =~= Seq::<VersionView>::empty()) by {
        reveal(Seq::filter);
    }
    while i < versions.len()
        invariant
            i <= versions@.len(),
            vs == versions::version_views(versions@),
            norm@ == text::replaced(text::trimmed(when@), 'T', ' '),
            pred == (|v: VersionView| is_from(v, when@)),
            found@.len() == vs.take(i as int).filter(pred).len(),
            forall|k: int|
                0 <= k < found@.len() ==> (#[trigger] found@[k]) < vs.len()
                    && vs[found@[k] as int] == vs.take(i as int).filter(pred)[k],
        decreases versions@.len() - i,
    {
        let tag = versions[i].tag.as_str();
        assert(vs[i as int] == versions@[i as int]@);
        proof {
            reveal(Seq::filter);
            assert(vs.take(i + 1).drop_last() =~= vs.take(i as int));
            assert(vs.take(i + 1).last() == vs[i as int]);
        }
        if text::same_text(tag, when) || text::begins_with(
            versions::display_time(tag).as_str(),
            norm.as_str(),
        ) {
            found.push(i);
        }
        i += 1;
    }
    assert(vs.take(i as int) =~= vs);
    assert(from_time(vs, when@) == vs.filter(pred));
    if found.len() == 1 {
        let at: usize = found[0];
        assert(vs[at as int] == versions@[at as int]@);
        return Ok(&versions[at]);
    }
    if found.len() == 0 {
        return Err(HistoryError::NoMatch { path: path.to_owned(), when: when.to_owned() });
    }
    let ghost matches = from_time(vs, when@);
    let mut shown: Vec<String> = Vec::new();
    let mut n: usize = 0;
    while n < found.len()
        invariant
            n <= found@.len(),
            found@.len() == matches.len(),
            vs == versions::version_views(versions@),
            vs.len() == versions@.len(),
            forall|k: int|
                0 <= k < found@.len() ==> (#[trigger] found@[k]) < vs.len()
                    && vs[found@[k] as int] == matches[k],
            shown@.len() == n,
            forall|k: int|
                0 <= k < n ==> (#[trigger] shown@[k])@ == versions::shown_time(matches[k].tag),
        decreases found@.len() - n,
    {
        let at: usize = found[n];
        assert(vs[at as int] == versions@[at as int]@);
        shown.push(versions::display_time(versions[at].tag.as_str()));
        n += 1;
    }
    assert(text::texts(shown@) =~= times(matches));
    Err(HistoryError::SeveralVersions { when: when.to_owned(), times: shown })
}

/// The files to list: all of them, or the one that is asked for.
pub open spec fn listed(files: Seq<FileView>, file: Option<Seq<char>>) -> Result<
    Seq<FileView>,
    Problem,
> {
    match file {
        None => Ok(files),
        Some(wanted) => match resolve(files, wanted) {
            Ok(f) => Ok(seq![f]),
            Err(p) => Err(p),
        },
    }
}

/// How many versions the files have.
pub open spec fn version_count(files: Seq<FileView>) -> nat
    decreases files.len(),
{
    if files.len() == 0 {
        0
    } else {
        version_count(files.drop_last()) + files.last().versions.len()
    }
}

/// One version in the listing.
pub open spec fn version_line(v: VersionView) -> Seq<char> {
    "    "@ + versions::shown_time(v.tag) + "   "@ + size::human(v.size)
}

/// One file in the listing.
pub open spec fn file_lines(f: FileView, clean: spec_fn(Seq<char>) -> Seq<char>) -> Seq<Seq<char>> {
    seq![""@, "  "@ + clean(f.path)] + f.versions.map_values(|v: VersionView| version_line(v))
}

/// The files in the listing.
pub open spec fn listing(
    files: Seq<FileView>,
    clean: spec_fn(Seq<char>) -> Seq<char>,
) -> Seq<Seq<char>>
    decreases files.len(),
{
    if files.len() == 0 {
        seq![]
    } else {
        listing(files.drop_last(), clean) + file_lines(files.last(), clean)
    }
}

/// What `history` shows.
pub open spec fn history_lines(
    name: Seq<char>,
    shown: Seq<FileView>,
    clean: spec_fn(Seq<char>) -> Seq<char>,
) -> Seq<Seq<char>> {
    if shown.len() == 0 {
        seq![
            "No history for '"@ + clean(name) + "' yet."@,
            ""@,
            "Versions are recorded only when a change arrives from a paired device — your own"@,
            "local edits here are not versioned on this machine. It is also forward-only, so"@,
            "nothing from before history was enabled can be recovered."@,
        ]
    } else {
        seq![
            clean(name) + " — "@ + text::decimal(version_count(shown)) + " version(s) across "@
                + text::decimal(shown.len()) + " file(s):"@,
        ] + listing(shown, clean) + seq![
            ""@,
            "Restore one with:  byteferret restore "@ + clean(name) + " <file> [--at <time>]"@,
        ]
    }
}

/// One version in the document.
pub open spec fn version_doc(v: VersionView) -> Json {
    Json::Object(map!["time"@ => Json::Text(v.tag), "size"@ => Json::Integer(v.size)])
}

/// One file in the document.
pub open spec fn file_doc(f: FileView) -> Json {
    Json::Object(
        map![
            "file"@ => Json::Text(f.path),
            "versions"@ => Json::Array(f.versions.map_values(|v: VersionView| version_doc(v))),
        ],
    )
}

/// The document of `history`.
pub open spec fn history_doc(name: Seq<char>, id: Seq<char>, shown: Seq<FileView>) -> Json {
    Json::Object(
        map![
            "ok"@ => Json::Bool(true),
            "action"@ => Json::Text("history"@),
            "name"@ => Json::Text(name),
            "folderId"@ => Json::Text(id),
            "files"@ => Json::Array(shown.map_values(|f: FileView| file_doc(f))),
        ],
    )
}

/// What `history` shows and leaves.
pub open spec fn history_output(
    name: Seq<char>,
    id: Seq<char>,
    files: Seq<FileView>,
    file: Option<Seq<char>>,
    clean: spec_fn(Seq<char>) -> Seq<char>,
) -> Result<OutputView, Problem> {
    match listed(files, file) {
        Ok(shown) => Ok(
            OutputView {
                lines: history_lines(name, shown, clean),
                doc: history_doc(name, id, shown),
            },
        ),
        Err(p) => Err(p),
    }
}

/// What pairs of paths and versions hold.
pub open spec fn pair_views(shown: Seq<(&String, &Vec<Version>)>) -> Seq<FileView> {
    shown.map_values(|p: (&String, &Vec<Version>)| pair_view(p))
}

fn doc_of_file(path: &String, vs: &Vec<Version>) -> (r: Value)
    ensures
        json::json(r) == file_doc(pair_view((path, vs))),
{
    let ghost views = versions::version_views(vs@);
    let mut items: Vec<Value> = Vec::new();
    let mut i: usize = 0;
    while i < vs.len()
        invariant
            i <= vs@.len(),
            views == versions::version_views(vs@),
            items@.len() == i,
            forall|k: int| 0 <= k < i ==> json::json(#[trigger] items@[k]) == version_doc(views[k]),
        decreases vs@.len() - i,
    {
        let doc = json::with_text(json::empty_object(), "time", vs[i].tag.as_str());
        items.push(json::with(doc, "size", json::integer_value(vs[i].size)));
        i += 1;
    }
    assert(json::jsons(items@) =~= views.map_values(|v: VersionView| version_doc(v)));
    let doc = json::with_text(json::empty_object(), "file", path.as_str());
    json::with(doc, "versions", json::array_value(items))
}

fn doc_of_history(name: &str, id: &str, shown: &Vec<(&String, &Vec<Version>)>) -> (r: Value)
    ensures
        json::json(r) == history_doc(name@, id@, pair_views(shown@)),
{
    let ghost views = pair_views(shown@);
    let mut items: Vec<Value> = Vec::new();
    let mut i: usize = 0;
    while i < shown.len()
        invariant
            i <= shown@.len(),
            views == pair_views(shown@),
            items@.len() == i,
            forall|k: int| 0 <= k < i ==> json::json(#[trigger] items@[k]) == file_doc(views[k]),
        decreases shown@.len() - i,
    {
        let (path, vs): (&String, &Vec<Version>) = shown[i];
        items.push(doc_of_file(path, vs));
        i += 1;
    }
    assert(json::jsons(items@) =~= views.map_values(|f: FileView| file_doc(f)));
    let doc = json::with_bool(json::empty_object(), "ok", true);
    let doc = json::with_text(doc, "action", "history");
    let doc = json::with_text(doc, "name", name);
    let doc = json::with_text(doc, "folderId", id);
    json::with(doc, "files", json::array_value(items))
}

fn say_file<F: Fn(&str) -> String>(
    lines: &mut Vec<String>,
    path: &String,
    vs: &Vec<Version>,
    sanitize: &F,
)
    requires
        output::sanitizer(*sanitize),
    ensures
        text::texts(final(lines)@) == text::texts(old(lines)@) + file_lines(
            pair_view((path, vs)),
            output::cleaner(*sanitize),
        ),
{
    let ghost views = versions::version_views(vs@);
    let ghost shown = views.map_values(|v: VersionView| version_line(v));
    let ghost before = text::texts(lines@);
    output::say(lines, "".to_owned());
    let mut head = "  ".to_owned();
    head.append(output::cleaned(sanitize, path.as_str()).as_str());
    output::say(lines, head);
    let ghost top = seq![""@, "  "@ + output::cleaner(*sanitize)(path@)];
    assert(text::texts(lines@) =~= before + (top + shown.take(0)));
    let mut i: usize = 0;
    while i < vs.len()
        invariant
            i <= vs@.len(),
            views == versions::version_views(vs@),
            shown == views.map_values(|v: VersionView| version_line(v)),
            text::texts(lines@) == before + (top + shown.take(i as int)),
        decreases vs@.len() - i,
    {
        assert(views[i as int] == vs@[i as int]@);
        let mut line = "    ".to_owned();
        line.append(versions::display_time(vs[i].tag.as_str()).as_str());
        line.append("   ");
        line.append(size::human_size(vs[i].size).as_str());
        output::say(lines, line);
        assert(line@ == shown[i as int]);
        i += 1;
        assert(text::texts(lines@) =~= before + (top + shown.take(i as int)));
    }
    assert(shown.take(i as int) =~= shown);
}

fn lines_of_history<F: Fn(&str) -> String>(
    name: &str,
    shown: &Vec<(&String, &Vec<Version>)>,
    sanitize: &F,
) -> (r: Vec<String>)
    requires
        output::sanitizer(*sanitize),
    ensures
        text::texts(r@) == history_lines(name@, pair_views(shown@), output::cleaner(*sanitize)),
{
    let ghost clean = output::cleaner(*sanitize);
    let ghost views = pair_views(shown@);
    let title = output::cleaned(sanitize, name);
    let mut lines: Vec<String> = Vec::new();
    if shown.len() == 0 {
        let mut line = "No history for '".to_owned();
        line.append(title.as_str());
        line.append("' yet.");
        output::say(&mut lines, line);
        output::say(&mut lines, "".to_owned());
        output::say(
            &mut lines,
            "Versions are recorded only when a change arrives from a paired device — your own".to_owned(),
        );
        output::say(
            &mut lines,
            "local edits here are not versioned on this machine. It is also forward-only, so".to_owned(),
        );
        output::say(
            &mut lines,
            "nothing from before history was enabled can be recovered.".to_owned(),
        );
        assert(text::texts(lines@) =~= history_lines(name@, views, clean));
        return lines;
    }
    let mut total: u128 = 0;
    let mut i: usize = 0;
    while i < shown.len()
        invariant
            i <= shown@.len(),
            views == pair_views(shown@),
            total == version_count(views.take(i as int)),
            total <= i * usize::MAX,
        decreases shown@.len() - i,
    {
        assert(views.take(i + 1).drop_last() =~= views.take(i as int));
        let (_, vs): (&String, &Vec<Version>) = shown[i];
        assert(views[i as int].versions.len() == vs@.len());
        assert((i + 1) * usize::MAX == i * usize::MAX + usize::MAX) by (nonlinear_arith);
        assert((i + 1) * usize::MAX <= u64::MAX * u64::MAX) by (nonlinear_arith)
            requires
                i < usize::MAX,
                usize::MAX <= u64::MAX,
        ;
        total += vs.len() as u128;
        i += 1;
    }
    assert(views.take(i as int) =~= views);
    let mut head = title.clone();
    head.append(" — ");
    head.append(text::decimal_text(total).as_str());
    head.append(" version(s) across ");
    head.append(text::decimal_text(shown.len() as u128).as_str());
    head.append(" file(s):");
    output::say(&mut lines, head);
    let ghost top = seq![
        clean(name@) + " — "@ + text::decimal(version_count(views)) + " version(s) across "@
            + text::decimal(views.len()) + " file(s):"@,
    ];
    assert(text::texts(lines@) =~= top + listing(views.take(0), clean));
    let mut n: usize = 0;
    while n < shown.len()
        invariant
            n <= shown@.len(),
            output::sanitizer(*sanitize),
            clean == output::cleaner(*sanitize),
            views == pair_views(shown@),
            text::texts(lines@) == top + listing(views.take(n as int), clean),
        decreases shown@.len() - n,
    {
        let (path, vs): (&String, &Vec<Version>) = shown[n];
        assert(views[n as int] == pair_view((path, vs)));
        assert(views.take(n + 1).drop_last() =~= views.take(n as int));
        say_file(&mut lines, path, vs, sanitize);
        n += 1;
        assert(text::texts(lines@) =~= top + listing(views.take(n as int), clean));
    }
    assert(views.take(n as int) =~= views);
    output::say(&mut lines, "".to_owned());
    let mut tail = "Restore one with:  byteferret restore ".to_owned();
    tail.append(title.as_str());
    tail.append(" <file> [--at <time>]");
    output::say(&mut lines, tail);
    assert(text::texts(lines@) =~= history_lines(name@, views, clean));
    lines
}

/// `byteferret history <folder> [file]` — list archived versions: of every file
/// that has any, or of the one that is asked for.
pub fn history<F: Fn(&str) -> String>(
    name: &str,
    id: &str,
    files: &Files,
    file: Option<&str>,
    sanitize: &F,
) -> (r: Result<Output, HistoryError>)
    requires
        files.wf(),
        output::sanitizer(*sanitize),
    ensures
        match r {
            Ok(o) => history_output(
                name@,
                id@,
                files@,
                opt_text(file),
                output::cleaner(*sanitize),
            ) == Ok::<OutputView, Problem>(o@),
            Err(e) => history_output(
                name@,
                id@,
                files@,
                opt_text(file),
                output::cleaner(*sanitize),
            ) == Err::<OutputView, Problem>(e@),
        },
{
    let mut shown: Vec<(&String, &Vec<Version>)> = Vec::new();
    match file {
        Some(wanted) => match find_file(files, wanted) {
            Ok(p) => {
                shown.push(p);
                assert(pair_views(shown@) =~= seq![pair_view(p)]);
            },
            Err(e) => {
                return Err(e);
            },
        },
        None => {
            let entries = files.entries();
            let mut i: usize = 0;
            while i < entries.len()
                invariant
                    i <= entries@.len(),
                    entries@.len() == files@.len(),
                    forall|k: int| 0 <= k < entries@.len() ==> (#[trigger] entries@[k])@
                        == files@[k],
                    shown@.len() == i,
                    forall|k: int| 0 <= k < i ==> pair_view(#[trigger] shown@[k]) == files@[k],
                decreases entries@.len() - i,
            {
                shown.push((&entries[i].path, &entries[i].versions));
                assert(entries@[i as int]@ == files@[i as int]);
                i += 1;
            }
            assert(pair_views(shown@) =~= files@);
        },
    }
    Ok(
        Output {
            lines: lines_of_history(name, &shown, sanitize),
            doc: doc_of_history(name, id, &shown),
        },
    )
}

} // verus!
