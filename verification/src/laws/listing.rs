//! Laws on what `history` lists.

use vstd::prelude::*;

use crate::commands::history;
use crate::commands::history::Problem;
use crate::commands::size;
use crate::commands::versions;
use crate::commands::versions::{FileView, VersionView};
use crate::json::Json;
use crate::output::OutputView;
use crate::text;

verus! {

/// How many versions the first `n` files have in all.
pub open spec fn versions_among(files: Seq<FileView>, n: int) -> int
    decreases n,
{
    if n <= 0 {
        0
    } else {
        versions_among(files, n - 1) + files[n - 1].versions.len()
    }
}

/// Where the lines of the file at `i` begin: behind the headline, and behind two lines and
/// the versions of each file before it.
pub open spec fn place_of(files: Seq<FileView>, i: int) -> int {
    1 + 2 * i + versions_among(files, i)
}

/// The lines have every file with its path, and under it each of its versions, in their
/// order, with its time and its size; and they have nothing else.
pub open spec fn lines_have_all(
    lines: Seq<Seq<char>>,
    name: Seq<char>,
    files: Seq<FileView>,
    clean: spec_fn(Seq<char>) -> Seq<char>,
) -> bool {
    let n = files.len() as int;
    &&& lines.len() == place_of(files, n) + 2
    &&& lines[0] == clean(name) + " — "@ + text::decimal(versions_among(files, n) as nat)
        + " version(s) across "@ + text::decimal(files.len()) + " file(s):"@
    &&& lines[lines.len() - 2] == ""@
    &&& lines[lines.len() - 1] == "Restore one with:  byteferret restore "@ + clean(name)
        + " <file> [--at <time>]"@
    &&& forall|i: int|
        0 <= i < n ==> lines[#[trigger] place_of(files, i)] == ""@ && lines[place_of(files, i) + 1]
            == "  "@ + clean(files[i].path)
    &&& forall|i: int, k: int|
        0 <= i < n && 0 <= k < files[i].versions.len() ==> lines[#[trigger] place_of(files, i) + 2
            + k] == "    "@ + versions::shown_time((#[trigger] files[i].versions[k]).tag) + "   "@
            + size::human(files[i].versions[k].size)
}

/// The document has every file with its path and all its versions, in their order, each
/// with its tag and its size; and it has no others.
pub open spec fn document_has_all(
    doc: Json,
    name: Seq<char>,
    id: Seq<char>,
    files: Seq<FileView>,
) -> bool {
    &&& doc.member("ok"@) == Some(Json::Bool(true))
    &&& doc.member_text("action"@) == Some("history"@)
    &&& doc.member_text("name"@) == Some(name)
    &&& doc.member_text("folderId"@) == Some(id)
    &&& doc.member("files"@) is Some
    &&& doc.member("files"@)->0 matches Json::Array(entries) && {
        &&& entries.len() == files.len()
        &&& forall|i: int|
            0 <= i < files.len() ==> entry_has_all(#[trigger] entries[i], files[i])
    }
}

/// The entry has the file's path and all its versions.
pub open spec fn entry_has_all(entry: Json, file: FileView) -> bool {
    &&& entry.member_text("file"@) == Some(file.path)
    &&& entry.member("versions"@) is Some
    &&& entry.member("versions"@)->0 matches Json::Array(vs) && {
        &&& vs.len() == file.versions.len()
        &&& forall|k: int|
            0 <= k < vs.len() ==> (#[trigger] vs[k]).member_text("time"@) == Some(
                file.versions[k].tag,
            ) && vs[k].member("size"@) == Some(Json::Integer(file.versions[k].size))
    }
}

proof fn lemma_among_of_front(files: Seq<FileView>, n: int)
    requires
        0 <= n < files.len(),
    ensures
        versions_among(files.drop_last(), n) == versions_among(files, n),
    decreases n,
{
    if n > 0 {
        lemma_among_of_front(files, n - 1);
    }
}

proof fn lemma_among_grows(files: Seq<FileView>, n: int, m: int)
    requires
        0 <= n <= m <= files.len(),
    ensures
        0 <= versions_among(files, n) <= versions_among(files, m),
    decreases m,
{
    if n < m {
        lemma_among_grows(files, n, m - 1);
    } else if n > 0 {
        lemma_among_grows(files, n - 1, m - 1);
    }
}

proof fn lemma_listing(files: Seq<FileView>, clean: spec_fn(Seq<char>) -> Seq<char>)
    ensures
        ({
            let n = files.len() as int;
            let lines = history::listing(files, clean);
            &&& history::version_count(files) == versions_among(files, n)
            &&& lines.len() == place_of(files, n) - 1
            &&& forall|i: int|
                0 <= i < n ==> {
                    &&& 1 <= #[trigger] place_of(files, i)
                    &&& place_of(files, i) + 1 + files[i].versions.len() <= lines.len()
                    &&& lines[place_of(files, i) - 1] == ""@
                    &&& lines[place_of(files, i)] == "  "@ + clean(files[i].path)
                }
            &&& forall|i: int, k: int|
                0 <= i < n && 0 <= k < files[i].versions.len() ==> lines[#[trigger] place_of(
                    files,
                    i,
                ) + 1 + k] == "    "@ + versions::shown_time(
                    (#[trigger] files[i].versions[k]).tag,
                ) + "   "@ + size::human(files[i].versions[k].size)
        }),
    decreases files.len(),
{
    let n = files.len() as int;
    if n > 0 {
        let rest = files.drop_last();
        let last = files.last();
        lemma_listing(rest, clean);
        lemma_among_of_front(files, n - 1);
        lemma_among_grows(files, 0, n);
        let front = history::listing(rest, clean);
        let mine = history::file_lines(last, clean);
        let lines = history::listing(files, clean);
        let shown = last.versions.map_values(|v: VersionView| history::version_line(v));
        assert(mine.len() == 2 + last.versions.len());
        assert(lines == front + mine);
        assert(place_of(rest, n - 1) == place_of(files, n - 1));
        assert(front.len() == place_of(files, n - 1) - 1);
        assert forall|i: int| 0 <= i < n implies {
            &&& 1 <= #[trigger] place_of(files, i)
            &&& place_of(files, i) + 1 + files[i].versions.len() <= lines.len()
            &&& lines[place_of(files, i) - 1] == ""@
            &&& lines[place_of(files, i)] == "  "@ + clean(files[i].path)
        } by {
            lemma_among_grows(files, 0, i);
            if i < n - 1 {
                lemma_among_of_front(files, i);
                assert(place_of(rest, i) == place_of(files, i));
                assert(rest[i] == files[i]);
            } else {
                assert(lines[front.len() as int] == mine[0]);
                assert(lines[front.len() as int + 1] == mine[1]);
            }
        }
        assert forall|i: int, k: int|
            0 <= i < n && 0 <= k < files[i].versions.len() implies lines[#[trigger] place_of(
            files,
            i,
        ) + 1 + k] == "    "@ + versions::shown_time((#[trigger] files[i].versions[k]).tag)
            + "   "@ + size::human(files[i].versions[k].size) by {
            if i < n - 1 {
                lemma_among_of_front(files, i);
                assert(place_of(rest, i) == place_of(files, i));
                assert(rest[i] == files[i]);
                assert(rest[i].versions[k] == files[i].versions[k]);
                assert(1 <= place_of(rest, i));
                assert(lines[place_of(files, i) + 1 + k] == front[place_of(rest, i) + 1 + k]);
            } else {
                assert(lines[front.len() as int + 2 + k] == mine[2 + k]);
                assert(mine[2 + k] == shown[k]);
            }
        }
    }
}

proof fn lemma_lines(
    name: Seq<char>,
    files: Seq<FileView>,
    clean: spec_fn(Seq<char>) -> Seq<char>,
)
    requires
        files.len() > 0,
    ensures
        lines_have_all(history::history_lines(name, files, clean), name, files, clean),
{
    let n = files.len() as int;
    let lines = history::history_lines(name, files, clean);
    let inner = history::listing(files, clean);
    lemma_listing(files, clean);
    lemma_among_grows(files, 0, n);
    assert(lines.len() == inner.len() + 3);
    assert forall|i: int| 0 <= i < inner.len() implies lines[i + 1] == #[trigger] inner[i] by {}
    assert forall|i: int| 0 <= i < n implies lines[#[trigger] place_of(files, i)] == ""@
        && lines[place_of(files, i) + 1] == "  "@ + clean(files[i].path) by {
        let at = place_of(files, i);
        assert(lines[at - 1 + 1] == inner[at - 1]);
        assert(lines[at + 1] == inner[at]);
    }
    assert forall|i: int, k: int|
        0 <= i < n && 0 <= k < files[i].versions.len() implies lines[#[trigger] place_of(files, i)
        + 2 + k] == "    "@ + versions::shown_time((#[trigger] files[i].versions[k]).tag) + "   "@
        + size::human(files[i].versions[k].size) by {
        let at = place_of(files, i);
        assert(lines[at + 1 + k + 1] == inner[at + 1 + k]);
    }
}

proof fn lemma_document(name: Seq<char>, id: Seq<char>, files: Seq<FileView>)
    ensures
        document_has_all(history::history_doc(name, id, files), name, id, files),
{
    reveal_strlit("ok");
    reveal_strlit("action");
    reveal_strlit("name");
    reveal_strlit("folderId");
    reveal_strlit("files");
    reveal_strlit("file");
    reveal_strlit("versions");
    reveal_strlit("time");
    reveal_strlit("size");
    assert("ok"@.len() == 2 && "action"@.len() == 6 && "name"@.len() == 4);
    assert("folderId"@.len() == 8 && "files"@.len() == 5);
    assert("file"@.len() == 4 && "versions"@.len() == 8);
    assert("time"@[0] != "size"@[0]);
    let doc = history::history_doc(name, id, files);
    let entries = files.map_values(|f: FileView| history::file_doc(f));
    assert(doc.member("files"@) == Some(Json::Array(entries)));
    assert forall|i: int| 0 <= i < files.len() implies entry_has_all(
        #[trigger] entries[i],
        files[i],
    ) by {
        let vs = files[i].versions.map_values(|v: VersionView| history::version_doc(v));
        assert(entries[i].member("versions"@) == Some(Json::Array(vs)));
        assert forall|k: int| 0 <= k < vs.len() implies (#[trigger] vs[k]).member_text("time"@)
            == Some(files[i].versions[k].tag) && vs[k].member("size"@) == Some(
            Json::Integer(files[i].versions[k].size),
        ) by {
            assert(vs[k] == history::version_doc(files[i].versions[k]));
        }
    }
}

/// Without a file, every file that has history is listed with all its versions: each has
/// its lines and its entry in the document.
pub proof fn every_file_and_version_is_listed(
    name: Seq<char>,
    id: Seq<char>,
    files: Seq<FileView>,
    clean: spec_fn(Seq<char>) -> Seq<char>,
)
    ensures
        history::history_output(name, id, files, None, clean) matches Ok(o) && {
            &&& document_has_all(o.doc, name, id, files)
            &&& files.len() > 0 ==> lines_have_all(o.lines, name, files, clean)
            &&& files.len() == 0 ==> o.lines == seq![
                "No history for '"@ + clean(name) + "' yet."@,
                ""@,
                "Versions are recorded only when a change arrives from a paired device — your own"@,
                "local edits here are not versioned on this machine. It is also forward-only, so"@,
                "nothing from before history was enabled can be recovered."@,
            ]
        },
{
    lemma_document(name, id, files);
    if files.len() > 0 {
        lemma_lines(name, files, clean);
    }
}

/// Where a file is asked for and found, that file is listed and no other, with all the
/// versions that the folder's files hold for it: each has its line and its entry in the
/// document. Where it is not found, that is the answer.
pub proof fn the_file_asked_for_is_listed_whole(
    name: Seq<char>,
    id: Seq<char>,
    files: Seq<FileView>,
    wanted: Seq<char>,
    clean: spec_fn(Seq<char>) -> Seq<char>,
)
    ensures
        history::resolve(files, wanted) matches Ok(f) ==> (history::history_output(
            name,
            id,
            files,
            Some(wanted),
            clean,
        ) matches Ok(o) && document_has_all(o.doc, name, id, seq![f]) && lines_have_all(
            o.lines,
            name,
            seq![f],
            clean,
        )),
        history::resolve(files, wanted) matches Err(p) ==> history::history_output(
            name,
            id,
            files,
            Some(wanted),
            clean,
        ) == Err::<OutputView, Problem>(p),
{
    match history::resolve(files, wanted) {
        Ok(f) => {
            lemma_document(name, id, seq![f]);
            lemma_lines(name, seq![f], clean);
        },
        Err(_) => {},
    }
}

} // verus!
