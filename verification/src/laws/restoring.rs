//! Laws on bringing a version back, and on what is told where that fails.

use vstd::prelude::*;

use crate::commands::history;
use crate::commands::history::Problem;
use crate::commands::restore;
use crate::commands::restore::{EventView, PlanView, StepView};
use crate::commands::versions;
use crate::commands::versions::{FileView, VersionView};
use crate::json::Json;
use crate::laws::texts;
use crate::output;
use crate::output::OutputView;
use crate::text;

verus! {

/// What is planned is to bring back the version that is picked among all versions of the
/// file that is found; there is no plan exactly where no file is found or no version of it
/// is picked, and then the reason is told.
pub proof fn the_picked_version_of_the_found_file_is_planned(
    files: Seq<FileView>,
    file: Seq<char>,
    at: Option<Seq<char>>,
)
    ensures
        history::resolve(files, file) matches Err(p) ==> restore::plan(files, file, at) == Err::<
            PlanView,
            Problem,
        >(p),
        history::resolve(files, file) matches Ok(f) ==> {
            &&& history::pick(f.path, f.versions, at) matches Ok(v) ==> restore::plan(
                files,
                file,
                at,
            ) == Ok::<PlanView, Problem>(PlanView { path: f.path, tag: v.tag })
            &&& history::pick(f.path, f.versions, at) matches Err(p) ==> restore::plan(
                files,
                file,
                at,
            ) == Err::<PlanView, Problem>(p)
        },
{
}

/// What is planned is a version of one of the files.
pub proof fn a_plan_is_for_a_version_that_is_there(
    files: Seq<FileView>,
    file: Seq<char>,
    at: Option<Seq<char>>,
)
    requires
        versions::ordered(files),
    ensures
        restore::plan(files, file, at) matches Ok(p) ==> exists|i: int, k: int|
            {
                &&& 0 <= i < files.len()
                &&& 0 <= k < files[i].versions.len()
                &&& p.path == files[i].path
                &&& p.tag == (#[trigger] files[i].versions[k]).tag
            },
{
    match restore::plan(files, file, at) {
        Ok(p) => {
            let f = history::resolve(files, file)->Ok_0;
            let v = history::pick(f.path, f.versions, at)->Ok_0;
            crate::laws::files::what_is_found_is_a_file(files, file);
            let i = choose|i: int| 0 <= i < files.len() && files[i] == f;
            match at {
                None => {
                    assert(files[i].versions[0].tag == p.tag);
                },
                Some(when) => {
                    let pred = |x: VersionView| history::is_from(x, when);
                    let found = f.versions.filter(pred);
                    assert(found[0] == v);
                    assert(found.contains(v));
                    f.versions.lemma_filter_contains_rev(pred, v);
                    let k = choose|k: int| 0 <= k < f.versions.len() && f.versions[k] == v;
                    assert(files[i].versions[k].tag == p.tag);
                },
            }
        },
        Err(_) => {},
    }
}

/// The first character of the line that is no white space is a `y`, small or capital.
pub open spec fn begins_with_y(line: Seq<char>, i: int) -> bool {
    &&& 0 <= i < line.len()
    &&& forall|k: int| 0 <= k < i ==> text::white(#[trigger] line[k])
    &&& line[i] == 'y' || line[i] == 'Y'
}

/// An answer is a yes exactly where its first character is a `y`, white space aside.
pub proof fn a_yes_begins_with_y(line: Seq<char>)
    ensures
        restore::says_yes(line) <==> exists|i: int| begins_with_y(line, i),
{
    texts::trimming_takes_white_space_off_both_ends(line);
    let (i, j) = choose|i: int, j: int|
        {
            &&& 0 <= i <= j <= line.len()
            &&& text::trimmed(line) == #[trigger] line.subrange(i, j)
            &&& forall|k: int|
                0 <= k < i || j <= k < line.len() ==> text::white(#[trigger] line[k])
            &&& i < j ==> !text::white(line[i]) && !text::white(line[j - 1])
        };
    if restore::says_yes(line) {
        assert(text::trimmed(line)[0] == line[i]);
        assert(begins_with_y(line, i));
    }
    if exists|k: int| begins_with_y(line, k) {
        let k = choose|k: int| begins_with_y(line, k);
        assert(!text::white('y') && !text::white('Y'));
        if i < j {
            if k < i {
                assert(text::white(line[k]));
            }
            if i < k {
                assert(text::white(line[i]));
            }
            assert(text::trimmed(line)[0] == line[i]);
        } else {
            assert(text::white(line[k]));
        }
    }
}

/// With `--yes` the planned version is asked for at once. Without it a question comes first,
/// which names the file and the version's time; without a prompt nothing is done.
pub proof fn a_restore_begins_with_yes_or_a_question(
    p: PlanView,
    name: Seq<char>,
    id: Seq<char>,
    json_mode: bool,
    clean: spec_fn(Seq<char>) -> Seq<char>,
)
    ensures
        restore::next_step(p, name, id, EventView::Begin { yes: true, json_mode }, clean) == Ok::<
            StepView,
            Problem,
        >(StepView::Send { picks: Json::Object(map![p.path => Json::Text(p.tag)]) }),
        restore::next_step(p, name, id, EventView::Begin { yes: false, json_mode: true }, clean)
            == Err::<StepView, Problem>(Problem::NeedsYes { path: p.path }),
        restore::next_step(p, name, id, EventView::Begin { yes: false, json_mode: false }, clean)
            matches Ok(StepView::Ask { question }) && texts::occurs(clean(p.path), question)
            && texts::occurs(versions::shown_time(p.tag), question) && question == "Restore '"@
            + clean(p.path) + "' to its version from "@ + versions::shown_time(p.tag)
            + "? The current copy is archived first. [y/N] "@,
{
    let time = versions::shown_time(p.tag);
    let question = restore::question(p, clean);
    let ending = "? The current copy is archived first. [y/N] "@;
    let middle = "' to its version from "@;
    texts::a_part_occurs("Restore '"@, clean(p.path), middle + time + ending);
    assert("Restore '"@ + clean(p.path) + (middle + time + ending) =~= question);
    texts::a_part_occurs("Restore '"@ + clean(p.path) + middle, time, ending);
    assert("Restore '"@ + clean(p.path) + middle + time + ending =~= question);
}

/// A yes sends the picks of the planned version; any other answer ends the command with
/// nothing sent and nothing restored.
pub proof fn a_no_changes_nothing(
    p: PlanView,
    name: Seq<char>,
    id: Seq<char>,
    line: Seq<char>,
    clean: spec_fn(Seq<char>) -> Seq<char>,
)
    ensures
        (exists|i: int| begins_with_y(line, i)) ==> restore::next_step(
            p,
            name,
            id,
            EventView::Answer { line },
            clean,
        ) == Ok::<StepView, Problem>(
            StepView::Send { picks: Json::Object(map![p.path => Json::Text(p.tag)]) },
        ),
        !(exists|i: int| begins_with_y(line, i)) ==> (restore::next_step(
            p,
            name,
            id,
            EventView::Answer { line },
            clean,
        ) matches Ok(StepView::Finish { output }) && {
            &&& output.lines == seq!["Aborted — nothing changed."@]
            &&& output.doc.member("ok"@) == Some(Json::Bool(true))
            &&& output.doc.member_text("action"@) == Some("restore"@)
            &&& output.doc.member("restored"@) == Some(Json::Bool(false))
        }),
{
    a_yes_begins_with_y(line);
    reveal_strlit("ok");
    reveal_strlit("action");
    reveal_strlit("restored");
    assert("ok"@.len() == 2 && "action"@.len() == 6 && "restored"@.len() == 8);
}

/// Syncthing has an error against the file.
pub open spec fn has_error(result: Json, path: Seq<char>) -> bool {
    match result {
        Json::Object(m) => m.contains_key(path) && (m[path] matches Json::Text(why) && why.len()
            > 0),
        _ => false,
    }
}

/// Where Syncthing has an error against the file, the restore fails with it. Otherwise the
/// file is restored, and both the lines and the document say which one, in which folder and
/// to which version.
pub proof fn the_outcome_is_told(
    p: PlanView,
    name: Seq<char>,
    id: Seq<char>,
    result: Json,
    clean: spec_fn(Seq<char>) -> Seq<char>,
)
    ensures
        has_error(result, p.path) ==> restore::next_step(
            p,
            name,
            id,
            EventView::Outcome { result },
            clean,
        ) == Err::<StepView, Problem>(
            Problem::Refused { path: p.path, why: result->Object_0[p.path]->Text_0 },
        ),
        !has_error(result, p.path) ==> (restore::next_step(
            p,
            name,
            id,
            EventView::Outcome { result },
            clean,
        ) matches Ok(StepView::Finish { output }) && tells_of(output, p, name, id, clean)),
{
    reveal_strlit("ok");
    reveal_strlit("action");
    reveal_strlit("restored");
    reveal_strlit("name");
    reveal_strlit("folderId");
    reveal_strlit("file");
    reveal_strlit("time");
    assert("ok"@.len() == 2 && "action"@.len() == 6 && "restored"@.len() == 8);
    assert("name"@.len() == 4 && "folderId"@.len() == 8);
    assert("folderId"@[0] != "restored"@[0]);
    assert("name"@[0] != "file"@[0] && "name"@[0] != "time"@[0] && "file"@[0] != "time"@[0]);
    let out = restore::restored(p, name, id, clean);
    let time = versions::shown_time(p.tag);
    let line = out.lines[0];
    texts::a_part_occurs(
        "Restored '"@,
        clean(p.path),
        "' in '"@ + clean(name) + "' to its version from "@ + time + "."@,
    );
    assert("Restored '"@ + clean(p.path) + ("' in '"@ + clean(name) + "' to its version from "@
        + time + "."@) =~= line);
    texts::a_part_occurs(
        "Restored '"@ + clean(p.path) + "' in '"@,
        clean(name),
        "' to its version from "@ + time + "."@,
    );
    assert("Restored '"@ + clean(p.path) + "' in '"@ + clean(name) + ("' to its version from "@
        + time + "."@) =~= line);
    texts::a_part_occurs(
        "Restored '"@ + clean(p.path) + "' in '"@ + clean(name) + "' to its version from "@,
        time,
        "."@,
    );
}

/// The output says which file was restored, in which folder and to which version.
pub open spec fn tells_of(
    output: OutputView,
    p: PlanView,
    name: Seq<char>,
    id: Seq<char>,
    clean: spec_fn(Seq<char>) -> Seq<char>,
) -> bool {
    &&& output.lines == seq![
        "Restored '"@ + clean(p.path) + "' in '"@ + clean(name) + "' to its version from "@
            + versions::shown_time(p.tag) + "."@,
        "  the copy it replaced was archived, so you can restore back to it the same way"@,
    ]
    &&& texts::occurs(clean(p.path), output.lines[0])
    &&& texts::occurs(clean(name), output.lines[0])
    &&& texts::occurs(versions::shown_time(p.tag), output.lines[0])
    &&& output.doc.member("ok"@) == Some(Json::Bool(true))
    &&& output.doc.member_text("action"@) == Some("restore"@)
    &&& output.doc.member("restored"@) == Some(Json::Bool(true))
    &&& output.doc.member_text("name"@) == Some(name)
    &&& output.doc.member_text("folderId"@) == Some(id)
    &&& output.doc.member_text("file"@) == Some(p.path)
    &&& output.doc.member_text("time"@) == Some(p.tag)
}

/// Every path that is told stands in the message, sanitized and on a line of its own, in the
/// order in which it is given.
pub proof fn a_message_has_every_path(
    wanted: Seq<char>,
    paths: Seq<Seq<char>>,
    clean: spec_fn(Seq<char>) -> Seq<char>,
)
    ensures
        paths.len() > 0 ==> history::problem_text(
            Problem::NoHistory { wanted, known: paths },
            clean,
        ) == "no history for '"@ + clean(wanted) + "' in this folder. Files with history:"@
            + output::indented(Seq::new(paths.len(), |i: int| clean(paths[i]))),
        paths.len() == 0 ==> history::problem_text(
            Problem::NoHistory { wanted, known: paths },
            clean,
        ) == "no history for '"@ + clean(wanted)
            + "' in this folder. This folder has no history yet."@,
        history::problem_text(Problem::SeveralFiles { wanted, paths }, clean) == "'"@ + clean(
            wanted,
        ) + "' matches several files — name the path exactly:"@ + output::indented(
            Seq::new(paths.len(), |i: int| clean(paths[i])),
        ),
        history::problem_text(Problem::SeveralVersions { when: wanted, times: paths }, clean)
            == "'"@ + clean(wanted) + "' matches "@ + text::decimal(paths.len())
            + " versions — be more precise:"@ + output::indented(paths),
{
    reveal_strlit("' in this folder.");
    reveal_strlit(" Files with history:");
    reveal_strlit(" This folder has no history yet.");
    reveal_strlit("' in this folder. Files with history:");
    reveal_strlit("' in this folder. This folder has no history yet.");
    assert("' in this folder."@ + " Files with history:"@
        =~= "' in this folder. Files with history:"@);
    assert("' in this folder."@ + " This folder has no history yet."@
        =~= "' in this folder. This folder has no history yet."@);
    let shown = Seq::new(paths.len(), |i: int| clean(paths[i]));
    assert(paths.map_values(clean) =~= shown);
    let head = "no history for '"@ + clean(wanted);
    assert(head + "' in this folder."@ + (" Files with history:"@ + output::indented(shown))
        =~= head + "' in this folder. Files with history:"@ + output::indented(shown));
    assert(head + "' in this folder."@ + " This folder has no history yet."@ =~= head
        + "' in this folder. This folder has no history yet."@);
}

/// A message names the file that it is about, and the time or the reason.
pub proof fn a_message_names_its_file(
    path: Seq<char>,
    what: Seq<char>,
    clean: spec_fn(Seq<char>) -> Seq<char>,
)
    ensures
        history::problem_text(Problem::NoVersions { path }, clean) == "'"@ + clean(path)
            + "' has no archived versions"@,
        history::problem_text(Problem::NoMatch { path, when: what }, clean) == "no version of '"@
            + clean(path) + "' at '"@ + clean(what) + "' — run `byteferret history <folder> "@
            + clean(path) + "` to see the times."@,
        history::problem_text(Problem::NeedsYes { path }, clean) == "refusing to restore '"@ + path
            + "' without --yes (there is no prompt in --json mode)"@,
        history::problem_text(Problem::Refused { path, why: what }, clean)
            == "Syncthing could not restore '"@ + clean(path) + "': "@ + clean(what),
        texts::occurs(clean(path), history::problem_text(Problem::NoVersions { path }, clean)),
        texts::occurs(
            clean(path),
            history::problem_text(Problem::NoMatch { path, when: what }, clean),
        ),
        texts::occurs(
            clean(what),
            history::problem_text(Problem::NoMatch { path, when: what }, clean),
        ),
        texts::occurs(path, history::problem_text(Problem::NeedsYes { path }, clean)),
        texts::occurs(
            clean(path),
            history::problem_text(Problem::Refused { path, why: what }, clean),
        ),
        texts::occurs(
            clean(what),
            history::problem_text(Problem::Refused { path, why: what }, clean),
        ),
{
    let none = Seq::<char>::empty();
    texts::a_part_occurs("'"@, clean(path), "' has no archived versions"@);
    let tail = "' — run `byteferret history <folder> "@ + clean(path) + "` to see the times."@;
    let no_match = history::problem_text(Problem::NoMatch { path, when: what }, clean);
    texts::a_part_occurs("no version of '"@, clean(path), "' at '"@ + clean(what) + tail);
    assert("no version of '"@ + clean(path) + ("' at '"@ + clean(what) + tail) =~= no_match);
    texts::a_part_occurs("no version of '"@ + clean(path) + "' at '"@, clean(what), tail);
    assert("no version of '"@ + clean(path) + "' at '"@ + clean(what) + tail =~= no_match);
    texts::a_part_occurs(
        "refusing to restore '"@,
        path,
        "' without --yes (there is no prompt in --json mode)"@,
    );
    let refused = history::problem_text(Problem::Refused { path, why: what }, clean);
    texts::a_part_occurs("Syncthing could not restore '"@, clean(path), "': "@ + clean(what));
    assert("Syncthing could not restore '"@ + clean(path) + ("': "@ + clean(what)) =~= refused);
    texts::a_part_occurs("Syncthing could not restore '"@ + clean(path) + "': "@, clean(what), none);
    assert("Syncthing could not restore '"@ + clean(path) + "': "@ + clean(what) + none =~= refused);
}

} // verus!
