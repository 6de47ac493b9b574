//! Laws on what the functions of the library return.

use serde_json::Value;
use vstd::prelude::*;

use crate::agent::{Aliases, PeerSync, ShareState, ShareTags};
use crate::commands::doctor;
use crate::commands::doctor::{Check, Facts, Level, Verdict};
use crate::commands::fixes;
use crate::commands::fixes::{FixEvent, FixStep, Fixes};
use crate::commands::history;
use crate::commands::history::{HistoryError, Problem};
use crate::commands::restore;
use crate::commands::restore::{RestoreEvent, RestorePlan, RestoreStep};
use crate::commands::shares;
use crate::commands::shares::{Answer, FolderInfo, Share};
use crate::commands::size;
use crate::commands::status;
use crate::commands::status::{Local, Reads, Running};
use crate::commands::versions;
use crate::commands::versions::{FileView, Files, Version, VersionView};
use crate::json;
use crate::json::Json;
use crate::laws::documents;
use crate::laws::files;
use crate::laws::health;
use crate::laws::listing;
use crate::laws::overview;
use crate::laws::restoring;
use crate::laws::sharing;
use crate::output;
use crate::output::Output;
use crate::syncthing::rest::FolderStatus;
use crate::text;

verus! {

/// The version shows a time that begins with `t`.
pub open spec fn shows(v: Version, t: Seq<char>) -> bool {
    &&& t.len() <= versions::shown_time(v.tag@).len()
    &&& forall|i: int| 0 <= i < t.len() ==> #[trigger] versions::shown_time(v.tag@)[i] == t[i]
}

/// A typed time, be it a whole one or any beginning of one, chooses the version that shows
/// it, where no other does and no tag is that text.
pub proof fn a_beginning_of_a_time_chooses_its_version(
    path: &str,
    vs: &Vec<Version>,
    t: &str,
    i: int,
    r: Result<&Version, HistoryError>,
)
    requires
        call_ensures(history::choose_version, (path, vs, Some(t)), r),
        files::typed_time(t@),
        0 <= i < vs@.len(),
        shows(vs@[i], t@),
        forall|j: int|
            0 <= j < vs@.len() && j != i ==> !shows(#[trigger] vs@[j], t@) && vs@[j].tag@ != t@,
    ensures
        r matches Ok(v) && v.tag@ == vs@[i].tag@ && v.size == vs@[i].size,
{
    let views = versions::version_views(vs@);
    assert forall|j: int| 0 <= j < views.len() implies files::shows(#[trigger] views[j], t@)
        == shows(vs@[j], t@) && views[j].tag == vs@[j].tag@ by {
        assert(views[j] == vs@[j]@);
    }
    assert forall|j: int| 0 <= j < views.len() && j != i implies !files::shows(
        #[trigger] views[j],
        t@,
    ) && views[j].tag != t@ by {
        assert(!shows(vs@[j], t@));
    }
    files::any_beginning_of_a_time_picks_its_version(path@, views, t@, i);
}

/// What a typed time chooses is one of the versions, and it has that text for its tag or
/// shows a time that begins with it.
pub proof fn what_a_time_chooses_shows_it(
    path: &str,
    vs: &Vec<Version>,
    t: &str,
    r: Result<&Version, HistoryError>,
)
    requires
        call_ensures(history::choose_version, (path, vs, Some(t)), r),
        files::typed_time(t@),
    ensures
        r matches Ok(v) ==> vs@.contains(*v) && (v.tag@ != t@ ==> shows(*v, t@)),
{
    let views = versions::version_views(vs@);
    files::what_a_time_picks_shows_it(path@, views, t@);
    match r {
        Ok(v) => {
            let i = choose|i: int| 0 <= i < vs@.len() && *v == #[trigger] vs@[i];
            assert(vs@.contains(*v));
            if v.tag@ != t@ {
                assert(files::shows(v@, t@));
            }
        },
        Err(_) => {},
    }
}

/// Without a time the first version is chosen; without versions there is none to choose.
pub proof fn without_a_time_the_first_is_chosen(
    path: &str,
    vs: &Vec<Version>,
    r: Result<&Version, HistoryError>,
)
    requires
        call_ensures(history::choose_version, (path, vs, None::<&str>), r),
    ensures
        vs@.len() > 0 ==> r is Ok && r->Ok_0.tag@ == vs@[0].tag@ && r->Ok_0.size == vs@[0].size,
        vs@.len() == 0 ==> r is Err && r->Err_0@ == (Problem::NoVersions { path: path@ }),
{
    let views = versions::version_views(vs@);
    if vs@.len() > 0 {
        assert(views[0] == vs@[0]@);
    }
}

/// What is chosen, and what is told where nothing is, is what the laws on picking say.
pub proof fn a_choice_is_as_described(
    path: &str,
    vs: &Vec<Version>,
    at: Option<&str>,
    r: Result<&Version, HistoryError>,
)
    requires
        call_ensures(history::choose_version, (path, vs, at), r),
    ensures
        ({
            let picked = history::pick(
                path@,
                versions::version_views(vs@),
                match at {
                    Some(t) => Some(t@),
                    None => None,
                },
            );
            &&& r matches Ok(v) ==> picked == Ok::<VersionView, Problem>(v@)
            &&& r matches Err(e) ==> picked == Err::<VersionView, Problem>(e@)
        }),
{
}

/// The path and the versions are those of the file.
pub open spec fn is_whole(path: &String, vs: &Vec<Version>, f: FileView) -> bool {
    &&& path@ == f.path
    &&& vs@.len() == f.versions.len()
    &&& forall|k: int|
        0 <= k < vs@.len() ==> (#[trigger] vs@[k]).tag@ == f.versions[k].tag && vs@[k].size
            == f.versions[k].size
}

/// What is found is one of the files, whole. It is the file with the path that is meant, where
/// there is one, and else the only one with that base name.
pub proof fn a_file_is_found_by_its_path_or_its_name(
    all: &Files,
    wanted: &str,
    r: Result<(&String, &Vec<Version>), HistoryError>,
    i: int,
)
    requires
        all.wf(),
        call_ensures(history::find_file, (all, wanted), r),
        0 <= i < all@.len(),
    ensures
        r matches Ok(p) ==> exists|k: int|
            0 <= k < all@.len() && is_whole(p.0, p.1, #[trigger] all@[k]),
        all@[i].path == history::wanted_path(wanted@) ==> (r matches Ok(p) && is_whole(
            p.0,
            p.1,
            all@[i],
        )),
        history::base_name(all@[i].path) == history::wanted_path(wanted@) && (forall|j: int|
            0 <= j < all@.len() && j != i ==> !files::has_name(
                all@,
                j,
                history::wanted_path(wanted@),
            )) ==> (r matches Ok(p) && is_whole(p.0, p.1, all@[i])),
{
    let path = history::wanted_path(wanted@);
    files::what_is_found_is_a_file(all@, wanted@);
    match r {
        Ok(p) => {
            let f = history::pair_view(p);
            let k = choose|k: int| 0 <= k < all@.len() && all@[k] == f;
            assert forall|m: int| 0 <= m < p.1@.len() implies (#[trigger] p.1@[m]).tag@
                == f.versions[m].tag && p.1@[m].size == f.versions[m].size by {
                assert(f.versions[m] == p.1@[m]@);
            }
            assert(is_whole(p.0, p.1, all@[k]));
        },
        Err(_) => {},
    }
    if all@[i].path != path && history::base_name(all@[i].path) == path && (forall|j: int|
        0 <= j < all@.len() && j != i ==> !files::has_name(all@, j, path)) {
        let pred = |f: FileView| history::base_name(f.path) == path;
        assert forall|j: int| 0 <= j < all@.len() && j != i implies !pred(#[trigger] all@[j]) by {
            assert(!files::has_name(all@, j, path));
        }
        files::lemma_filter_finds_one(all@, pred, i);
        assert(!versions::has_path(all@, path)) by {
            if versions::has_path(all@, path) {
                let j = choose|j: int| 0 <= j < all@.len() && #[trigger] all@[j].path == path;
                assert(!files::has_name(all@, j, path));
            }
        }
        assert(history::resolve(all@, wanted@) == Ok::<FileView, Problem>(all@[i]));
    }
}

/// What is told where no file is found is what the laws on finding say.
pub proof fn what_finds_no_file_is_told(
    all: &Files,
    wanted: &str,
    r: Result<(&String, &Vec<Version>), HistoryError>,
)
    requires
        all.wf(),
        call_ensures(history::find_file, (all, wanted), r),
    ensures
        r matches Err(e) ==> history::resolve(all@, wanted@) == Err::<FileView, Problem>(e@),
{
}

/// `history` without a file lists every file with all its versions.
pub proof fn history_lists_every_file<F: Fn(&str) -> String>(
    name: &str,
    id: &str,
    all: &Files,
    sanitize: &F,
    r: Result<Output, HistoryError>,
)
    requires
        all.wf(),
        output::sanitizer(*sanitize),
        call_ensures(history::history::<F>, (name, id, all, None::<&str>, sanitize), r),
    ensures
        r matches Ok(o) && listing::document_has_all(json::json(o.doc), name@, id@, all@) && (
        all@.len() > 0 ==> listing::lines_have_all(
            text::texts(o.lines@),
            name@,
            all@,
            output::cleaner(*sanitize),
        )),
{
    listing::every_file_and_version_is_listed(name@, id@, all@, output::cleaner(*sanitize));
}

/// `history` of a file that is there lists that file and no other, with all its versions.
pub proof fn history_lists_the_file_asked_for<F: Fn(&str) -> String>(
    name: &str,
    id: &str,
    all: &Files,
    wanted: &str,
    sanitize: &F,
    r: Result<Output, HistoryError>,
    i: int,
)
    requires
        all.wf(),
        output::sanitizer(*sanitize),
        call_ensures(history::history::<F>, (name, id, all, Some(wanted), sanitize), r),
        0 <= i < all@.len(),
        all@[i].path == history::wanted_path(wanted@),
    ensures
        r matches Ok(o) && listing::document_has_all(
            json::json(o.doc),
            name@,
            id@,
            seq![all@[i]],
        ) && listing::lines_have_all(
            text::texts(o.lines@),
            name@,
            seq![all@[i]],
            output::cleaner(*sanitize),
        ),
{
    files::what_is_found_is_a_file(all@, wanted@);
    listing::the_file_asked_for_is_listed_whole(
        name@,
        id@,
        all@,
        wanted@,
        output::cleaner(*sanitize),
    );
}

/// What is planned is to bring back a version of one of the files: of the one with the path
/// that is meant, where there is one, and without a time its first.
pub proof fn a_version_that_is_there_is_planned(
    all: &Files,
    file: &str,
    at: Option<&str>,
    r: Result<RestorePlan, HistoryError>,
    i: int,
)
    requires
        all.wf(),
        call_ensures(restore::plan_restore, (all, file, at), r),
        0 <= i < all@.len(),
    ensures
        r matches Ok(p) ==> exists|j: int, k: int|
            {
                &&& 0 <= j < all@.len()
                &&& 0 <= k < all@[j].versions.len()
                &&& p.path@ == all@[j].path
                &&& p.tag@ == (#[trigger] all@[j].versions[k]).tag
            },
        at is None && all@[i].path == history::wanted_path(file@) && all@[i].versions.len() > 0
            ==> (r matches Ok(p) && p.path@ == all@[i].path && p.tag@ == all@[i].versions[0].tag),
{
    restoring::a_plan_is_for_a_version_that_is_there(all@, file@, history::opt_text(at));
    files::what_is_found_is_a_file(all@, file@);
}

/// What is sent to Syncthing asks for the planned version of the planned file and for nothing
/// else.
pub proof fn the_planned_version_is_sent(p: &RestorePlan, r: Value)
    requires
        call_ensures(restore::restore_picks, (p,), r),
    ensures
        json::json(r) == Json::Object(map![p.path@ => Json::Text(p.tag@)]),
{
}

/// A question is put only where there is somebody to ask, and it names the file and the time.
pub proof fn the_question_names_file_and_time<F: Fn(&str) -> String>(
    p: &RestorePlan,
    json_mode: bool,
    sanitize: &F,
    r: Result<String, HistoryError>,
)
    requires
        output::sanitizer(*sanitize),
        call_ensures(restore::confirm_restore::<F>, (p, json_mode, sanitize), r),
    ensures
        json_mode ==> r is Err && r->Err_0@ == (Problem::NeedsYes { path: p.path@ }),
        !json_mode ==> r is Ok && r->Ok_0@ == "Restore '"@ + output::cleaner(*sanitize)(p.path@)
            + "' to its version from "@ + versions::shown_time(p.tag@)
            + "? The current copy is archived first. [y/N] "@,
{
}

/// An answer counts as a yes exactly where its first character is a `y`, white space aside.
pub proof fn a_y_is_a_yes(answer: &str, r: bool)
    requires
        call_ensures(restore::is_yes, (answer,), r),
    ensures
        r <==> exists|i: int| restoring::begins_with_y(answer@, i),
{
    restoring::a_yes_begins_with_y(answer@);
}

/// Each step of a restore is the one that the laws on restoring describe.
pub proof fn a_restore_takes_its_steps<F: Fn(&str) -> String>(
    p: &RestorePlan,
    name: &str,
    id: &str,
    event: &RestoreEvent,
    sanitize: &F,
    r: Result<RestoreStep, HistoryError>,
)
    requires
        output::sanitizer(*sanitize),
        call_ensures(restore::restore::<F>, (p, name, id, event, sanitize), r),
    ensures
        ({
            let next = restore::next_step(p@, name@, id@, event@, output::cleaner(*sanitize));
            &&& r matches Ok(s) ==> next == Ok::<restore::StepView, Problem>(s@)
            &&& r matches Err(e) ==> next == Err::<restore::StepView, Problem>(e@)
            &&& p@.path == p.path@
            &&& p@.tag == p.tag@
        }),
{
}

/// What the laws on restoring say of events, steps and outputs is said of what these hold.
pub proof fn events_and_steps_are_what_they_hold(e: RestoreEvent, s: RestoreStep, o: Output)
    ensures
        e matches RestoreEvent::Begin { yes, json_mode } ==> e@ == (restore::EventView::Begin {
            yes,
            json_mode,
        }),
        e matches RestoreEvent::Answer { line } ==> e@ == (restore::EventView::Answer {
            line: line@,
        }),
        e matches RestoreEvent::Outcome { result } ==> e@ == (restore::EventView::Outcome {
            result: json::json(result),
        }),
        s matches RestoreStep::Ask { question } ==> s@ == (restore::StepView::Ask {
            question: question@,
        }),
        s matches RestoreStep::Send { picks } ==> s@ == (restore::StepView::Send {
            picks: json::json(picks),
        }),
        s matches RestoreStep::Finish { output } ==> s@ == (restore::StepView::Finish {
            output: output@,
        }),
        o@.doc == json::json(o.doc),
        o@.lines.len() == o.lines@.len(),
        forall|i: int| 0 <= i < o.lines@.len() ==> #[trigger] o@.lines[i] == o.lines@[i]@,
{
}

/// The message of an error is that of its problem.
pub proof fn an_error_tells_its_problem<F: Fn(&str) -> String>(
    e: &HistoryError,
    sanitize: &F,
    r: String,
)
    requires
        output::sanitizer(*sanitize),
        call_ensures(HistoryError::message::<F>, (e, sanitize), r),
    ensures
        r@ == history::problem_text(e@, output::cleaner(*sanitize)),
        e matches HistoryError::NoHistory { wanted, known } ==> e@ == (Problem::NoHistory {
            wanted: wanted@,
            known: text::texts(known@),
        }),
        e matches HistoryError::SeveralFiles { wanted, paths } ==> e@ == (Problem::SeveralFiles {
            wanted: wanted@,
            paths: text::texts(paths@),
        }),
        e matches HistoryError::NoVersions { path } ==> e@ == (Problem::NoVersions { path: path@ }),
        e matches HistoryError::NoMatch { path, when } ==> e@ == (Problem::NoMatch {
            path: path@,
            when: when@,
        }),
        e matches HistoryError::SeveralVersions { when, times } ==> e@
            == (Problem::SeveralVersions { when: when@, times: text::texts(times@) }),
        e matches HistoryError::NeedsYes { path } ==> e@ == (Problem::NeedsYes { path: path@ }),
        e matches HistoryError::Refused { path, why } ==> e@ == (Problem::Refused {
            path: path@,
            why: why@,
        }),
{
}

/// A size and a time are shown as the laws on sizes and times say.
pub proof fn sizes_and_times_are_shown(bytes: i64, size: String, tag: &str, time: String)
    requires
        call_ensures(size::human_size, (bytes,), size),
        call_ensures(versions::display_time, (tag,), time),
    ensures
        size@ == size::human(bytes as int),
        time@ == versions::shown_time(tag@),
{
}

/// `status` of a running agent has, for every folder and every device that offers it, the
/// offer of that folder by that device in its document, and no other offers.
pub proof fn status_has_every_offer<F: Fn(&str) -> String>(
    verbose: bool,
    host: &str,
    f: &Running,
    sanitize: &F,
    out: Output,
    j: int,
    k: int,
)
    requires
        output::sanitizer(*sanitize),
        call_ensures(status::status::<F>, (verbose, host, Some(f), sanitize), out),
        0 <= j < f.offered@.len(),
        0 <= k < f.offered@[j].pending.offered_by@.len(),
    ensures
        ({
            let entries = documents::array_at(json::json(out.doc), "pendingFolders"@);
            let entry = entries[overview::offers_before(f.offered@, j) + k];
            let folder = f.offered@[j];
            let (device, offer) = folder.pending.offered_by@[k];
            &&& entries.len() == overview::offers_before(f.offered@, f.offered@.len() as int)
            &&& documents::has(entry, "name"@, Json::Text(folder.name@))
            &&& documents::has(entry, "folderId"@, Json::Text(folder.folder@))
            &&& documents::has(entry, "offeredBy"@, Json::Text(device@))
            &&& documents::has(entry, "label"@, Json::Text(offer.label@))
        }),
{
    overview::the_document_has_every_offer(verbose, host@, *f, output::cleaner(*sanitize), j, k);
}

/// The lines and the document of `status` are those that the laws on it describe.
pub proof fn status_is_as_described<F: Fn(&str) -> String>(
    verbose: bool,
    host: &str,
    running: Option<&Running>,
    sanitize: &F,
    out: Output,
)
    requires
        output::sanitizer(*sanitize),
        call_ensures(status::status::<F>, (verbose, host, running, sanitize), out),
    ensures
        ({
            let described = status::status_output(
                verbose,
                host@,
                match running {
                    Some(f) => Some(*f),
                    None => None,
                },
                output::cleaner(*sanitize),
            );
            &&& json::json(out.doc) == described.doc
            &&& out.lines@.len() == described.lines.len()
            &&& forall|i: int|
                0 <= i < out.lines@.len() ==> (#[trigger] out.lines@[i])@ == described.lines[i]
        }),
{
    assert(out@.lines == text::texts(out.lines@));
    assert forall|i: int| 0 <= i < out.lines@.len() implies (#[trigger] out.lines@[i])@
        == out@.lines[i] by {
        assert(text::texts(out.lines@)[i] == out.lines@[i]@);
    }
}

/// There is a status exactly where the device id, the version, the requests and the offers
/// could be read, and it has all that was read; what else could not be read counts as none.
pub proof fn a_status_needs_four_reads(
    reads: Reads,
    local: Local,
    r: Result<Running, String>,
    i: int,
)
    requires
        call_ensures(status::gather, (reads, local), r),
    ensures
        r is Ok <==> reads.device_id is Ok && reads.version is Ok && reads.pending is Ok
            && reads.offered is Ok,
        r matches Ok(f) ==> {
            &&& f.device_id@ == reads.device_id->Ok_0@
            &&& f.version@ == reads.version->Ok_0@
            &&& f.pending@ == reads.pending->Ok_0@
            &&& f.offered@ == reads.offered->Ok_0@
            &&& reads.peers matches Ok(peers) ==> f.peers@ == peers@
            &&& reads.peers is Err ==> f.peers@.len() == 0
            &&& reads.connections matches Ok(conns) ==> f.connections@ == conns@
            &&& reads.connections is Err ==> f.connections@.len() == 0
            &&& reads.folders matches Ok(folders) ==> f.folders@.len() == folders@.len() && (0 <= i
                < folders@.len() ==> f.folders@[i]@ == shares::folder_of(
                json::json(folders@[i].config),
                folders@[i].name@,
                folders@[i].status,
                f.device_id@,
            ))
            &&& reads.folders is Err ==> f.folders@.len() == 0
            &&& f.conflicts@.len() == 0
            &&& f.gui_address@ == local.gui_address@
            &&& f.aliases == local.aliases
            &&& f.aliases_doc == local.aliases_doc
            &&& f.tags == local.tags
            &&& f.zero == local.zero
        },
        r matches Err(why) ==> {
            ||| reads.device_id is Err && why@ == reads.device_id->Err_0@
            ||| reads.device_id is Ok && reads.version is Err && why@ == reads.version->Err_0@
            ||| reads.device_id is Ok && reads.version is Ok && reads.pending is Err && why@
                == reads.pending->Err_0@
            ||| reads.device_id is Ok && reads.version is Ok && reads.pending is Ok && why@
                == reads.offered->Err_0@
        },
{
    match r {
        Ok(f) => {
            let views = shares::folder_views(f.folders@);
            assert(views.len() == f.folders@.len());
            if 0 <= i < f.folders@.len() {
                assert(views[i] == f.folders@[i]@);
            }
        },
        Err(_) => {},
    }
}

/// The checks that are made have one of level Fail exactly where something is broken: a
/// registered folder without its directory among it.
pub proof fn a_check_fails_where_something_is_broken<F: Fn(&str) -> String>(
    f: &Facts,
    sanitize: &F,
    cs: Vec<Check>,
)
    requires
        output::sanitizer(*sanitize),
        call_ensures(doctor::build_checks::<F>, (f, sanitize), cs),
    ensures
        (exists|i: int| 0 <= i < cs@.len() && (#[trigger] cs@[i]).level == Level::Fail)
            <==> health::is_broken(*f),
        (forall|i: int| 0 <= i < cs@.len() ==> (#[trigger] cs@[i]).level == Level::Okay)
            <==> health::is_well(*f),
        doctor::check_views(cs@) == doctor::all_checks(*f, output::cleaner(*sanitize)),
{
    let clean = output::cleaner(*sanitize);
    let views = doctor::check_views(cs@);
    assert(views.len() == cs@.len());
    assert forall|i: int| 0 <= i < cs@.len() implies (#[trigger] views[i]).level
        == cs@[i].level by {}
    health::the_check_fails_where_something_is_broken(*f, clean);
    health::the_check_is_clean_where_all_is_well(*f, clean);
    doctor::worst_is_the_most_severe(doctor::levels(views));
    if health::has_level(views, Level::Fail) {
        let i = choose|i: int| 0 <= i < views.len() && (#[trigger] views[i]).level == Level::Fail;
        assert(cs@[i].level == Level::Fail);
    }
    if exists|i: int| 0 <= i < cs@.len() && (#[trigger] cs@[i]).level == Level::Fail {
        let i = choose|i: int| 0 <= i < cs@.len() && (#[trigger] cs@[i]).level == Level::Fail;
        assert(views[i].level == Level::Fail);
    }
    if health::is_well(*f) {
        assert forall|i: int| 0 <= i < cs@.len() implies (#[trigger] cs@[i]).level
            == Level::Okay by {
            assert(doctor::levels(views)[i] == views[i].level);
        }
    }
    if forall|i: int| 0 <= i < cs@.len() ==> (#[trigger] cs@[i]).level == Level::Okay {
        assert forall|i: int| 0 <= i < doctor::levels(views).len() implies #[trigger] doctor::levels(
            views,
        )[i] == Level::Okay by {
            assert(views[i].level == cs@[i].level);
        }
    }
}

/// `doctor` fails exactly where a check does, and its lines and document are those that the
/// laws on it describe.
pub proof fn doctor_fails_where_a_check_does(
    fix: bool,
    applied: &Vec<String>,
    cs: &Vec<Check>,
    v: Verdict,
)
    requires
        !fix ==> applied@.len() == 0,
        call_ensures(doctor::doctor, (fix, applied, cs), v),
    ensures
        v.failed <==> exists|i: int|
            0 <= i < cs@.len() && (#[trigger] cs@[i]).level == Level::Fail,
        v.output@ == doctor::doctor_output(fix, text::texts(applied@), doctor::check_views(cs@)),
{
}

/// Every path is looked at for conflict files, and what was found is summed up, or told to
/// be too much.
pub proof fn conflict_files_are_counted(
    configs: &Vec<Value>,
    paths: Vec<&str>,
    counts: &Vec<usize>,
    sum: Option<usize>,
)
    requires
        call_ensures(doctor::conflict_paths, (configs,), paths),
        call_ensures(doctor::conflict_count, (counts,), sum),
    ensures
        paths@.len() == doctor::paths_in(json::jsons(configs@)).len(),
        forall|i: int|
            0 <= i < paths@.len() ==> (#[trigger] paths@[i])@ == doctor::paths_in(
                json::jsons(configs@),
            )[i],
        sum matches Some(n) ==> n == doctor::total(counts@),
        sum is None ==> doctor::total(counts@) > usize::MAX,
{
    let shown = paths@.map_values(|s: &str| s@);
    assert(shown.len() == paths@.len());
    assert forall|i: int| 0 <= i < paths@.len() implies (#[trigger] paths@[i])@ == shown[i] by {}
}

/// A mode is in order exactly where no group or other bit is set, and the worst of some
/// levels is the most severe of them.
pub proof fn modes_and_levels(mode: u32, ok: bool, levels: &[Level], worst: Level)
    requires
        call_ensures(doctor::perms_ok, (mode,), ok),
        call_ensures(doctor::worst, (levels,), worst),
    ensures
        ok <==> mode & 0o077 == 0,
        worst == Level::Fail <==> levels@.contains(Level::Fail),
        worst == Level::Okay <==> forall|i: int|
            0 <= i < levels@.len() ==> #[trigger] levels@[i] == Level::Okay,
{
    health::a_mode_is_in_order_without_group_and_other_bits(mode);
    doctor::worst_is_the_most_severe(levels@);
}

/// The repairs begin with the mode of the secrets file, and without `--fix` at the end; each
/// event leads on as the laws on repairs say.
pub proof fn repairs_take_their_steps<F: Fn(&str) -> String>(
    fix: bool,
    start: Fixes,
    f: Fixes,
    secrets_file: &str,
    event: &FixEvent,
    sanitize: &F,
    r: Fixes,
)
    requires
        output::sanitizer(*sanitize),
        call_ensures(Fixes::start, (fix,), start),
        call_ensures(fixes::apply_fixes::<F>, (f, secrets_file, event, sanitize), r),
    ensures
        start.step == (if fix {
            FixStep::ReadMode
        } else {
            FixStep::Finish
        }),
        start.done@.len() == 0,
        r@ == fixes::fix_next(f@, secrets_file@, *event, output::cleaner(*sanitize)),
        r@.step == r.step,
        r@.done.len() == r.done@.len(),
        forall|i: int| 0 <= i < r.done@.len() ==> #[trigger] r@.done[i] == r.done@[i]@,
{
    assert(start@.done.len() == start.done@.len());
}

/// What is known of a folder is what the laws on folders say of its configuration.
pub proof fn a_folder_is_read_from_its_configuration(
    config: &Value,
    name: &str,
    read: Option<&FolderStatus>,
    own: &str,
    r: FolderInfo,
    id: String,
)
    requires
        call_ensures(shares::folder_info, (config, name, read, own), r),
        call_ensures(shares::folder_id, (config,), id),
    ensures
        r.id@ == sharing::text_or_nothing(json::json(*config), "id"@),
        r.label@ == sharing::text_or_nothing(json::json(*config), "label"@),
        r.path@ == sharing::text_or_nothing(json::json(*config), "path"@),
        r.name@ == name@,
        read matches Some(s) ==> r.state@ == s.state@ && r.need_bytes == s.need_bytes,
        read is None ==> r.state@.len() == 0 && r.need_bytes == 0,
        text::texts(r.peers@) == (if documents::has_array(json::json(*config), "devices"@) {
            shares::other_devices(documents::array_at(json::json(*config), "devices"@), own@)
        } else {
            seq![]
        }),
        id@ == r.id@,
{
    let status = match read {
        Some(s) => Some(*s),
        None => None,
    };
    sharing::a_folder_is_as_it_is_configured(json::json(*config), name@, status, own@);
    if !documents::has_array(json::json(*config), "devices"@) {
        assert(text::texts(r.peers@) =~= Seq::<Seq<char>>::empty());
    }
}

/// A connected peer is asked for every folder that is shared with it and for no other, and
/// one that is not connected for none.
pub proof fn every_shared_folder_is_asked_for(
    folders: &Vec<FolderInfo>,
    p: &PeerSync,
    ids: Vec<String>,
)
    requires
        call_ensures(shares::asked_folders, (folders, p), ids),
    ensures
        ({
            let shared = folders@.filter(|f: FolderInfo| sharing::is_shared(f, p.id@));
            &&& ids@.len() == (if p.connected {
                shared.len()
            } else {
                0
            })
            &&& forall|k: int| 0 <= k < ids@.len() ==> (#[trigger] ids@[k])@ == shared[k].id@
        }),
{
    sharing::a_connected_peer_is_asked_for_its_folders(folders@, p@);
    let shown = text::texts(ids@);
    assert(shown.len() == ids@.len());
    assert forall|k: int| 0 <= k < ids@.len() implies (#[trigger] ids@[k])@ == shown[k] by {}
}

/// Every folder that is shared with a peer is among its states, and no other, each under its
/// id and name.
pub proof fn every_shared_folder_has_its_state(
    folders: &Vec<FolderInfo>,
    p: &PeerSync,
    answers: &Vec<Option<Answer>>,
    zero: &Value,
    r: Vec<Share>,
)
    requires
        call_ensures(shares::peer_folder_states, (folders, p, answers, zero), r),
    ensures
        ({
            let shared = folders@.filter(|f: FolderInfo| sharing::is_shared(f, p.id@));
            &&& r@.len() == shared.len()
            &&& forall|k: int|
                0 <= k < r@.len() ==> {
                    let s = #[trigger] r@[k];
                    let given = k < answers@.len() && answers@[k] is Some;
                    &&& s.folder@ == shared[k].id@
                    &&& s.name@ == shared[k].name@
                    &&& !p.connected ==> s.answer.state == ShareState::Offline
                    &&& p.connected && !given ==> s.answer.state == ShareState::Establishing
                    &&& p.connected && given ==> sharing::says(s.answer@, answers@[k]->0)
                    &&& !p.connected || !given ==> json::json(s.answer.completion) == json::json(
                        *zero,
                    ) && !s.answer.in_sync && s.answer.percent@ == "0"@
                }
        }),
{
    sharing::states_follow_the_answers(folders@, p@, answers@, json::json(*zero));
    let views = shares::share_views(r@);
    assert(views.len() == r@.len());
    assert forall|k: int| 0 <= k < r@.len() implies (#[trigger] r@[k])@ == views[k] by {}
}

/// Names, ids and paths are those that the laws on sharing describe.
pub proof fn names_and_ids_are_shown(
    aliases: &Aliases,
    id: &str,
    verbose: bool,
    name: String,
    shown: String,
    beginning: String,
)
    requires
        call_ensures(status::peer_ref, (aliases, id), name),
        call_ensures(status::id_display, (id, verbose), shown),
        call_ensures(status::short, (id,), beginning),
    ensures
        name@ == status::reference(aliases@, id@),
        beginning@.is_prefix_of(id@),
        beginning@.len() == (if id@.len() < 7 {
            id@.len()
        } else {
            7
        }),
        shown@ == (if verbose {
            id@
        } else {
            beginning@ + "…"@
        }),
{
    sharing::an_id_is_shown_by_its_beginning(id@);
}

/// What stands beside a share is told as the laws on sharing say, and the name of this machine
/// ends at the first zero.
pub proof fn annotations_and_hostnames(
    state: ShareState,
    in_sync: bool,
    percent: &str,
    beside: String,
    buf: &Vec<u8>,
    filled: bool,
    host: String,
)
    requires
        call_ensures(shares::share_annotation, (state, in_sync, percent), beside),
        call_ensures(status::hostname, (filled, buf), host),
    ensures
        beside@ == shares::annotation(state, in_sync, percent@),
        host@ == status::host_name(filled, buf@),
{
}

/// The paths that are scanned for conflict files are those of the folders that have one.
pub proof fn every_path_is_scanned(folders: &Vec<FolderInfo>, r: Vec<&String>)
    requires
        call_ensures(shares::scanned_paths, (folders,), r),
    ensures
        r@.len() == shares::paths_of(shares::folder_views(folders@)).len(),
        forall|i: int|
            0 <= i < r@.len() ==> (#[trigger] r@[i])@ == shares::paths_of(
                shares::folder_views(folders@),
            )[i],
{
    let shown = r@.map_values(|s: &String| s@);
    assert(shown.len() == r@.len());
    assert forall|i: int| 0 <= i < r@.len() implies (#[trigger] r@[i])@ == shown[i] by {}
}

/// The document of a failure says so, and why.
pub proof fn a_failure_is_told(error: &str, r: Value)
    requires
        call_ensures(output::failure_doc, (error,), r),
    ensures
        documents::has(json::json(r), "ok"@, Json::Bool(false)),
        documents::has(json::json(r), "error"@, Json::Text(error@)),
{
    documents::a_failure_has_its_error(error@);
}

/// The word and the mark of a level, and the name of a share state, are each its own.
pub proof fn levels_and_states_have_their_words(
    level: Level,
    word: &'static str,
    mark: char,
    tags: &ShareTags,
    state: ShareState,
    tag: &str,
)
    requires
        call_ensures(Level::tag, (level,), word),
        call_ensures(Level::glyph, (level,), mark),
        call_ensures(ShareTags::tag, (tags, state), tag),
    ensures
        (word@, mark) == (match level {
            Level::Okay => ("ok"@, '✓'),
            Level::Warn => ("warn"@, '!'),
            Level::Fail => ("FAIL"@, '✗'),
        }),
        tag@ == (match state {
            ShareState::Sharing => tags.sharing@,
            ShareState::Establishing => tags.establishing@,
            ShareState::NotSharingBack => tags.not_sharing_back@,
            ShareState::Offline => tags.offline@,
        }),
{
}

/// A check says what it was made with, and a hint is added to it without changing the rest.
pub proof fn a_check_says_what_it_was_made_with(
    level: Level,
    name: &str,
    detail: String,
    hint: &str,
    made: Check,
    hinted: Check,
)
    requires
        call_ensures(Check::new, (level, name, detail), made),
        call_ensures(Check::with_hint, (made, hint), hinted),
    ensures
        made.level == level && made.name@ == name@ && made.detail@ == detail@ && made.hint is None,
        hinted.level == level && hinted.name@ == name@ && hinted.detail@ == detail@,
        hinted.hint is Some && hinted.hint->0@ == hint@,
{
    assert(made@.hint is None);
    assert(hinted@.hint is Some);
}

/// The alias that is found is the first that is recorded for the device, and none is found
/// where none is; a peer is stalled exactly where it does not share back.
pub proof fn aliases_are_found(
    aliases: &Aliases,
    id: &str,
    r: Option<&String>,
    i: int,
    p: &PeerSync,
    stalled: bool,
)
    requires
        call_ensures(Aliases::alias_for, (aliases, id), r),
        call_ensures(PeerSync::stalled, (p,), stalled),
        0 <= i <= aliases.pairs@.len(),
        i < aliases.pairs@.len() ==> aliases.pairs@[i].0@ == id@,
        forall|k: int| 0 <= k < i ==> (#[trigger] aliases.pairs@[k]).0@ != id@,
    ensures
        i < aliases.pairs@.len() ==> r is Some && r->0@ == aliases.pairs@[i].1@,
        i == aliases.pairs@.len() ==> r is None,
        stalled <==> p.state == ShareState::NotSharingBack,
{
    let pairs = aliases@;
    assert(pairs.len() == aliases.pairs@.len());
    assert forall|k: int| 0 <= k < i implies (#[trigger] pairs[k]).0 != id@ by {
        assert(aliases.pairs@[k].0@ != id@);
    }
    if i < pairs.len() {
        assert(pairs[i] == (aliases.pairs@[i].0@, aliases.pairs@[i].1@));
        sharing::the_first_alias_counts(pairs, id@, i);
    } else {
        sharing::without_an_alias_the_id_counts(pairs, id@);
    }
}

/// The hint on the files with history has each of them on a line of its own, sanitized, and
/// says so where there are none.
pub proof fn the_hint_lists_every_file<F: Fn(&str) -> String>(
    known: &Vec<String>,
    sanitize: &F,
    r: String,
)
    requires
        output::sanitizer(*sanitize),
        call_ensures(history::list_hint::<F>, (known, sanitize), r),
    ensures
        known@.len() == 0 ==> r@ == " This folder has no history yet."@,
        known@.len() > 0 ==> r@ == " Files with history:"@ + output::indented(
            Seq::new(known@.len(), |i: int| output::cleaner(*sanitize)(known@[i]@)),
        ),
{
    let clean = output::cleaner(*sanitize);
    assert(text::texts(known@).map_values(clean) =~= Seq::new(
        known@.len(),
        |i: int| clean(known@[i]@),
    ));
}

} // verus!
