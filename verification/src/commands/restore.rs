//! `restore`: bringing an archived version of a file back.

use serde_json::Value;
use vstd::prelude::*;
use vstd::string::*;

use crate::commands::history;
use crate::commands::history::{HistoryError, Problem};
use crate::commands::instants;
use crate::commands::versions;
use crate::commands::versions::{FileView, Files, VersionView};
use crate::json;
use crate::json::Json;
use crate::laws;
use crate::output;
use crate::output::{Output, OutputView};
use crate::text;

verus! {

/// The file and the version of it that are to be brought back.
#[derive(Debug)]
pub struct RestorePlan {
    pub path: String,
    pub tag: String,
}

/// What a plan holds.
pub struct PlanView {
    pub path: Seq<char>,
    pub tag: Seq<char>,
}

impl View for RestorePlan {
    type V = PlanView;

    open spec fn view(&self) -> PlanView {
        PlanView { path: self.path@, tag: self.tag@ }
    }
}

/// The file that is meant, and the version of it from the time that is given.
pub open spec fn plan(
    files: Seq<FileView>,
    file: Seq<char>,
    at: Option<Seq<char>>,
) -> Result<PlanView, Problem> {
    match history::resolve(files, file) {
        Ok(f) => match history::pick(f.path, f.versions, at) {
            Ok(v) => Ok(PlanView { path: f.path, tag: v.tag }),
            Err(p) => Err(p),
        },
        Err(p) => Err(p),
    }
}

/// The file that is meant, and the version of it from the time that is given.
pub fn plan_restore(files: &Files, file: &str, at: Option<&str>) -> (r: Result<
    RestorePlan,
    HistoryError,
>)
    requires
        files.wf(),
    ensures
        match r {
            Ok(p) => plan(files@, file@, history::opt_text(at)) == Ok::<PlanView, Problem>(p@),
            Err(e) => plan(files@, file@, history::opt_text(at)) == Err::<PlanView, Problem>(e@),
        },
{
    match history::find_file(files, file) {
        Ok((path, vs)) => match history::choose_version(path.as_str(), vs, at) {
            Ok(v) => Ok(RestorePlan { path: path.clone(), tag: v.tag.clone() }),
            Err(e) => Err(e),
        },
        Err(e) => Err(e),
    }
}

/// Syncthing takes a map of file → versionTime.
pub open spec fn picks(p: PlanView) -> Json {
    Json::Object(map![p.path => Json::Text(p.tag)])
}

/// The picks that Syncthing is sent for a plan.
pub fn restore_picks(p: &RestorePlan) -> (r: Value)
    ensures
        json::json(r) == picks(p@),
{
    json::with_text(json::empty_object(), p.path.as_str(), p.tag.as_str())
}

/// The question before a file is overwritten.
pub open spec fn question(p: PlanView, clean: spec_fn(Seq<char>) -> Seq<char>) -> Seq<char> {
    "Restore '"@ + clean(p.path) + "' to its version from "@ + versions::shown_time(p.tag)
        + "? The current copy is archived first. [y/N] "@
}

/// Restoring overwrites the file that is there now. Syncthing archives that copy
/// first so it is recoverable, but the change is still real — confirm it. In
/// `--json` mode there is no prompt, so require `--yes` rather than guess.
pub fn confirm_restore<F: Fn(&str) -> String>(
    p: &RestorePlan,
    json_mode: bool,
    sanitize: &F,
) -> (r: Result<String, HistoryError>)
    requires
        output::sanitizer(*sanitize),
    ensures
        match r {
            Ok(q) => !json_mode && q@ == question(p@, output::cleaner(*sanitize)),
            Err(e) => json_mode && e@ == (Problem::NeedsYes { path: p@.path }),
        },
{
    if json_mode {
        return Err(HistoryError::NeedsYes { path: p.path.clone() });
    }
    let mut q = "Restore '".to_owned();
    q.append(output::cleaned(sanitize, p.path.as_str()).as_str());
    q.append("' to its version from ");
    q.append(versions::display_time(p.tag.as_str()).as_str());
    q.append("? The current copy is archived first. [y/N] ");
    Ok(q)
}

/// An answer is a yes where its first character is a `y`, white space aside.
pub open spec fn says_yes(answer: Seq<char>) -> bool {
    let a = text::trimmed(answer);
    a.len() > 0 && (a[0] == 'y' || a[0] == 'Y')
}

/// Whether an answer is a yes.
pub fn is_yes(answer: &str) -> (r: bool)
    ensures
        r == says_yes(answer@),
{
    let v = text::chars_of(text::trim(answer).as_str());
    v.len() > 0 && (v[0] == 'y' || v[0] == 'Y')
}

/// What an abandoned restore shows and leaves.
pub open spec fn aborted() -> OutputView {
    OutputView {
        lines: seq!["Aborted — nothing changed."@],
        doc: Json::Object(
            map![
                "ok"@ => Json::Bool(true),
                "action"@ => Json::Text("restore"@),
                "restored"@ => Json::Bool(false),
            ],
        ),
    }
}

/// What a restore that was done shows and leaves.
pub open spec fn restored(
    p: PlanView,
    name: Seq<char>,
    id: Seq<char>,
    clean: spec_fn(Seq<char>) -> Seq<char>,
) -> OutputView {
    OutputView {
        lines: seq![
            "Restored '"@ + clean(p.path) + "' in '"@ + clean(name) + "' to its version from "@
                + versions::shown_time(p.tag) + "."@,
            "  the copy it replaced was archived, so you can restore back to it the same way"@,
        ],
        doc: Json::Object(
            map![
                "ok"@ => Json::Bool(true),
                "action"@ => Json::Text("restore"@),
                "restored"@ => Json::Bool(true),
                "name"@ => Json::Text(name),
                "folderId"@ => Json::Text(id),
                "file"@ => Json::Text(p.path),
                "time"@ => Json::Text(p.tag),
            ],
        ),
    }
}

/// Why Syncthing did not restore a file: an error text against it that is not empty.
pub open spec fn refusal(outcome: Json, path: Seq<char>) -> Option<Seq<char>> {
    match outcome.member_text(path) {
        Some(why) => if why.len() > 0 {
            Some(why)
        } else {
            None
        },
        None => None,
    }
}

/// What happens while a version is brought back.
pub enum RestoreEvent {
    /// The plan stands; `--yes` was given or not, and a prompt is possible or not.
    Begin { yes: bool, json_mode: bool },
    /// The answer to the question.
    Answer { line: String },
    /// Syncthing's per-file result.
    Outcome { result: Value },
}

/// What is to be done next.
pub enum RestoreStep {
    /// Ask the question, and hand back the answer.
    Ask { question: String },
    /// Send the picks to Syncthing, and hand back its result.
    Send { picks: Value },
    /// Show the output: there is nothing more to do.
    Finish { output: Output },
}

/// What an event tells.
pub enum EventView {
    Begin { yes: bool, json_mode: bool },
    Answer { line: Seq<char> },
    Outcome { result: Json },
}

impl View for RestoreEvent {
    type V = EventView;

    open spec fn view(&self) -> EventView {
        match self {
            RestoreEvent::Begin { yes, json_mode } => EventView::Begin {
                yes: *yes,
                json_mode: *json_mode,
            },
            RestoreEvent::Answer { line } => EventView::Answer { line: line@ },
            RestoreEvent::Outcome { result } => EventView::Outcome { result: json::json(*result) },
        }
    }
}

/// What a step asks for.
pub enum StepView {
    Ask { question: Seq<char> },
    Send { picks: Json },
    Finish { output: OutputView },
}

impl View for RestoreStep {
    type V = StepView;

    open spec fn view(&self) -> StepView {
        match self {
            RestoreStep::Ask { question } => StepView::Ask { question: question@ },
            RestoreStep::Send { picks } => StepView::Send { picks: json::json(*picks) },
            RestoreStep::Finish { output } => StepView::Finish { output: output@ },
        }
    }
}

/// The step that follows an event: with `--yes` or a yes the picks are sent, a file
/// against which Syncthing has no error is restored.
pub open spec fn next_step(
    p: PlanView,
    name: Seq<char>,
    id: Seq<char>,
    event: EventView,
    clean: spec_fn(Seq<char>) -> Seq<char>,
) -> Result<StepView, Problem> {
    match event {
        EventView::Begin { yes, json_mode } => if yes {
            Ok(StepView::Send { picks: picks(p) })
        } else if json_mode {
            Err(Problem::NeedsYes { path: p.path })
        } else {
            Ok(StepView::Ask { question: question(p, clean) })
        },
        EventView::Answer { line } => if says_yes(line) {
            Ok(StepView::Send { picks: picks(p) })
        } else {
            Ok(StepView::Finish { output: aborted() })
        },
        EventView::Outcome { result } => match refusal(result, p.path) {
            Some(why) => Err(Problem::Refused { path: p.path, why }),
            None => Ok(StepView::Finish { output: restored(p, name, id, clean) }),
        },
    }
}

fn aborted_output() -> (r: Output)
    ensures
        r@ == aborted(),
{
    let mut lines: Vec<String> = Vec::new();
    output::say(&mut lines, "Aborted — nothing changed.".to_owned());
    let doc = json::with_bool(json::empty_object(), "ok", true);
    let doc = json::with_text(doc, "action", "restore");
    let doc = json::with_bool(doc, "restored", false);
    let out = Output { lines, doc };
    assert(out@.lines =~= aborted().lines);
    out
}

fn restored_output<F: Fn(&str) -> String>(
    p: &RestorePlan,
    name: &str,
    id: &str,
    sanitize: &F,
) -> (r: Output)
    requires
        output::sanitizer(*sanitize),
    ensures
        r@ == restored(p@, name@, id@, output::cleaner(*sanitize)),
{
    let mut line = "Restored '".to_owned();
    line.append(output::cleaned(sanitize, p.path.as_str()).as_str());
    line.append("' in '");
    line.append(output::cleaned(sanitize, name).as_str());
    line.append("' to its version from ");
    line.append(versions::display_time(p.tag.as_str()).as_str());
    line.append(".");
    let mut lines: Vec<String> = Vec::new();
    output::say(&mut lines, line);
    output::say(
        &mut lines,
        "  the copy it replaced was archived, so you can restore back to it the same way".to_owned(),
    );
    let doc = json::with_bool(json::empty_object(), "ok", true);
    let doc = json::with_text(doc, "action", "restore");
    let doc = json::with_bool(doc, "restored", true);
    let doc = json::with_text(doc, "name", name);
    let doc = json::with_text(doc, "folderId", id);
    let doc = json::with_text(doc, "file", p.path.as_str());
    let doc = json::with_text(doc, "time", p.tag.as_str());
    let out = Output { lines, doc };
    assert(out@.lines =~= restored(p@, name@, id@, output::cleaner(*sanitize)).lines);
    out
}

/// `byteferret restore <folder> <file> [--at <time>]` — bring a version back: what
/// is to be done after an event. Syncthing archives the current copy before it
/// overwrites, so a restore can itself be rolled back afterwards.
pub fn restore<F: Fn(&str) -> String>(
    p: &RestorePlan,
    name: &str,
    id: &str,
    event: &RestoreEvent,
    sanitize: &F,
) -> (r: Result<RestoreStep, HistoryError>)
    requires
        output::sanitizer(*sanitize),
    ensures
        match r {
            Ok(s) => next_step(p@, name@, id@, event@, output::cleaner(*sanitize)) == Ok::<
                StepView,
                Problem,
            >(s@),
            Err(e) => next_step(p@, name@, id@, event@, output::cleaner(*sanitize)) == Err::<
                StepView,
                Problem,
            >(e@),
        },
{
    match event {
        RestoreEvent::Begin { yes, json_mode } => {
            if *yes {
                return Ok(RestoreStep::Send { picks: restore_picks(p) });
            }
            match confirm_restore(p, *json_mode, sanitize) {
                Ok(question) => Ok(RestoreStep::Ask { question }),
                Err(e) => Err(e),
            }
        },
        RestoreEvent::Answer { line } => {
            if is_yes(line.as_str()) {
                Ok(RestoreStep::Send { picks: restore_picks(p) })
            } else {
                Ok(RestoreStep::Finish { output: aborted_output() })
            }
        },
        RestoreEvent::Outcome { result } => {
            match json::member_text(result, p.path.as_str()) {
                Some(why) => {
                    if !why.is_empty() {
                        return Err(
                            HistoryError::Refused { path: p.path.clone(), why: why.to_owned() },
                        );
                    }
                },
                None => {},
            }
            Ok(RestoreStep::Finish { output: restored_output(p, name, id, sanitize) })
        },
    }
}

/// Nothing is sent to Syncthing without `--yes` or a yes to the question, and what
/// is sent asks for the planned version of the planned file and for nothing else.
pub proof fn nothing_is_sent_unconfirmed(
    p: PlanView,
    name: Seq<char>,
    id: Seq<char>,
    event: EventView,
    clean: spec_fn(Seq<char>) -> Seq<char>,
)
    ensures
        next_step(p, name, id, event, clean) matches Ok(StepView::Send { picks: sent }) ==> {
            &&& event matches EventView::Begin { yes, .. } ==> yes
            &&& event matches EventView::Answer { line } ==> says_yes(line)
            &&& !(event is Outcome)
            &&& sent.member_text(p.path) == Some(p.tag)
            &&& forall|other: Seq<char>| #[trigger]
                sent.member(other) is Some ==> other == p.path
        },
{
}

/// Without `--yes` there is no way past `--json` mode: nothing is asked or sent.
pub proof fn json_mode_requires_yes(
    p: PlanView,
    name: Seq<char>,
    id: Seq<char>,
    clean: spec_fn(Seq<char>) -> Seq<char>,
)
    ensures
        next_step(p, name, id, EventView::Begin { yes: false, json_mode: true }, clean) == Err::<
            StepView,
            Problem,
        >(Problem::NeedsYes { path: p.path }),
{
}

/// Without a time the version that is brought back is the newest: no version names a later
/// instant, where the tags of the file's versions name instants. Otherwise none has a
/// greater text for its tag.
pub proof fn the_newest_is_the_default(
    path: Seq<char>,
    vs: Seq<VersionView>,
    given: Seq<VersionView>,
)
    requires
        versions::newest_first(vs, given),
        vs.len() > 0,
    ensures
        history::pick(path, vs, None) matches Ok(v) && {
            &&& vs.contains(v)
            &&& versions::dated(given) ==> forall|i: int|
                0 <= i < vs.len() ==> {
                    &&& instants::instant(v.tag) is Some
                    &&& instants::instant(#[trigger] vs[i].tag) is Some
                    &&& !instants::earlier(
                        instants::instant(v.tag)->0,
                        instants::instant(vs[i].tag)->0,
                    )
                }
            &&& !versions::dated(given) ==> forall|i: int|
                0 <= i < vs.len() ==> !text::text_before(v.tag, #[trigger] vs[i].tag)
        },
{
    versions::ordering_keeps_the_tags(vs, given);
    assert(vs.contains(vs[0]));
    assert forall|i: int| 0 <= i < vs.len() implies !versions::behind(
        versions::dated(given),
        vs[0].tag,
        #[trigger] vs[i].tag,
    ) by {
        instants::age_order_is_total(vs[0].tag, vs[0].tag);
        text::text_order_is_total(vs[0].tag, vs[0].tag);
    }
    if versions::dated(given) {
        assert(instants::instant(vs[0].tag) is Some);
        assert forall|i: int| 0 <= i < vs.len() implies {
            &&& instants::instant(#[trigger] vs[i].tag) is Some
            &&& !instants::earlier(
                instants::instant(vs[0].tag)->0,
                instants::instant(vs[i].tag)->0,
            )
        } by {
            assert(!instants::older(vs[0].tag, vs[i].tag));
        }
    } else {
        assert forall|i: int| 0 <= i < vs.len() implies !text::text_before(
            vs[0].tag,
            #[trigger] vs[i].tag,
        ) by {
            assert(!versions::behind(false, vs[0].tag, vs[i].tag));
        }
    }
}

/// A file that is listed can be restored by its path without a time, to its newest
/// version.
pub proof fn a_listed_file_can_be_restored(files: Seq<FileView>, i: int)
    requires
        versions::ordered(files),
        0 <= i < files.len(),
        files[i].versions.len() > 0,
        history::wanted_path(files[i].path) == files[i].path,
    ensures
        plan(files, files[i].path, None) == Ok::<PlanView, Problem>(
            PlanView { path: files[i].path, tag: files[i].versions[0].tag },
        ),
{
    a_file_is_found_by_its_path(files, i);
}

/// A file is found by its path, whatever its base name, where the path is written
/// as Syncthing writes it.
pub proof fn a_file_is_found_by_its_path(files: Seq<FileView>, i: int)
    requires
        versions::ordered(files),
        0 <= i < files.len(),
        history::wanted_path(files[i].path) == files[i].path,
    ensures
        history::resolve(files, files[i].path) == Ok::<FileView, Problem>(files[i]),
{
    versions::lemma_by_path(files, i);
}

/// A file is found by its base name, where no other file has that base name and none
/// has it for its path.
pub proof fn a_file_is_found_by_its_base_name(
    files: Seq<FileView>,
    wanted: Seq<char>,
    i: int,
)
    requires
        0 <= i < files.len(),
        history::base_name(files[i].path) == history::wanted_path(wanted),
        !versions::has_path(files, history::wanted_path(wanted)),
        forall|j: int|
            0 <= j < files.len() && j != i ==> history::base_name((#[trigger] files[j]).path)
                != history::wanted_path(wanted),
    ensures
        history::resolve(files, wanted) == Ok::<FileView, Problem>(files[i]),
{
    let name = history::wanted_path(wanted);
    let pred = |f: FileView| history::base_name(f.path) == name;
    assert forall|j: int| 0 <= j < files.len() && j != i implies !pred(#[trigger] files[j]) by {}
    laws::files::lemma_filter_finds_one(files, pred, i);
}

/// A version is among those that its tag finds.
pub proof fn a_tag_finds_its_version(vs: Seq<VersionView>, i: int)
    requires
        0 <= i < vs.len(),
    ensures
        history::from_time(vs, vs[i].tag).contains(vs[i]),
{
    broadcast use vstd::seq_lib::group_filter_ensures;

    let pred = |x: VersionView| history::is_from(x, vs[i].tag);
    assert(pred(vs[i]));
    assert(vs.filter(pred).contains(vs[i]));
}

/// A version is among those that its listed time finds, where that time has no
/// white space around it.
pub proof fn a_listed_time_finds_its_version(vs: Seq<VersionView>, i: int)
    requires
        0 <= i < vs.len(),
        text::trimmed(versions::shown_time(vs[i].tag)) == versions::shown_time(vs[i].tag),
    ensures
        history::from_time(vs, versions::shown_time(vs[i].tag)).contains(vs[i]),
{
    broadcast use vstd::seq_lib::group_filter_ensures;

    let v = vs[i];
    let time = versions::shown_time(v.tag);
    let pred = |x: VersionView| history::is_from(x, time);
    if versions::is_stamp(v.tag) {
        assert(text::replaced(time, 'T', ' ') =~= time);
        assert(time.is_prefix_of(time)) by {
            assert(time.subrange(0, time.len() as int) =~= time);
        }
    }
    assert(pred(v));
    assert(vs.filter(pred).contains(v));
}

proof fn lemma_bounded_by_no_white(s: Seq<char>)
    requires
        s.len() > 0,
        !text::white(s[0]),
        !text::white(s.last()),
    ensures
        text::trimmed(s) == s,
{
}

/// The first and the last character of a tag that names an instant are no white space, nor
/// are those of the time that is shown for it.
proof fn lemma_no_white_around(tag: Seq<char>)
    requires
        instants::instant(tag) is Some,
    ensures
        tag.len() >= 20,
        text::trimmed(tag) == tag,
        text::trimmed(versions::shown_time(tag)) == versions::shown_time(tag),
{
    let at = instants::offset_start(tag);
    if instants::has_fraction(tag) {
        instants::lemma_digits_end_bounds(tag, 20);
    }
    let offset = tag.skip(at);
    assert(offset.len() == tag.len() - at);
    assert(offset.last() == tag.last());
    assert(offset.len() == 6 ==> offset[5] == offset.last());
    assert(instants::has_two_digits(tag, 0) && instants::has_two_digits(tag, 17));
    lemma_bounded_by_no_white(tag);
    let shown = versions::shown_time(tag);
    if versions::is_stamp(tag) {
        assert(shown[0] == tag[0]);
        assert(shown.last() == tag[18]);
        lemma_bounded_by_no_white(shown);
    }
}

/// Where tags name instants, a tag is from no other version's time.
proof fn lemma_tag_is_exact(v: VersionView, tag: Seq<char>)
    requires
        instants::instant(v.tag) is Some,
        instants::instant(tag) is Some,
    ensures
        history::is_from(v, tag) <==> v.tag == tag,
{
    lemma_no_white_around(tag);
    let wanted = text::replaced(tag, 'T', ' ');
    let shown = versions::shown_time(v.tag);
    if wanted.is_prefix_of(shown) {
        assert(wanted.len() == tag.len());
        assert(!versions::is_stamp(v.tag));
        assert(wanted[10] == shown.subrange(0, wanted.len() as int)[10]);
        assert(v.tag[10] == 't');
        assert(tag[10] == 't');
        lemma_no_other_t(tag);
        assert(wanted =~= tag);
        instants::no_tag_begins_another(tag, v.tag);
    }
}

/// Where tags name instants, the time shown for one is that of the versions that show it.
proof fn lemma_time_is_exact(v: VersionView, tag: Seq<char>)
    requires
        instants::instant(v.tag) is Some,
        instants::instant(tag) is Some,
    ensures
        history::is_from(v, versions::shown_time(tag)) <==> versions::shown_time(v.tag)
            == versions::shown_time(tag),
{
    lemma_no_white_around(tag);
    lemma_no_white_around(v.tag);
    let time = versions::shown_time(tag);
    let shown = versions::shown_time(v.tag);
    if versions::is_stamp(tag) {
        let wanted = text::replaced(time, 'T', ' ');
        assert(wanted =~= time);
        assert(time.len() == 19);
        assert(time[10] == ' ');
        if time.is_prefix_of(shown) {
            assert(shown.subrange(0, 19)[10] == shown[10]);
            assert(versions::is_stamp(v.tag));
            assert(shown.subrange(0, 19) =~= shown);
        }
        if shown == time {
            assert(shown.subrange(0, 19) =~= shown);
        }
    } else {
        lemma_tag_is_exact(v, tag);
        if shown == time && v.tag != tag {
            assert(versions::is_stamp(v.tag));
            assert(shown.len() == 19);
        }
    }
}

proof fn lemma_no_other_t(tag: Seq<char>)
    requires
        instants::instant(tag) is Some,
    ensures
        forall|i: int| 0 <= i < tag.len() && i != 10 ==> #[trigger] tag[i] != 'T',
{
    let at = instants::offset_start(tag);
    if instants::has_fraction(tag) {
        instants::lemma_digits_end_bounds(tag, 20);
        instants::lemma_digits_are_digits(tag, 20);
    }
    let offset = tag.skip(at);
    assert forall|i: int| 0 <= i < tag.len() && i != 10 implies #[trigger] tag[i] != 'T' by {
        if i < 19 {
            assert(instants::has_date_and_time(tag));
            assert(instants::has_two_digits(tag, 0));
            assert(instants::has_two_digits(tag, 2));
        } else if i >= at {
            assert(offset[i - at] == tag[i]);
        }
    }
}

/// Where the tags of a file's versions name instants and differ, a tag picks its version.
pub proof fn a_tag_picks_its_version(path: Seq<char>, vs: Seq<VersionView>, i: int)
    requires
        versions::dated(vs),
        forall|j: int, k: int|
            0 <= j < k < vs.len() ==> #[trigger] vs[j].tag != #[trigger] vs[k].tag,
        0 <= i < vs.len(),
    ensures
        history::pick(path, vs, Some(vs[i].tag)) == Ok::<VersionView, Problem>(vs[i]),
{
    let tag = vs[i].tag;
    let pred = |v: VersionView| history::is_from(v, tag);
    assert(instants::instant(vs[i].tag) is Some);
    lemma_tag_is_exact(vs[i], tag);
    assert forall|j: int| 0 <= j < vs.len() && j != i implies !pred(#[trigger] vs[j]) by {
        assert(instants::instant(vs[j].tag) is Some);
        lemma_tag_is_exact(vs[j], tag);
        assert(vs[j].tag != vs[i].tag);
    }
    laws::files::lemma_filter_finds_one(vs, pred, i);
    assert(history::from_time(vs, tag) == vs.filter(pred));
}

/// Where the tags of a file's versions name instants, a listed time picks its version if no
/// other version shows it, and is refused as ambiguous otherwise.
pub proof fn a_listed_time_picks_its_version(path: Seq<char>, vs: Seq<VersionView>, i: int)
    requires
        versions::dated(vs),
        0 <= i < vs.len(),
    ensures
        ({
            let time = versions::shown_time(vs[i].tag);
            let picked = history::pick(path, vs, Some(time));
            if exists|j: int|
                0 <= j < vs.len() && j != i && versions::shown_time(#[trigger] vs[j].tag) == time {
                picked is Err && picked->Err_0 is SeveralVersions
            } else {
                picked == Ok::<VersionView, Problem>(vs[i])
            }
        }),
{
    let time = versions::shown_time(vs[i].tag);
    let pred = |v: VersionView| history::is_from(v, time);
    assert forall|j: int| 0 <= j < vs.len() implies (#[trigger] pred(vs[j]) <==> versions::shown_time(
        vs[j].tag,
    ) == time) by {
        assert(instants::instant(vs[i].tag) is Some);
        assert(instants::instant(vs[j].tag) is Some);
        lemma_time_is_exact(vs[j], vs[i].tag);
    }
    assert(pred(vs[i]));
    assert(history::from_time(vs, time) == vs.filter(pred));
    if exists|j: int|
        0 <= j < vs.len() && j != i && versions::shown_time(#[trigger] vs[j].tag) == time {
        let j = choose|j: int|
            0 <= j < vs.len() && j != i && versions::shown_time(#[trigger] vs[j].tag) == time;
        assert(pred(vs[j]));
        if i < j {
            laws::files::lemma_filter_finds_two(vs, pred, i, j);
        } else {
            laws::files::lemma_filter_finds_two(vs, pred, j, i);
        }
    } else {
        assert forall|j: int| 0 <= j < vs.len() && j != i implies !pred(#[trigger] vs[j]) by {
            assert(pred(vs[j]) <==> versions::shown_time(vs[j].tag) == time);
        }
        laws::files::lemma_filter_finds_one(vs, pred, i);
    }
}

} // verus!
