//! `doctor --fix`: the safe, obvious repairs, one after another.

use vstd::prelude::*;
use vstd::string::*;

use crate::commands::doctor;
use crate::json;
use crate::output;
use crate::text;

verus! {

/// What is to be done next.
#[derive(Clone, Copy, PartialEq, Eq, Debug, Structural)]
pub enum FixStep {
    /// Look up the mode of the secrets file.
    ReadMode,
    /// Set the mode of the secrets file to 0600.
    Tighten,
    /// Look whether the agent is running.
    Probe,
    /// Start the agent.
    Start,
    /// Turn on local file history for folders created before it was enabled.
    EnableHistory,
    /// Nothing more: what the checks look at can be read now.
    Finish,
}

/// What came of a step.
#[derive(Debug)]
pub enum FixEvent {
    /// The mode of the secrets file, where there is one.
    Mode { mode: Option<u32> },
    /// Whether the mode was set.
    Tightened { done: bool },
    /// Whether the agent is running; one without config or key is not.
    Running { running: bool },
    /// Whether the agent was started.
    Started { done: bool },
    /// The folders that history was turned on for, none where that failed.
    Upgraded { names: Vec<String> },
}

/// How far the repairs are.
#[derive(Debug)]
pub struct Fixes {
    pub step: FixStep,
    /// A human list of what was done.
    pub done: Vec<String>,
}

/// How far the repairs are.
pub struct FixesView {
    pub step: FixStep,
    pub done: Seq<Seq<char>>,
}

impl View for Fixes {
    type V = FixesView;

    open spec fn view(&self) -> FixesView {
        FixesView { step: self.step, done: text::texts(self.done@) }
    }
}

/// The mode has group/other bits.
pub open spec fn is_loose(mode: Option<u32>) -> bool {
    match mode {
        Some(mode) => !doctor::owner_only((mode % 0o1000) as u32),
        None => false,
    }
}

/// The repair of the secrets file.
pub open spec fn tightened_line(secrets_file: Seq<char>) -> Seq<char> {
    "tightened "@ + secrets_file + " to 0600"@
}

/// The repair of a folder.
pub open spec fn upgraded_line(
    name: Seq<char>,
    clean: spec_fn(Seq<char>) -> Seq<char>,
) -> Seq<char> {
    "enabled file history on '"@ + clean(name) + "'"@
}

/// The repairs of folders.
pub open spec fn upgraded_lines(
    names: Seq<Seq<char>>,
    clean: spec_fn(Seq<char>) -> Seq<char>,
) -> Seq<Seq<char>> {
    names.map_values(|name: Seq<char>| upgraded_line(name, clean))
}

/// How far the repairs are after an event: a repair is noted where it was done, and
/// an event that does not belong to the step changes nothing.
pub open spec fn fix_next(
    f: FixesView,
    secrets_file: Seq<char>,
    event: FixEvent,
    clean: spec_fn(Seq<char>) -> Seq<char>,
) -> FixesView {
    match (f.step, event) {
        (FixStep::ReadMode, FixEvent::Mode { mode }) => FixesView {
            step: if is_loose(mode) {
                FixStep::Tighten
            } else {
                FixStep::Probe
            },
            done: f.done,
        },
        (FixStep::Tighten, FixEvent::Tightened { done }) => FixesView {
            step: FixStep::Probe,
            done: if done {
                f.done.push(tightened_line(secrets_file))
            } else {
                f.done
            },
        },
        (FixStep::Probe, FixEvent::Running { running }) => FixesView {
            step: if running {
                FixStep::EnableHistory
            } else {
                FixStep::Start
            },
            done: f.done,
        },
        (FixStep::Start, FixEvent::Started { done }) => FixesView {
            step: FixStep::EnableHistory,
            done: if done {
                f.done.push("started the agent"@)
            } else {
                f.done
            },
        },
        (FixStep::EnableHistory, FixEvent::Upgraded { names }) => FixesView {
            step: FixStep::Finish,
            done: f.done + upgraded_lines(text::texts(names@), clean),
        },
        _ => f,
    }
}

/// Where the repairs begin: without `--fix` there are none to make.
pub open spec fn started(fix: bool) -> FixesView {
    FixesView {
        step: if fix {
            FixStep::ReadMode
        } else {
            FixStep::Finish
        },
        done: seq![],
    }
}

impl Fixes {
    /// Before the first repair with `--fix`, at the end without it.
    pub fn start(fix: bool) -> (r: Fixes)
        ensures
            r@ == started(fix),
    {
        let step = if fix {
            FixStep::ReadMode
        } else {
            FixStep::Finish
        };
        let r = Fixes { step, done: Vec::new() };
        assert(r@.done =~= Seq::<Seq<char>>::empty());
        r
    }
}

fn mode_is_loose(mode: Option<u32>) -> (r: bool)
    ensures
        r == is_loose(mode),
{
    match mode {
        Some(mode) => !doctor::perms_ok(doctor::permissions(mode)),
        None => false,
    }
}

/// Apply the safe, obvious repairs and keep a human list of what was done: the state
/// after an event.
pub fn apply_fixes<F: Fn(&str) -> String>(
    fixes: Fixes,
    secrets_file: &str,
    event: &FixEvent,
    sanitize: &F,
) -> (r: Fixes)
    requires
        output::sanitizer(*sanitize),
    ensures
        r@ == fix_next(fixes@, secrets_file@, *event, output::cleaner(*sanitize)),
{
    let ghost clean = output::cleaner(*sanitize);
    let ghost before = text::texts(fixes.done@);
    let step = fixes.step;
    let mut done = fixes.done;
    match (step, event) {
        (FixStep::ReadMode, FixEvent::Mode { mode }) => Fixes {
            step: if mode_is_loose(*mode) {
                FixStep::Tighten
            } else {
                FixStep::Probe
            },
            done,
        },
        (FixStep::Tighten, FixEvent::Tightened { done: ok }) => {
            if *ok {
                let mut line = "tightened ".to_owned();
                line.append(secrets_file);
                line.append(" to 0600");
                output::say(&mut done, line);
            }
            Fixes { step: FixStep::Probe, done }
        },
        (FixStep::Probe, FixEvent::Running { running }) => Fixes {
            step: if *running {
                FixStep::EnableHistory
            } else {
                FixStep::Start
            },
            done,
        },
        (FixStep::Start, FixEvent::Started { done: ok }) => {
            if *ok {
                output::say(&mut done, "started the agent".to_owned());
            }
            Fixes { step: FixStep::EnableHistory, done }
        },
        (FixStep::EnableHistory, FixEvent::Upgraded { names }) => {
            let ghost lines = upgraded_lines(text::texts(names@), clean);
            let mut i: usize = 0;
            assert(before + lines.take(0) =~= before);
            while i < names.len()
                invariant
                    i <= names@.len(),
                    output::sanitizer(*sanitize),
                    clean == output::cleaner(*sanitize),
                    lines == upgraded_lines(text::texts(names@), clean),
                    text::texts(done@) == before + lines.take(i as int),
                decreases names@.len() - i,
            {
                let mut line = "enabled file history on '".to_owned();
                line.append(output::cleaned(sanitize, names[i].as_str()).as_str());
                line.append("'");
                output::say(&mut done, line);
                assert(line@ == lines[i as int]);
                i += 1;
                assert(text::texts(done@) =~= before + lines.take(i as int));
            }
            assert(lines.take(i as int) =~= lines);
            Fixes { step: FixStep::Finish, done }
        },
        _ => Fixes { step, done },
    }
}

/// The repairs after the whole run, with what came of each step.
pub open spec fn whole_run(
    fix: bool,
    secrets_file: Seq<char>,
    mode: Option<u32>,
    tightened: bool,
    running: bool,
    started_agent: bool,
    names: Vec<String>,
    clean: spec_fn(Seq<char>) -> Seq<char>,
) -> FixesView {
    let a = fix_next(started(fix), secrets_file, FixEvent::Mode { mode }, clean);
    let b = fix_next(a, secrets_file, FixEvent::Tightened { done: tightened }, clean);
    let c = fix_next(b, secrets_file, FixEvent::Running { running }, clean);
    let d = fix_next(c, secrets_file, FixEvent::Started { done: started_agent }, clean);
    fix_next(d, secrets_file, FixEvent::Upgraded { names }, clean)
}

/// The repairs that were needed and done: the secrets file tightened where its mode was
/// loose, the agent started where it was not running, and each folder that got its
/// history.
pub open spec fn needed_and_done(
    secrets_file: Seq<char>,
    mode: Option<u32>,
    tightened: bool,
    running: bool,
    started_agent: bool,
    names: Vec<String>,
    clean: spec_fn(Seq<char>) -> Seq<char>,
) -> Seq<Seq<char>> {
    (if is_loose(mode) && tightened {
        seq![tightened_line(secrets_file)]
    } else {
        seq![]
    }) + (if !running && started_agent {
        seq!["started the agent"@]
    } else {
        seq![]
    }) + upgraded_lines(text::texts(names@), clean)
}

/// A whole run comes to its end. With `--fix` its list has exactly the repairs that were
/// needed and done, without it none, and that is the list in the document of `doctor`.
pub proof fn a_run_lists_what_was_done(
    fix: bool,
    secrets_file: Seq<char>,
    mode: Option<u32>,
    tightened: bool,
    running: bool,
    started_agent: bool,
    names: Vec<String>,
    clean: spec_fn(Seq<char>) -> Seq<char>,
    checks: Seq<doctor::CheckView>,
)
    ensures
        ({
            let end = whole_run(
                fix,
                secrets_file,
                mode,
                tightened,
                running,
                started_agent,
                names,
                clean,
            );
            let listed = if fix {
                needed_and_done(
                    secrets_file,
                    mode,
                    tightened,
                    running,
                    started_agent,
                    names,
                    clean,
                )
            } else {
                seq![]
            };
            &&& end.step == FixStep::Finish
            &&& end.done == listed
            &&& doctor::doctor_output(fix, end.done, checks).doc.member("fixesApplied"@) == Some(
                json::text_array(listed),
            )
        }),
{
    let end = whole_run(
        fix,
        secrets_file,
        mode,
        tightened,
        running,
        started_agent,
        names,
        clean,
    );
    if fix {
        assert(end.done =~= needed_and_done(
            secrets_file,
            mode,
            tightened,
            running,
            started_agent,
            names,
            clean,
        ));
    }
    doctor::the_document_lists_the_fixes(fix, end.done, checks);
}

/// Without `--fix` there is no step to take, whatever is handed in: no repair is made and
/// none is listed.
pub proof fn nothing_is_repaired_without_fix(
    secrets_file: Seq<char>,
    event: FixEvent,
    clean: spec_fn(Seq<char>) -> Seq<char>,
)
    ensures
        started(false).step == FixStep::Finish,
        started(false).done.len() == 0,
        fix_next(started(false), secrets_file, event, clean) == started(false),
{
}

/// `--fix` tightens the secrets file exactly where `doctor` finds its mode at fault, and
/// the mode that it sets passes.
pub proof fn the_fix_is_for_what_fails(mode: Option<u32>)
    ensures
        is_loose(mode) <==> doctor::secrets_check(mode).level == doctor::Level::Fail,
        doctor::secrets_check(Some(0o600u32)).level == doctor::Level::Okay,
{
}

} // verus!
