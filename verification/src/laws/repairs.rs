//! Laws on the repairs that `doctor --fix` makes.

use vstd::prelude::*;

use crate::commands::fixes;
use crate::commands::fixes::{FixEvent, FixStep, FixesView};

verus! {

/// The mode has a group or other bit.
pub open spec fn lets_others_in(mode: Option<u32>) -> bool {
    mode matches Some(m) && m & 0o077 != 0
}

/// The repairs take each step that is needed: the secrets file is tightened exactly where
/// others are let in, and the agent is started exactly where it does not run. What became of
/// a step decides what is noted, never what comes next.
pub proof fn each_step_leads_to_the_next(
    f: FixesView,
    secrets_file: Seq<char>,
    event: FixEvent,
    clean: spec_fn(Seq<char>) -> Seq<char>,
)
    ensures
        ({
            let next = fixes::fix_next(f, secrets_file, event, clean);
            &&& f.step is ReadMode && event is Mode ==> next.step == (if lets_others_in(
                event->mode,
            ) {
                FixStep::Tighten
            } else {
                FixStep::Probe
            })
            &&& f.step is Tighten && event is Tightened ==> next.step == FixStep::Probe
            &&& f.step is Probe && event is Running ==> next.step == (if event->running {
                FixStep::EnableHistory
            } else {
                FixStep::Start
            })
            &&& f.step is Start && event is Started ==> next.step == FixStep::EnableHistory
            &&& f.step is EnableHistory && event is Upgraded ==> next.step == FixStep::Finish
            &&& f.step is Finish ==> next == f
        }),
{
    match event {
        FixEvent::Mode { mode } => match mode {
            Some(m) => {
                assert((m % 0o1000) % 0o100 == 0 <==> m & 0o077 == 0) by (bit_vector);
            },
            None => {},
        },
        _ => {},
    }
}

/// The event is what comes of the step.
pub open spec fn comes_of(step: FixStep, event: FixEvent) -> bool {
    match step {
        FixStep::ReadMode => event is Mode,
        FixStep::Tighten => event is Tightened,
        FixStep::Probe => event is Running,
        FixStep::Start => event is Started,
        FixStep::EnableHistory => event is Upgraded,
        FixStep::Finish => false,
    }
}

/// An event that does not come of the step changes nothing. One that does notes one repair
/// where the secrets file was tightened or the agent was started, one for each folder that got
/// its history, and none where something was only looked up or failed.
pub proof fn each_repair_is_noted_once(
    f: FixesView,
    secrets_file: Seq<char>,
    event: FixEvent,
    clean: spec_fn(Seq<char>) -> Seq<char>,
)
    ensures
        ({
            let next = fixes::fix_next(f, secrets_file, event, clean);
            let noted = next.done.len() - f.done.len();
            &&& !comes_of(f.step, event) ==> next == f
            &&& comes_of(f.step, event) ==> {
                &&& event is Mode || event is Running ==> next.done == f.done
                &&& event matches FixEvent::Tightened { done } ==> next.done == (if done {
                    f.done.push("tightened "@ + secrets_file + " to 0600"@)
                } else {
                    f.done
                })
                &&& event matches FixEvent::Started { done } ==> next.done == (if done {
                    f.done.push("started the agent"@)
                } else {
                    f.done
                })
                &&& event matches FixEvent::Upgraded { names } ==> noted == names@.len() && (
                forall|i: int|
                    0 <= i < names@.len() ==> next.done[f.done.len() + i]
                        == "enabled file history on '"@ + clean((#[trigger] names@[i])@) + "'"@)
            }
        }),
{
}

/// What was noted stays noted.
pub proof fn nothing_that_was_noted_is_lost(
    f: FixesView,
    secrets_file: Seq<char>,
    event: FixEvent,
    clean: spec_fn(Seq<char>) -> Seq<char>,
)
    ensures
        f.done.is_prefix_of(fixes::fix_next(f, secrets_file, event, clean).done),
{
    let next = fixes::fix_next(f, secrets_file, event, clean);
    assert(next.done.subrange(0, f.done.len() as int) =~= f.done);
}

/// A whole run with `--fix` notes that the secrets file was tightened where others were let in
/// and that was done, that the agent was started where it did not run and that was done, and
/// every folder that got its history, in that order, and nothing else. Without `--fix` it
/// notes nothing.
pub proof fn a_run_notes_every_repair(
    secrets_file: Seq<char>,
    mode: Option<u32>,
    tightened: bool,
    running: bool,
    started: bool,
    names: Vec<String>,
    clean: spec_fn(Seq<char>) -> Seq<char>,
)
    ensures
        ({
            let end = fixes::whole_run(
                true,
                secrets_file,
                mode,
                tightened,
                running,
                started,
                names,
                clean,
            );
            let one = if lets_others_in(mode) && tightened {
                1int
            } else {
                0int
            };
            let two = one + (if !running && started {
                1int
            } else {
                0int
            });
            &&& end.step == FixStep::Finish
            &&& end.done.len() == two + names@.len()
            &&& one == 1 ==> end.done[0] == "tightened "@ + secrets_file + " to 0600"@
            &&& two == one + 1 ==> end.done[one] == "started the agent"@
            &&& forall|i: int|
                0 <= i < names@.len() ==> end.done[two + i] == "enabled file history on '"@
                    + clean((#[trigger] names@[i])@) + "'"@
        }),
        ({
            let end = fixes::whole_run(
                false,
                secrets_file,
                mode,
                tightened,
                running,
                started,
                names,
                clean,
            );
            end.step == FixStep::Finish && end.done.len() == 0
        }),
{
    match mode {
        Some(m) => {
            assert((m % 0o1000) % 0o100 == 0 <==> m & 0o077 == 0) by (bit_vector);
        },
        None => {},
    }
}

} // verus!
