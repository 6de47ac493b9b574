use byteferret::agent::{PeerSync, ShareState};
use byteferret::commands::doctor::{
    build_checks, conflict_count, conflict_paths, doctor, perms_ok, worst, AgentFacts, Check, Facts, FolderFacts, Level, RestFacts,
};
use byteferret::commands::fixes::{apply_fixes, FixEvent, FixStep, Fixes};
use serde_json::Value;

fn clean(s: &str) -> String {
    s.chars().filter(|c| !c.is_control()).collect()
}

fn doc(text: &str) -> Value {
    serde_json::from_str(text).unwrap()
}

fn peer(label: &str, connected: bool, state: ShareState) -> PeerSync {
    PeerSync {
        id: format!("{label}-ID"),
        name: label.to_string(),
        label: label.to_string(),
        connected,
        sharing: state == ShareState::Sharing,
        state,
    }
}

fn folder(config: &str, name: &str, on_disk: bool) -> FolderFacts {
    FolderFacts { config: doc(config), name: name.to_string(), on_disk }
}

fn facts(agent: AgentFacts) -> Facts {
    Facts {
        pinned_version: "1.29.5".to_string(),
        binary_present: true,
        config_file: Some("/home/u/.config/byteferret/config.toml".to_string()),
        secrets_mode: Some(0o100600),
        agent,
    }
}

fn reachable(folders: Vec<FolderFacts>, peers: Vec<PeerSync>, conflicts: usize) -> Facts {
    facts(AgentFacts::Running {
        gui_address: "127.0.0.1:8384".to_string(),
        rest: RestFacts::Reachable { version: "1.29.5".to_string(), folders, peers, conflicts },
    })
}

fn shown(c: &Check) -> (Level, &str, &str, Option<&str>) {
    (c.level, c.name.as_str(), c.detail.as_str(), c.hint.as_deref())
}

#[test]
fn perms_ok_only_for_owner_only_modes() {
    assert!(perms_ok(0o600));
    assert!(perms_ok(0o400));
    assert!(!perms_ok(0o640)); // group-readable
    assert!(!perms_ok(0o604)); // world-readable
    assert!(!perms_ok(0o666));
}

#[test]
fn worst_picks_the_most_severe() {
    assert_eq!(worst(&[Level::Okay, Level::Okay]), Level::Okay);
    assert_eq!(worst(&[Level::Okay, Level::Warn]), Level::Warn);
    assert_eq!(worst(&[Level::Warn, Level::Fail, Level::Okay]), Level::Fail);
    assert_eq!(worst(&[]), Level::Okay);
}

#[test]
fn perms_ok_is_a_mask_of_the_low_bits() {
    for mode in [0u32, 1, 0o10, 0o70, 0o77, 0o100, 0o700, 0o701, 0o100600, 0o100640, u32::MAX] {
        assert_eq!(perms_ok(mode), mode & 0o077 == 0);
    }
}

#[test]
fn levels_have_tags_and_glyphs() {
    assert_eq!(Level::Okay.tag(), "ok");
    assert_eq!(Level::Warn.tag(), "warn");
    assert_eq!(Level::Fail.tag(), "FAIL");
    assert_eq!(Level::Okay.glyph(), '✓');
    assert_eq!(Level::Warn.glyph(), '!');
    assert_eq!(Level::Fail.glyph(), '✗');
}

#[test]
fn a_check_takes_a_hint() {
    let c = Check::new(Level::Warn, "peers", "none".to_string());
    assert_eq!(shown(&c), (Level::Warn, "peers", "none", None));
    let c = c.with_hint("pair one");
    assert_eq!(shown(&c), (Level::Warn, "peers", "none", Some("pair one")));
}

#[test]
fn a_fresh_machine_fails_on_the_binary() {
    let f = Facts {
        pinned_version: "1.29.5".to_string(),
        binary_present: false,
        config_file: None,
        secrets_mode: None,
        agent: AgentFacts::Unknown,
    };
    let cs = build_checks(&f, &clean);
    assert_eq!(cs.len(), 4);
    assert_eq!(
        shown(&cs[0]),
        (
            Level::Fail,
            "syncthing binary",
            "not downloaded yet",
            Some("run `byteferret start` — it downloads the pinned Syncthing on first use")
        )
    );
    assert_eq!(
        shown(&cs[1]),
        (
            Level::Warn,
            "config",
            "no config.toml yet",
            Some("run `byteferret init <path>` to register a folder")
        )
    );
    assert_eq!(
        shown(&cs[2]),
        (Level::Warn, "secrets", "not created yet (agent never started)", None)
    );
    assert_eq!(shown(&cs[3]), (Level::Fail, "state", "could not load agent state", None));
}

#[test]
fn a_stopped_agent_ends_the_checks() {
    let mut f = facts(AgentFacts::Stopped);
    f.secrets_mode = Some(0o100644);
    let cs = build_checks(&f, &clean);
    assert_eq!(cs.len(), 4);
    assert_eq!(shown(&cs[0]), (Level::Okay, "syncthing binary", "present (pinned v1.29.5)", None));
    assert_eq!(
        shown(&cs[1]),
        (Level::Okay, "config", "/home/u/.config/byteferret/config.toml", None)
    );
    assert_eq!(
        shown(&cs[2]),
        (
            Level::Fail,
            "secrets perms",
            "0644 (should be 0600)",
            Some("run `byteferret doctor --fix` to correct it")
        )
    );
    assert_eq!(
        shown(&cs[3]),
        (
            Level::Warn,
            "agent",
            "stopped",
            Some("run `byteferret start` (or `byteferret doctor --fix`)")
        )
    );
}

#[test]
fn an_unreachable_endpoint_ends_the_checks() {
    let cs = build_checks(
        &facts(AgentFacts::Running {
            gui_address: "127.0.0.1:8384".to_string(),
            rest: RestFacts::Unreachable { why: "refused".to_string() },
        }),
        &clean,
    );
    assert_eq!(cs.len(), 5);
    assert_eq!(shown(&cs[2]), (Level::Okay, "secrets perms", "0600", None));
    assert_eq!(shown(&cs[3]), (Level::Okay, "agent", "running (127.0.0.1:8384)", None));
    assert_eq!(shown(&cs[4]), (Level::Fail, "syncthing REST", "unreachable: refused", None));
}

#[test]
fn no_folders_and_no_peers_are_warnings() {
    let cs = build_checks(&reachable(vec![], vec![], 0), &clean);
    assert_eq!(cs.len(), 7);
    assert_eq!(shown(&cs[4]), (Level::Okay, "syncthing REST", "reachable (v1.29.5)", None));
    assert_eq!(
        shown(&cs[5]),
        (
            Level::Warn,
            "folders",
            "none registered",
            Some("run `byteferret init <path>` to sync a directory")
        )
    );
    assert_eq!(
        shown(&cs[6]),
        (
            Level::Warn,
            "peers",
            "none paired",
            Some("get this device's id with `byteferret status`, then `byteferret pair --with <id>` on the other machine")
        )
    );
}

#[test]
fn a_missing_directory_fails_and_hides_the_history_check() {
    let cs = build_checks(
        &reachable(
            vec![
                folder(r#"{"id":"vault-1","path":"/v"}"#, "vault", false),
                folder(r#"{"id":"docs-1","path":"/d"}"#, "docs", true),
                // Neither a folder without an id nor one without a path can be named or missed.
                folder(r#"{"path":"/x"}"#, "x", false),
                folder(r#"{"id":"y-1"}"#, "y", false),
            ],
            vec![],
            0,
        ),
        &clean,
    );
    assert_eq!(
        shown(&cs[5]),
        (
            Level::Fail,
            "folders",
            "1 folder(s) point at a missing directory: vault",
            Some("re-create the directory or run `byteferret init <path> --existing`")
        )
    );
    assert_eq!(cs[6].name, "peers");
}

#[test]
fn folders_without_history_are_named() {
    let cs = build_checks(
        &reachable(
            vec![
                folder(r#"{"id":"a","path":"/a","versioning":{"type":"staggered"}}"#, "a", true),
                folder(r#"{"id":"b","path":"/b","versioning":{"type":""}}"#, "b", true),
                folder(r#"{"id":"c","path":"/c","versioning":{"type":7}}"#, "c", true),
                folder(r#"{"id":"d","path":"/d"}"#, "d", true),
            ],
            vec![],
            0,
        ),
        &clean,
    );
    assert_eq!(shown(&cs[5]), (Level::Okay, "folders", "4 registered", None));
    assert_eq!(
        shown(&cs[6]),
        (
            Level::Warn,
            "file history",
            "3 folder(s) keep no local history: b, c, d",
            Some("run `byteferret doctor --fix` to enable staggered versioning")
        )
    );
}

#[test]
fn a_stalled_peer_is_reported_before_one_that_is_establishing() {
    let cs = build_checks(
        &reachable(
            vec![folder(r#"{"id":"a","path":"/a","versioning":{"type":"staggered"}}"#, "a", true)],
            vec![
                peer("anna", true, ShareState::Sharing),
                peer("be\u{1b}n", true, ShareState::NotSharingBack),
                peer("carl", true, ShareState::Establishing),
                peer("dora", false, ShareState::Offline),
            ],
            0,
        ),
        &clean,
    );
    assert_eq!(shown(&cs[6]), (Level::Okay, "file history", "staggered on all folders", None));
    assert_eq!(shown(&cs[7]), (Level::Okay, "peers", "3/4 connected", None));
    assert_eq!(
        shown(&cs[8]),
        (
            Level::Warn,
            "folder share",
            "1 connected peer(s) not sharing a folder back: ben",
            Some("on that machine run `byteferret pair --with <this-device-id> --folder <name>` to share the folder back")
        )
    );
    assert_eq!(cs.len(), 9);
}

#[test]
fn establishing_and_both_ways_are_told_apart() {
    let cs = build_checks(
        &reachable(
            vec![],
            vec![
                peer("anna", true, ShareState::Establishing),
                peer("ben", true, ShareState::Establishing),
            ],
            3,
        ),
        &clean,
    );
    assert_eq!(
        shown(&cs[7]),
        (
            Level::Warn,
            "folder share",
            "2 peer(s) still establishing the share (connected, not yet in sync): anna, ben",
            Some("give it a moment and re-check `byteferret status`; if it persists, run `byteferret pair --with <this-device-id> --folder <name>` on that machine")
        )
    );
    assert_eq!(
        shown(&cs[8]),
        (
            Level::Warn,
            "conflicts",
            "3 sync-conflict file(s)",
            Some("open both copies, merge, then delete the *.sync-conflict-* file")
        )
    );
    let cs = build_checks(
        &reachable(
            vec![],
            vec![peer("anna", true, ShareState::Sharing), peer("ben", false, ShareState::Offline)],
            0,
        ),
        &clean,
    );
    assert_eq!(shown(&cs[7]), (Level::Okay, "folder share", "shared both ways with 1 peer(s)", None));
    let cs =
        build_checks(&reachable(vec![], vec![peer("ben", false, ShareState::Offline)], 0), &clean);
    assert_eq!(shown(&cs[6]), (Level::Warn, "peers", "0/1 connected", None));
    assert_eq!(cs.len(), 7);
}

#[test]
fn a_failed_check_fails_the_run() {
    let checks = vec![
        Check::new(Level::Okay, "config", "/c".to_string()).with_hint("not shown"),
        Check::new(Level::Fail, "state", "gone".to_string()),
        Check::new(Level::Warn, "a very long check name", "x".to_string()).with_hint("look"),
    ];
    let fixes = vec!["started the agent".to_string()];
    let v = doctor(true, &fixes, &checks);
    assert!(v.failed);
    assert_eq!(
        v.output.lines,
        vec![
            "--fix applied:",
            "  - started the agent",
            "",
            "  ✓ config           ok — /c",
            "  ✗ state            FAIL — gone",
            "  ! a very long check name warn — x",
            "      ↳ look",
            "",
            "overall: problems found",
        ]
    );
    assert_eq!(
        v.output.doc,
        doc(r#"{
            "ok": false, "overall": "FAIL", "fixesApplied": ["started the agent"],
            "checks": [
                {"name": "config", "level": "ok", "detail": "/c", "hint": "not shown"},
                {"name": "state", "level": "FAIL", "detail": "gone", "hint": null},
                {"name": "a very long check name", "level": "warn", "detail": "x", "hint": "look"}
            ]
        }"#)
    );
}

#[test]
fn warnings_alone_do_not_fail_the_run() {
    let checks = vec![Check::new(Level::Warn, "peers", "none".to_string())];
    let v = doctor(true, &vec![], &checks);
    assert!(!v.failed);
    assert_eq!(v.output.lines[0], "--fix: nothing to repair.");
    assert_eq!(v.output.lines[3], "overall: healthy with warnings");
    let v = doctor(false, &vec![], &vec![]);
    assert!(!v.failed);
    assert_eq!(v.output.lines, vec!["", "overall: healthy"]);
    assert_eq!(
        v.output.doc,
        doc(r#"{"ok": true, "overall": "ok", "fixesApplied": [], "checks": []}"#)
    );
}

#[test]
fn repairs_are_listed_where_they_were_needed_and_done() {
    let f = Fixes::start(true);
    assert_eq!(f.step, FixStep::ReadMode);
    let f = apply_fixes(f, "/s", &FixEvent::Mode { mode: Some(0o100644) }, &clean);
    assert_eq!(f.step, FixStep::Tighten);
    let f = apply_fixes(f, "/s", &FixEvent::Tightened { done: true }, &clean);
    assert_eq!(f.step, FixStep::Probe);
    let f = apply_fixes(f, "/s", &FixEvent::Running { running: false }, &clean);
    assert_eq!(f.step, FixStep::Start);
    let f = apply_fixes(f, "/s", &FixEvent::Started { done: true }, &clean);
    assert_eq!(f.step, FixStep::EnableHistory);
    let names = vec!["vau\u{7}lt".to_string(), "docs".to_string()];
    let f = apply_fixes(f, "/s", &FixEvent::Upgraded { names }, &clean);
    assert_eq!(f.step, FixStep::Finish);
    assert_eq!(
        f.done,
        vec![
            "tightened /s to 0600",
            "started the agent",
            "enabled file history on 'vault'",
            "enabled file history on 'docs'",
        ]
    );
}

#[test]
fn a_healthy_machine_needs_no_repair() {
    let f = apply_fixes(Fixes::start(true), "/s", &FixEvent::Mode { mode: Some(0o100600) }, &clean);
    assert_eq!(f.step, FixStep::Probe);
    let f = apply_fixes(f, "/s", &FixEvent::Running { running: true }, &clean);
    assert_eq!(f.step, FixStep::EnableHistory);
    let f = apply_fixes(f, "/s", &FixEvent::Upgraded { names: vec![] }, &clean);
    assert_eq!(f.step, FixStep::Finish);
    assert!(f.done.is_empty());
}

#[test]
fn a_repair_that_failed_is_not_listed() {
    let f = apply_fixes(Fixes::start(true), "/s", &FixEvent::Mode { mode: Some(0o666) }, &clean);
    let f = apply_fixes(f, "/s", &FixEvent::Tightened { done: false }, &clean);
    let f = apply_fixes(f, "/s", &FixEvent::Running { running: false }, &clean);
    let f = apply_fixes(f, "/s", &FixEvent::Started { done: false }, &clean);
    assert_eq!(f.step, FixStep::EnableHistory);
    assert!(f.done.is_empty());
    // An event of another step changes nothing.
    let f = apply_fixes(f, "/s", &FixEvent::Mode { mode: None }, &clean);
    assert_eq!(f.step, FixStep::EnableHistory);
    // A missing secrets file is no reason to tighten anything.
    let f = apply_fixes(Fixes::start(true), "/s", &FixEvent::Mode { mode: None }, &clean);
    assert_eq!(f.step, FixStep::Probe);
}

#[test]
fn the_fix_tightens_what_the_check_faults() {
    for mode in [0u32, 0o400, 0o600, 0o604, 0o640, 0o677, 0o700, 0o100600, 0o100755] {
        let mut f = facts(AgentFacts::Stopped);
        f.secrets_mode = Some(mode);
        let faulty = build_checks(&f, &clean)[2].level == Level::Fail;
        let fixes = apply_fixes(Fixes::start(true), "/s", &FixEvent::Mode { mode: Some(mode) }, &clean);
        assert_eq!(fixes.step == FixStep::Tighten, faulty);
    }
}

#[test]
fn nothing_is_repaired_without_fix_at_all() {
    let events = [
        FixEvent::Mode { mode: Some(0o100644) },
        FixEvent::Tightened { done: true },
        FixEvent::Running { running: false },
        FixEvent::Started { done: true },
        FixEvent::Upgraded { names: vec!["vault".to_string()] },
    ];
    let mut f = Fixes::start(false);
    assert_eq!(f.step, FixStep::Finish);
    for event in &events {
        f = apply_fixes(f, "/s", event, &clean);
        assert_eq!(f.step, FixStep::Finish);
        assert!(f.done.is_empty());
    }
    let v = doctor(false, &f.done, &vec![]);
    assert_eq!(v.output.doc["fixesApplied"], doc("[]"));
    assert_eq!(v.output.lines, vec!["", "overall: healthy"]);
}

#[test]
fn conflicts_are_counted_below_every_path() {
    let folders = vec![
        doc(r#"{"id": "a", "path": "/a"}"#),
        doc(r#"{"id": "b"}"#),
        doc(r#"{"id": "c", "path": 3}"#),
        doc(r#"{"path": ""}"#),
        doc(r#"{"id": "d", "path": "/a"}"#),
        doc("null"),
    ];
    assert_eq!(conflict_paths(&folders), vec!["/a", "", "/a"]);
    assert!(conflict_paths(&vec![]).is_empty());
    assert_eq!(conflict_count(&vec![]), Some(0));
    assert_eq!(conflict_count(&vec![100, 0, 7]), Some(107));
    assert_eq!(conflict_count(&vec![usize::MAX, 0]), Some(usize::MAX));
    assert_eq!(conflict_count(&vec![usize::MAX, 1]), None);
}
