use byteferret::agent::{Aliases, PeerSync, ShareState, ShareTags};
use byteferret::commands::doctor::{build_checks, AgentFacts, Facts, RestFacts};
use byteferret::commands::shares::{
    asked_folders, folder_id, folder_info, peer_folder_states, scanned_paths, share_annotation,
    Answer, FolderInfo,
};
use byteferret::commands::status::{
    gather, hostname, id_display, peer_ref, short, status, FolderRead, Local, OfferedFacts,
    PeerFacts, Reads, Running,
};
use byteferret::syncthing::rest::{
    Connection, FolderStatus, OfferedFolder, PendingDevice, PendingFolder,
};
use serde_json::Value;

fn clean(s: &str) -> String {
    s.chars().filter(|c| !c.is_control()).collect()
}

fn doc(text: &str) -> Value {
    serde_json::from_str(text).unwrap()
}

fn aliases(pairs: &[(&str, &str)]) -> Aliases {
    Aliases { pairs: pairs.iter().map(|p| (p.0.to_string(), p.1.to_string())).collect() }
}

fn peer(id: &str, label: &str, connected: bool, state: ShareState) -> PeerSync {
    PeerSync {
        id: id.to_string(),
        name: label.to_string(),
        label: label.to_string(),
        connected,
        sharing: state == ShareState::Sharing,
        state,
    }
}

fn folder(id: &str, name: &str, path: &str, peers: &[&str], state: &str, need: i64) -> FolderInfo {
    FolderInfo {
        id: id.to_string(),
        name: name.to_string(),
        label: format!("{name} label"),
        path: path.to_string(),
        peers: peers.iter().map(|p| p.to_string()).collect(),
        state: state.to_string(),
        need_bytes: need,
    }
}

fn answer(state: ShareState, completion: f64) -> Option<Answer> {
    Some(Answer {
        state,
        completion: Value::from(completion),
        in_sync: completion >= 99.5,
        percent: format!("{completion:.0}"),
    })
}

fn tags() -> ShareTags {
    ShareTags {
        sharing: "sharing".to_string(),
        establishing: "establishing".to_string(),
        not_sharing_back: "not-sharing-back".to_string(),
        offline: "offline".to_string(),
    }
}

fn quiet() -> Running {
    Running {
        device_id: "OWN-ID".to_string(),
        version: "v1.29.5".to_string(),
        gui_address: "127.0.0.1:8384".to_string(),
        folders: vec![],
        peers: vec![],
        connections: vec![],
        pending: vec![],
        offered: vec![],
        conflicts: vec![],
        aliases: aliases(&[]),
        aliases_doc: doc("{}"),
        tags: tags(),
        zero: Value::from(0.0),
    }
}

#[test]
fn a_hostname_ends_at_the_first_zero() {
    assert_eq!(hostname(true, &b"laptop\0\0junk".to_vec()), "laptop");
    assert_eq!(hostname(true, &b"full".to_vec()), "full");
    assert_eq!(hostname(true, &b"\0".to_vec()), "");
    assert_eq!(hostname(true, &vec![]), "");
    assert_eq!(hostname(false, &b"laptop\0".to_vec()), "");
    assert_eq!(hostname(true, &"bür\0".as_bytes().to_vec()), "bür");
    assert_eq!(hostname(true, &vec![b'a', 0xff, b'b', 0]), "a\u{fffd}b");
}

#[test]
fn ids_are_cut_to_their_first_segment() {
    assert_eq!(short("ABCDEFG-HIJKLMN"), "ABCDEFG");
    assert_eq!(short("ABC"), "ABC");
    assert_eq!(short("äöüäöüäö"), "äöüäöüä");
    assert_eq!(id_display("ABCDEFG-HIJKLMN", false), "ABCDEFG…");
    assert_eq!(id_display("ABCDEFG-HIJKLMN", true), "ABCDEFG-HIJKLMN");
}

#[test]
fn a_peer_is_referred_to_by_its_alias() {
    let a = aliases(&[("ABCDEFG-HIJKLMN", "desk"), ("ABCDEFG-HIJKLMN", "later")]);
    assert_eq!(peer_ref(&a, "ABCDEFG-HIJKLMN"), "desk");
    assert_eq!(peer_ref(&a, "XYZXYZX-XYZXYZX"), "XYZXYZX");
}

#[test]
fn annotations_tell_how_far_a_share_is() {
    assert_eq!(share_annotation(ShareState::Sharing, true, "100"), "");
    assert_eq!(share_annotation(ShareState::Sharing, false, "42"), " (42%)");
    assert_eq!(share_annotation(ShareState::Establishing, false, "0"), " (establishing)");
    assert_eq!(share_annotation(ShareState::NotSharingBack, false, "0"), " (peer not sharing back)");
    assert_eq!(share_annotation(ShareState::Offline, false, "0"), "");
}

#[test]
fn a_folder_is_read_from_its_configuration() {
    let config = doc(r#"{
        "id": "vault-x1", "label": "Vault", "path": "/v",
        "devices": [{"deviceID": "OWN"}, {"deviceID": "A"}, {"x": 1}, {"deviceID": 3}, {"deviceID": "B"}]
    }"#);
    assert_eq!(folder_id(&config), "vault-x1");
    let status = FolderStatus { state: "syncing".to_string(), need_bytes: 7 };
    let f = folder_info(&config, "vault", Some(&status), "OWN");
    assert_eq!(f.id, "vault-x1");
    assert_eq!(f.name(), "vault");
    assert_eq!(f.label, "Vault");
    assert_eq!(f.path, "/v");
    assert_eq!(f.peers, vec!["A", "B"]);
    assert_eq!((f.state.as_str(), f.need_bytes), ("syncing", 7));
    let f = folder_info(&doc(r#"{"devices": {}}"#), "", None, "OWN");
    assert_eq!((f.id.as_str(), f.label.as_str(), f.path.as_str()), ("", "", ""));
    assert!(f.peers.is_empty());
    assert_eq!((f.state.as_str(), f.need_bytes), ("", 0));
}

#[test]
fn only_folders_with_a_path_are_scanned() {
    let fs = vec![
        folder("a", "a", "/a", &[], "", 0),
        folder("b", "b", "", &[], "", 0),
        folder("c", "c", "/c", &[], "", 0),
    ];
    assert_eq!(scanned_paths(&fs), vec!["/a", "/c"]);
}

#[test]
fn share_states_are_of_the_folders_shared_with_the_peer() {
    let fs = vec![
        folder("a-1", "a", "/a", &["P", "Q"], "idle", 0),
        folder("b-1", "b", "/b", &["Q"], "idle", 0),
        folder("c-1", "c", "/c", &["P"], "idle", 0),
    ];
    let p = peer("P", "p", true, ShareState::Sharing);
    assert_eq!(asked_folders(&fs, &p), vec!["a-1", "c-1"]);
    let answers = vec![answer(ShareState::Sharing, 42.4), None];
    let zero = Value::from(0.0);
    let ss = peer_folder_states(&fs, &p, &answers, &zero);
    assert_eq!(ss.len(), 2);
    assert_eq!((ss[0].folder.as_str(), ss[0].name.as_str()), ("a-1", "a"));
    assert_eq!(ss[0].answer.state, ShareState::Sharing);
    assert_eq!(ss[0].answer.completion, Value::from(42.4));
    assert_eq!((ss[0].answer.in_sync, ss[0].answer.percent.as_str()), (false, "42"));
    assert_eq!(ss[1].folder, "c-1");
    assert_eq!(ss[1].answer.state, ShareState::Establishing);
    assert_eq!(ss[1].answer.completion, zero);

    let off = peer("P", "p", false, ShareState::Offline);
    assert!(asked_folders(&fs, &off).is_empty());
    let ss = peer_folder_states(&fs, &off, &vec![], &zero);
    assert_eq!(ss.len(), 2);
    assert_eq!(ss[0].answer.state, ShareState::Offline);
    assert_eq!(ss[1].answer.state, ShareState::Offline);
    let none = peer("R", "r", true, ShareState::Sharing);
    assert!(peer_folder_states(&fs, &none, &vec![], &zero).is_empty());
}

#[test]
fn a_stopped_agent_is_the_headline() {
    let out = status(false, "laptop", None, &clean);
    assert_eq!(
        out.lines,
        vec!["agent:      stopped   (run `byteferret start`)", "hostname:   laptop"]
    );
    assert_eq!(out.doc, doc(r#"{"ok": true, "agentRunning": false, "hostname": "laptop"}"#));
    let out = status(false, "", None, &clean);
    assert_eq!(out.lines, vec!["agent:      stopped   (run `byteferret start`)"]);
}

#[test]
fn a_quiet_agent_has_little_to_tell() {
    let out = status(true, "", Some(&quiet()), &clean);
    assert_eq!(
        out.lines,
        vec![
            "agent:      running",
            "syncthing:  v1.29.5  (127.0.0.1:8384)",
            "device id:  OWN-ID",
            "mode:       p2p",
            "folders:    none — run `byteferret init <path>`",
            "peers:      none — share the device id above and run `byteferret pair --with <id>` on the other machine",
        ]
    );
    assert_eq!(
        out.doc,
        doc(r#"{
            "ok": true, "agentRunning": true, "hostname": "", "deviceId": "OWN-ID",
            "syncthingVersion": "v1.29.5", "guiAddress": "127.0.0.1:8384", "mode": "p2p",
            "folders": [], "aliases": {}, "peers": [], "pending": [], "pendingFolders": [],
            "conflicts": []
        }"#)
    );
}

fn busy() -> Running {
    let mut r = quiet();
    r.folders = vec![
        folder("vault-x1", "va\u{1b}ult", "/v", &["AAAAAAA-1", "BBBBBBB-2"], "syncing", 12),
        folder("docs-x2", "docs", "/d", &["AAAAAAA-1"], "", 0),
    ];
    r.peers = vec![
        PeerFacts {
            sync: peer("AAAAAAA-1", "an\u{7}na", true, ShareState::NotSharingBack),
            answers: vec![
                answer(ShareState::Sharing, 99.5),
                answer(ShareState::NotSharingBack, 0.0),
            ],
        },
        PeerFacts { sync: peer("BBBBBBB-2", "ben", false, ShareState::Offline), answers: vec![] },
        PeerFacts { sync: peer("CCCCCCC-3", "carl", true, ShareState::Sharing), answers: vec![] },
    ];
    r.connections = vec![
        ("AAAAAAA-1".to_string(), Connection { connected: true, address: "1.2.3.4\u{0}:22".to_string() }),
        ("CCCCCCC-3".to_string(), Connection { connected: true, address: "".to_string() }),
    ];
    r.pending = vec![
        (
            "DDDDDDD-4".to_string(),
            PendingDevice { name: "dora\r".to_string(), address: "tcp://d".to_string() },
        ),
        ("EEEEEEE-5".to_string(), PendingDevice { name: "\u{7}".to_string(), address: String::new() }),
    ];
    let offer = |label: &str| OfferedFolder {
        label: label.to_string(),
        time: "t".to_string(),
        receive_encrypted: false,
        remote_encrypted: true,
    };
    r.offered = vec![
        OfferedFacts {
            folder: "pics-x3".to_string(),
            name: "pics".to_string(),
            pending: PendingFolder {
                offered_by: vec![
                    ("AAAAAAA-1".to_string(), offer("Pi\u{8}cs")),
                    ("BBBBBBB-2".to_string(), offer("")),
                ],
            },
        },
        OfferedFacts {
            folder: "none-x4".to_string(),
            name: "none".to_string(),
            pending: PendingFolder { offered_by: vec![] },
        },
    ];
    r.conflicts = vec!["/v/a.sync-conflict-\u{1b}1.md".to_string()];
    r.aliases = aliases(&[("BBBBBBB-2", "desk")]);
    r.aliases_doc = doc(r#"{"BBBBBBB-2": "desk"}"#);
    r
}

#[test]
fn a_busy_agent_tells_it_all() {
    let out = status(false, "laptop", Some(&busy()), &clean);
    assert_eq!(
        out.lines,
        vec![
            "agent:      running",
            "syncthing:  v1.29.5  (127.0.0.1:8384)",
            "hostname:   laptop",
            "device id:  OWN-ID",
            "mode:       p2p",
            "folders:",
            "  - vault  /v  — syncing (12 bytes to sync), shared with 2 peer(s)",
            "  - docs  /d  — unknown, shared with 1 peer(s)",
            "peers:",
            "  - anna (AAAAAAA…): connected  1.2.3.4:22",
            "      vault",
            "      docs (peer not sharing back)",
            "  - desk (BBBBBBB…): disconnected",
            "      vault",
            "  - carl (CCCCCCC…): connected",
            "      no folders shared",
            "",
            "Note: a connected peer is NOT sharing a folder back — run `byteferret doctor` for the fix.",
            "pending:    2 pairing request(s):",
            "  - DDDDDDD-4 (dora)",
            "      accept:  byteferret pair DDDDDDD --accept",
            "      reject:  byteferret pair DDDDDDD --reject",
            "  - EEEEEEE-5",
            "      accept:  byteferret pair EEEEEEE --accept",
            "      reject:  byteferret pair EEEEEEE --reject",
            "offered folders:",
            "  - pics \"Pics\" — offered by AAAAAAA",
            "      accept:  byteferret pair AAAAAAA --accept --folder pics",
            "  - pics — offered by desk",
            "      accept:  byteferret pair desk --accept --folder pics",
            "conflicts:  1 sync-conflict file(s) — open both copies, merge, delete the conflict copy:",
            "  - /v/a.sync-conflict-1.md",
        ]
    );
    for line in &out.lines {
        assert!(!line.chars().any(|c| c.is_control()));
    }
}

#[test]
fn the_document_has_every_detail_as_it_is() {
    let out = status(true, "laptop", Some(&busy()), &clean);
    assert_eq!(
        out.doc,
        doc(r#"{
            "ok": true, "agentRunning": true, "hostname": "laptop", "deviceId": "OWN-ID",
            "syncthingVersion": "v1.29.5", "guiAddress": "127.0.0.1:8384", "mode": "p2p",
            "folders": [
                {"name": "va\u001bult", "id": "vault-x1", "label": "va\u001bult label", "path": "/v",
                 "state": "syncing", "needBytes": 12, "peers": ["AAAAAAA-1", "BBBBBBB-2"]},
                {"name": "docs", "id": "docs-x2", "label": "docs label", "path": "/d",
                 "state": "", "needBytes": 0, "peers": ["AAAAAAA-1"]}
            ],
            "aliases": {"BBBBBBB-2": "desk"},
            "peers": [
                {"deviceId": "AAAAAAA-1", "name": "an\u0007na", "alias": null, "connected": true,
                 "address": "1.2.3.4\u0000:22", "sharing": false, "shareState": "not-sharing-back",
                 "foldersSynced": [
                    {"folder": "va\u001bult", "state": "sharing", "completion": 99.5},
                    {"folder": "docs", "state": "not-sharing-back", "completion": 0.0}
                 ]},
                {"deviceId": "BBBBBBB-2", "name": "ben", "alias": "desk", "connected": false,
                 "address": "", "sharing": false, "shareState": "offline",
                 "foldersSynced": [
                    {"folder": "va\u001bult", "state": "offline", "completion": 0.0}
                 ]},
                {"deviceId": "CCCCCCC-3", "name": "carl", "alias": null, "connected": true,
                 "address": "", "sharing": true, "shareState": "sharing", "foldersSynced": []}
            ],
            "pending": [
                {"deviceId": "DDDDDDD-4", "name": "dora\r", "address": "tcp://d"},
                {"deviceId": "EEEEEEE-5", "name": "\u0007", "address": ""}
            ],
            "pendingFolders": [
                {"name": "pics", "folderId": "pics-x3", "offeredBy": "AAAAAAA-1", "label": "Pi\bcs",
                 "time": "t", "receiveEncrypted": false, "remoteEncrypted": true},
                {"name": "pics", "folderId": "pics-x3", "offeredBy": "BBBBBBB-2", "label": "",
                 "time": "t", "receiveEncrypted": false, "remoteEncrypted": true}
            ],
            "conflicts": ["/v/a.sync-conflict-\u001b1.md"]
        }"#)
    );
    assert_eq!(out.lines[9], "  - anna (AAAAAAA-1): connected  1.2.3.4:22");
}

#[test]
fn the_note_is_there_for_a_stalled_peer_alone() {
    let mut r = busy();
    r.peers[0].sync.state = ShareState::Establishing;
    let out = status(false, "laptop", Some(&r), &clean);
    assert!(!out.lines.iter().any(|l| l.starts_with("Note:")));
}

#[test]
fn doctor_warns_where_status_has_its_note() {
    let states = [
        ShareState::Sharing,
        ShareState::Establishing,
        ShareState::NotSharingBack,
        ShareState::Offline,
    ];
    for a in states {
        for b in states {
            let pair = || {
                vec![
                    peer("AAAAAAA-1", "anna", a != ShareState::Offline, a),
                    peer("BBBBBBB-2", "ben", b != ShareState::Offline, b),
                ]
            };
            let mut r = quiet();
            r.peers =
                pair().into_iter().map(|sync| PeerFacts { sync, answers: vec![] }).collect();
            let out = status(false, "", Some(&r), &clean);
            let note = out.lines.iter().any(|l| l.starts_with("Note:"));
            let facts = Facts {
                pinned_version: "1".to_string(),
                binary_present: true,
                config_file: None,
                secrets_mode: None,
                agent: AgentFacts::Running {
                    gui_address: "g".to_string(),
                    rest: RestFacts::Reachable {
                        version: "1".to_string(),
                        folders: vec![],
                        peers: pair(),
                        conflicts: 0,
                    },
                },
            };
            let warned = build_checks(&facts, &clean)
                .iter()
                .any(|c| c.detail.contains("not sharing a folder back"));
            assert_eq!(note, warned);
        }
    }
}

fn reads() -> Reads {
    let b = busy();
    Reads {
        device_id: Ok("OWN-ID".to_string()),
        version: Ok("v1.29.5".to_string()),
        peers: Ok(b.peers),
        connections: Ok(b.connections),
        pending: Ok(b.pending),
        offered: Ok(b.offered),
        folders: Ok(vec![
            FolderRead {
                config: doc(r#"{"id": "a-1", "devices": [{"deviceID": "OWN-ID"}, {"deviceID": "P"}]}"#),
                name: "a".to_string(),
                status: Some(FolderStatus { state: "idle".to_string(), need_bytes: 3 }),
            },
            FolderRead { config: doc(r#"{"id": "b-1"}"#), name: "b".to_string(), status: None },
        ]),
    }
}

fn local() -> Local {
    Local {
        gui_address: "127.0.0.1:8384".to_string(),
        aliases: aliases(&[("BBBBBBB-2", "desk")]),
        aliases_doc: doc(r#"{"BBBBBBB-2": "desk"}"#),
        tags: tags(),
        zero: Value::from(0.0),
    }
}

#[test]
fn what_was_read_is_gathered() {
    let f = gather(reads(), local()).ok().unwrap();
    assert_eq!((f.device_id.as_str(), f.version.as_str()), ("OWN-ID", "v1.29.5"));
    assert_eq!(f.gui_address, "127.0.0.1:8384");
    assert_eq!((f.peers.len(), f.connections.len()), (3, 2));
    assert_eq!((f.pending.len(), f.offered.len()), (2, 2));
    assert_eq!(f.folders.len(), 2);
    assert_eq!((f.folders[0].id.as_str(), f.folders[0].name()), ("a-1", "a"));
    assert_eq!(f.folders[0].peers, vec!["P"]);
    assert_eq!((f.folders[0].state.as_str(), f.folders[0].need_bytes), ("idle", 3));
    assert_eq!((f.folders[1].state.as_str(), f.folders[1].need_bytes), ("", 0));
    assert!(f.conflicts.is_empty());
    assert_eq!(peer_ref(&f.aliases, "BBBBBBB-2"), "desk");
    assert_eq!(f.aliases_doc, doc(r#"{"BBBBBBB-2": "desk"}"#));
}

#[test]
fn some_reads_may_fail_and_some_end_the_command() {
    let mut r = reads();
    r.peers = Err("p".to_string());
    r.connections = Err("c".to_string());
    r.folders = Err("f".to_string());
    let f = gather(r, local()).ok().unwrap();
    assert!(f.peers.is_empty() && f.connections.is_empty() && f.folders.is_empty());
    assert_eq!(f.pending.len(), 2);

    // The first that failed is told, in the order in which they are needed.
    let mut r = reads();
    r.offered = Err("offered".to_string());
    assert_eq!(gather(r, local()).err().unwrap(), "offered");
    let mut r = reads();
    r.offered = Err("offered".to_string());
    r.pending = Err("pending".to_string());
    assert_eq!(gather(r, local()).err().unwrap(), "pending");
    let mut r = reads();
    r.pending = Err("pending".to_string());
    r.version = Err("version".to_string());
    assert_eq!(gather(r, local()).err().unwrap(), "version");
    let mut r = reads();
    r.version = Err("version".to_string());
    r.device_id = Err("device".to_string());
    assert_eq!(gather(r, local()).err().unwrap(), "device");
}
