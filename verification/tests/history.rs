use byteferret::commands::history::{choose_version, find_file, history, list_hint, HistoryError};
use byteferret::commands::restore::{
    confirm_restore, is_yes, plan_restore, restore, restore_picks, RestoreEvent, RestorePlan,
    RestoreStep,
};
use byteferret::commands::size::human_size;
use byteferret::commands::versions::{
    display_time, load_versions, read_versions, Files, Version,
};
use byteferret::output::failure_doc;
use serde_json::Value;

fn clean(s: &str) -> String {
    s.chars().filter(|c| !c.is_control()).collect()
}

fn doc(text: &str) -> Value {
    serde_json::from_str(text).unwrap()
}

fn version(tag: &str, size: i64) -> Version {
    Version { tag: tag.to_string(), size }
}

fn plan(path: &str, tag: &str) -> RestorePlan {
    RestorePlan { path: path.to_string(), tag: tag.to_string() }
}

fn sample() -> Files {
    load_versions(&doc(r#"{
        "sub/todo.md": [
            {"versionTime": "2026-08-01T09:00:12+02:00", "size": 100},
            {"versionTime": "2026-08-02T14:36:47+02:00", "size": 2048},
            {"size": 5},
            {"versionTime": "2026-07-30T00:00:00+02:00"}
        ],
        "a.md": [{"versionTime": "2026-08-03T00:00:00Z", "size": 1}],
        "empty.md": [],
        "null.md": null
    }"#))
}

#[test]
fn display_time_strips_timezone_and_t() {
    assert_eq!(display_time("2026-08-02T14:36:47+02:00"), "2026-08-02 14:36:47");
    assert_eq!(display_time("2026-08-02T14:36:47Z"), "2026-08-02 14:36:47");
    assert_eq!(display_time("weird"), "weird");
}

#[test]
fn human_size_scales_units() {
    assert_eq!(human_size(512), "512 B");
    assert_eq!(human_size(1536), "1.5 KB");
    assert_eq!(human_size(5 * 1024 * 1024), "5.0 MB");
}

#[test]
fn find_file_matches_exact_then_basename() {
    let mut files = Files::new();
    files.insert("sub/todo.md".to_string(), vec![Version { tag: "t".into(), size: 1 }]);
    files.insert("other.md".to_string(), vec![Version { tag: "t".into(), size: 1 }]);
    assert_eq!(find_file(&files, "sub/todo.md").unwrap().0, "sub/todo.md");
    assert_eq!(find_file(&files, "todo.md").unwrap().0, "sub/todo.md");
    assert_eq!(find_file(&files, "./other.md").unwrap().0, "other.md");
    assert!(find_file(&files, "missing.md").is_err());
}

#[test]
fn choose_version_defaults_to_newest_and_matches_prefix() {
    let versions = vec![
        Version { tag: "2026-08-02T14:36:47+02:00".into(), size: 2 },
        Version { tag: "2026-08-01T09:00:12+02:00".into(), size: 1 },
    ];
    assert_eq!(choose_version("f", &versions, None).unwrap().size, 2);
    assert_eq!(choose_version("f", &versions, Some("2026-08-01")).unwrap().size, 1);
    assert!(choose_version("f", &versions, Some("2026-07")).is_err());
}

#[test]
fn a_time_is_nineteen_characters_with_a_t() {
    assert_eq!(display_time("2026-08-02 14:36:47+02:00"), "2026-08-02 14:36:47+02:00");
    assert_eq!(display_time("2026-08-02T14:36:4"), "2026-08-02T14:36:4");
    assert_eq!(display_time("2026-08-02T14:36:47"), "2026-08-02 14:36:47");
    assert_eq!(display_time("2026-08-02T14:T6:47"), "2026-08-02 14: 6:47");
    assert_eq!(display_time("2026-08-02T14:36:4é7"), "2026-08-02 14:36:4é");
    assert_eq!(display_time(""), "");
}

#[test]
fn a_short_tag_is_shown_as_it_is() {
    // Fewer than 19 characters, whatever their bytes.
    assert_eq!(display_time("2026-08-02Txéééé"), "2026-08-02Txéééé");
    assert_eq!(display_time("2026-08-02Téééé"), "2026-08-02Téééé");
}

fn sizes_newest_first(tags: &[&str]) -> Vec<i64> {
    let items: Vec<Value> = tags
        .iter()
        .enumerate()
        .map(|(i, tag)| doc(&format!(r#"{{"versionTime": "{tag}", "size": {}}}"#, i + 1)))
        .collect();
    read_versions(&items).iter().map(|v| v.size).collect()
}

#[test]
fn the_newest_is_first_across_offsets() {
    // The clocks are set back between the two: 00:30 and 01:10 in UTC.
    let files = load_versions(&doc(r#"{"f": [
        {"versionTime": "2026-10-25T02:30:00+02:00", "size": 1},
        {"versionTime": "2026-10-25T02:10:00+01:00", "size": 2}
    ]}"#));
    let sizes: Vec<i64> = files.entries()[0].versions.iter().map(|v| v.size).collect();
    assert_eq!(sizes, vec![2, 1]);
    assert_eq!(choose_version("f", &files.entries()[0].versions, None).unwrap().size, 2);
    let p = plan_restore(&files, "f", None).unwrap();
    assert_eq!(p.tag, "2026-10-25T02:10:00+01:00");
    // Ahead of UTC, UTC, behind it; and across midnight and the end of a year.
    assert_eq!(
        sizes_newest_first(&[
            "2027-01-01T00:30:00+14:00",
            "2026-12-31T11:00:00Z",
            "2026-12-31T05:30:00-06:00",
        ]),
        vec![3, 2, 1]
    );
}

#[test]
fn the_calendar_is_counted_through() {
    assert_eq!(
        sizes_newest_first(&[
            "2024-02-28T23:59:59Z",
            "2024-02-29T00:00:00Z",
            "2024-03-01T00:00:00Z",
            "2024-12-31T23:59:60Z",
            "2025-01-01T00:00:01Z",
            "2024-02-29T23:30:00-00:20",
        ]),
        vec![5, 4, 3, 6, 2, 1]
    );
    // Of one instant, written in several ways, the greatest text is first.
    assert_eq!(
        sizes_newest_first(&[
            "2024-02-29T23:30:00-00:30",
            "2024-03-01T00:00:00Z",
            "2024-03-01T00:00:00.000+00:00",
            "2024-03-01t01:00:00z",
            "2024-03-01T01:00:00+01:00",
        ]),
        vec![4, 5, 2, 3, 1]
    );
}

#[test]
fn fractions_of_a_second_count() {
    assert_eq!(
        sizes_newest_first(&[
            "2026-08-02T14:36:47Z",
            "2026-08-02T14:36:47.1Z",
            "2026-08-02T14:36:47.09Z",
            "2026-08-02T14:36:47.1000000000000000001Z",
            "2026-08-02T14:36:47.100Z",
            "2026-08-02T14:36:46.999999999Z",
        ]),
        vec![4, 2, 5, 3, 1, 6]
    );
}

#[test]
fn a_tag_without_an_instant_makes_the_order_one_of_texts() {
    for odd in [
        "2026-02-29T00:00:00Z",
        "2026-13-01T00:00:00Z",
        "2026-00-01T00:00:00Z",
        "2026-01-00T00:00:00Z",
        "2026-04-31T00:00:00Z",
        "2026-01-01T24:00:00Z",
        "2026-01-01T00:60:00Z",
        "2026-01-01T00:00:61Z",
        "2026-01-01T00:00:00",
        "2026-01-01T00:00:00.Z",
        "2026-01-01T00:00:00+24:00",
        "2026-01-01T00:00:00+00:60",
        "2026-01-01T00:00:00+0000",
        "2026-01-01T00:00:00 00:00",
        "2026-01-01T00:00:00Zx",
        "2026-01-01 00:00:00Z",
        "2026/01/01T00:00:00Z",
        "2026-1-01T00:00:00Z",
        "20é6-01-01T00:00:00Z",
        "weird",
    ] {
        assert_eq!(sizes_newest_first(&["0000-01-01T00:00:00+23:59", odd]), vec![2, 1]);
        assert_eq!(sizes_newest_first(&[odd, "0000-01-01T00:00:00+23:59"]), vec![1, 2]);
    }
    assert_eq!(sizes_newest_first(&["", "0000-01-01T00:00:00+23:59"]), vec![2, 1]);
    assert_eq!(sizes_newest_first(&["2026-08-02T14:36:47Z", "weird"]), vec![2, 1]);
    assert_eq!(sizes_newest_first(&["a", "c", "b", "1999-01-01T00:00:00Z"]), vec![2, 3, 1, 4]);
    // Two that name instants are then compared as texts too.
    assert_eq!(
        sizes_newest_first(&["2026-10-25T02:30:00+02:00", "2026-10-25T02:10:00+01:00", "x"]),
        vec![3, 1, 2]
    );
}

#[test]
fn a_leap_second_is_before_the_next_second() {
    assert_eq!(
        sizes_newest_first(&["2017-01-01T00:00:00.2Z", "2016-12-31T23:59:60.5Z"]),
        vec![1, 2]
    );
    assert_eq!(
        sizes_newest_first(&[
            "2016-12-31T23:59:59.9Z",
            "2016-12-31T23:59:60Z",
            "2017-01-01T00:59:60.9+01:00",
            "2017-01-01T00:00:00Z",
        ]),
        vec![4, 3, 2, 1]
    );
}

#[test]
fn tags_written_alike_come_as_texts() {
    let tags = [
        "2026-08-02T14:36:47+02:00",
        "2025-12-31T23:59:60+02:00",
        "2026-08-02T14:36:48+02:00",
        "2026-08-01T23:00:00+02:00",
        "2026-07-31T23:00:00+02:00",
        "1999-12-31T23:59:59+02:00",
        "2026-08-02T14:36:47+02:00",
    ];
    let mut expected: Vec<usize> = (0..tags.len()).collect();
    expected.sort_by(|a, b| tags[*b].cmp(tags[*a]));
    let expected: Vec<i64> = expected.into_iter().map(|i| i as i64 + 1).collect();
    assert_eq!(sizes_newest_first(&tags), expected);
}

#[test]
fn a_listed_time_picks_its_version_or_is_ambiguous() {
    let vs = vec![
        version("2026-10-25T02:30:00+01:00", 4),
        version("2026-10-25T02:30:00+02:00", 3),
        version("2026-10-25T02:00:00+02:00", 2),
        version("2026-10-25t01:00:00z", 1),
    ];
    // Each tag picks its version.
    for v in &vs {
        assert_eq!(choose_version("f", &vs, Some(&v.tag)).unwrap().size, v.size);
    }
    // A time that one version shows picks it; one that two show is refused.
    for v in &vs[2..] {
        assert_eq!(choose_version("f", &vs, Some(&display_time(&v.tag))).unwrap().size, v.size);
    }
    let e = choose_version("f", &vs, Some("2026-10-25 02:30:00")).unwrap_err();
    assert!(matches!(e, HistoryError::SeveralVersions { .. }));
}

#[test]
fn human_size_goes_by_the_nearest_tenth() {
    assert_eq!(human_size(0), "0 B");
    assert_eq!(human_size(-7), "-7 B");
    assert_eq!(human_size(i64::MIN), "-9223372036854775808 B");
    assert_eq!(human_size(1023), "1023 B");
    assert_eq!(human_size(1024), "1.0 KB");
    assert_eq!(human_size(1024 * 1024 - 1), "1024.0 KB");
    assert_eq!(human_size(3 << 30), "3.0 GB");
    assert_eq!(human_size(5 << 40), "5.0 TB");
    assert_eq!(human_size(i64::MAX), "8388608.0 TB");
    // 1.25 and 1.75 KB lie half way: the even tenth is taken.
    assert_eq!(human_size(1280), "1.2 KB");
    assert_eq!(human_size(1792), "1.8 KB");
}

#[test]
fn human_size_is_what_floating_point_gives() {
    const UNITS: [&str; 5] = ["B", "KB", "MB", "GB", "TB"];
    let mut sizes: Vec<i64> = vec![0, 1, -1, 1023, 1024, 1025, i64::MAX, i64::MIN];
    let mut x: u64 = 0x9e37_79b9_7f4a_7c15;
    for i in 0..4000u32 {
        x ^= x << 13;
        x ^= x >> 7;
        x ^= x << 17;
        sizes.push((x >> (1 + i % 63)) as i64);
    }
    for bytes in sizes {
        let mut size = bytes as f64;
        let mut unit = 0;
        while size >= 1024.0 && unit < UNITS.len() - 1 {
            size /= 1024.0;
            unit += 1;
        }
        let expected =
            if unit == 0 { format!("{bytes} B") } else { format!("{size:.1} {}", UNITS[unit]) };
        assert_eq!(human_size(bytes), expected);
    }
}

#[test]
fn versions_are_read_newest_first() {
    let files = sample();
    let entries = files.entries();
    assert_eq!(entries.len(), 2);
    assert_eq!(entries[0].path, "a.md");
    assert_eq!(entries[1].path, "sub/todo.md");
    let tags: Vec<&str> = entries[1].versions.iter().map(|v| v.tag.as_str()).collect();
    assert_eq!(
        tags,
        vec!["2026-08-02T14:36:47+02:00", "2026-08-01T09:00:12+02:00", "2026-07-30T00:00:00+02:00"]
    );
    let sizes: Vec<i64> = entries[1].versions.iter().map(|v| v.size).collect();
    assert_eq!(sizes, vec![2048, 100, 0]);
}

#[test]
fn versions_with_one_tag_keep_their_order() {
    let items = vec![
        doc(r#"{"versionTime": "a", "size": 1}"#),
        doc(r#"{"versionTime": "b", "size": 2}"#),
        doc(r#"{"versionTime": "a", "size": 3}"#),
        doc(r#"{"versionTime": "b", "size": 1.5}"#),
        doc(r#"{"versionTime": "b", "size": 18446744073709551615}"#),
    ];
    let sizes: Vec<i64> = read_versions(&items).iter().map(|v| v.size).collect();
    assert_eq!(sizes, vec![2, 0, 0, 1, 3]);
}

#[test]
fn what_is_no_object_has_no_files() {
    for text in ["null", "[]", "3", "\"x\"", "{}"] {
        assert!(load_versions(&doc(text)).entries().is_empty());
    }
}

#[test]
fn a_path_is_inserted_once() {
    let mut files = Files::new();
    files.insert("b".to_string(), vec![version("1", 1)]);
    files.insert("a".to_string(), vec![version("2", 2)]);
    files.insert("b".to_string(), vec![version("3", 3)]);
    let all: Vec<(&str, i64)> =
        files.entries().iter().map(|f| (f.path.as_str(), f.versions[0].size)).collect();
    assert_eq!(all, vec![("a", 2), ("b", 3)]);
}

#[test]
fn a_reference_may_be_written_in_other_ways() {
    let files = sample();
    for wanted in ["sub/todo.md", "sub\\todo.md", "././sub/todo.md", "//sub/todo.md", ".\\/sub/todo.md"] {
        assert_eq!(find_file(&files, wanted).unwrap().0, "sub/todo.md");
    }
    assert!(find_file(&files, "/./todo.md").is_err());
    assert!(find_file(&files, "odo.md").is_err());
}

#[test]
fn an_unknown_file_names_the_known_ones() {
    let files = sample();
    let e = find_file(&files, "x\u{1b}y").unwrap_err();
    assert!(matches!(e, HistoryError::NoHistory { .. }));
    assert_eq!(
        e.message(&clean),
        "no history for 'xy' in this folder. Files with history:\n  a.md\n  sub/todo.md"
    );
    let e = find_file(&Files::new(), "x").unwrap_err();
    assert_eq!(
        e.message(&clean),
        "no history for 'x' in this folder. This folder has no history yet."
    );
    assert_eq!(list_hint(&vec![], &clean), " This folder has no history yet.");
    assert_eq!(list_hint(&vec!["k".to_string()], &clean), " Files with history:\n  k");
}

#[test]
fn an_ambiguous_name_lists_the_paths() {
    let mut files = Files::new();
    files.insert("x/n".to_string(), vec![version("t", 1)]);
    files.insert("y/n".to_string(), vec![version("t", 1)]);
    let e = find_file(&files, "n").unwrap_err();
    assert!(matches!(e, HistoryError::SeveralFiles { .. }));
    assert_eq!(
        e.message(&clean),
        "'n' matches several files — name the path exactly:\n  x/n\n  y/n"
    );
    // A file with exactly that path is meant before those with the base name.
    files.insert("n".to_string(), vec![version("u", 2)]);
    assert_eq!(find_file(&files, "n").unwrap().0, "n");
}

#[test]
fn versions_are_chosen_by_time_or_tag() {
    let vs = vec![
        version("2026-08-02T14:36:47+02:00", 3),
        version("2026-08-02T09:00:12+02:00", 2),
        version("odd", 1),
    ];
    assert_eq!(choose_version("f", &vs, Some(" 2026-08-02T14 ")).unwrap().size, 3);
    assert_eq!(choose_version("f", &vs, Some("2026-08-02 09:00:12")).unwrap().size, 2);
    assert_eq!(choose_version("f", &vs, Some("2026-08-02T09:00:12+02:00")).unwrap().size, 2);
    assert_eq!(choose_version("f", &vs, Some("od")).unwrap().size, 1);
    let e = choose_version("f", &vs, Some("2026-08-02")).unwrap_err();
    assert!(matches!(e, HistoryError::SeveralVersions { .. }));
    assert_eq!(
        e.message(&clean),
        "'2026-08-02' matches 2 versions — be more precise:\n  2026-08-02 14:36:47\n  2026-08-02 09:00:12"
    );
    let e = choose_version("f", &vs, Some("2027")).unwrap_err();
    assert!(matches!(e, HistoryError::NoMatch { .. }));
    assert_eq!(
        e.message(&clean),
        "no version of 'f' at '2027' — run `byteferret history <folder> f` to see the times."
    );
    let e = choose_version("f", &vec![], None).unwrap_err();
    assert!(matches!(e, HistoryError::NoVersions { .. }));
    assert_eq!(e.message(&clean), "'f' has no archived versions");
}

#[test]
fn history_lists_all_files() {
    let out = history("va\u{7}ult", "vault-x1", &sample(), None, &clean).unwrap();
    assert_eq!(
        out.lines,
        vec![
            "vault — 4 version(s) across 2 file(s):",
            "",
            "  a.md",
            "    2026-08-03 00:00:00   1 B",
            "",
            "  sub/todo.md",
            "    2026-08-02 14:36:47   2.0 KB",
            "    2026-08-01 09:00:12   100 B",
            "    2026-07-30 00:00:00   0 B",
            "",
            "Restore one with:  byteferret restore vault <file> [--at <time>]",
        ]
    );
    assert_eq!(
        out.doc,
        doc(r#"{
            "ok": true, "action": "history", "name": "va\u0007ult", "folderId": "vault-x1",
            "files": [
                {"file": "a.md", "versions": [{"time": "2026-08-03T00:00:00Z", "size": 1}]},
                {"file": "sub/todo.md", "versions": [
                    {"time": "2026-08-02T14:36:47+02:00", "size": 2048},
                    {"time": "2026-08-01T09:00:12+02:00", "size": 100},
                    {"time": "2026-07-30T00:00:00+02:00", "size": 0}
                ]}
            ]
        }"#)
    );
}

#[test]
fn history_lists_one_file() {
    let out = history("vault", "vault-x1", &sample(), Some("a.md"), &clean).unwrap();
    assert_eq!(out.lines[0], "vault — 1 version(s) across 1 file(s):");
    assert_eq!(out.lines.len(), 6);
    assert!(history("vault", "vault-x1", &sample(), Some("b.md"), &clean).is_err());
}

#[test]
fn no_history_is_explained() {
    let out = history("vault", "vault-x1", &Files::new(), None, &clean).unwrap();
    assert_eq!(
        out.lines,
        vec![
            "No history for 'vault' yet.",
            "",
            "Versions are recorded only when a change arrives from a paired device — your own",
            "local edits here are not versioned on this machine. It is also forward-only, so",
            "nothing from before history was enabled can be recovered.",
        ]
    );
    assert_eq!(
        out.doc,
        doc(r#"{"ok": true, "action": "history", "name": "vault", "folderId": "vault-x1", "files": []}"#)
    );
}

#[test]
fn a_restore_is_planned_by_file_and_time() {
    let files = sample();
    let p = plan_restore(&files, "todo.md", None).unwrap();
    assert_eq!((p.path.as_str(), p.tag.as_str()), ("sub/todo.md", "2026-08-02T14:36:47+02:00"));
    let p = plan_restore(&files, "todo.md", Some("2026-07")).unwrap();
    assert_eq!(p.tag, "2026-07-30T00:00:00+02:00");
    assert!(plan_restore(&files, "nope", None).is_err());
    assert!(plan_restore(&files, "todo.md", Some("2020")).is_err());
    assert_eq!(restore_picks(&p), doc(r#"{"sub/todo.md": "2026-07-30T00:00:00+02:00"}"#));
}

#[test]
fn a_yes_begins_with_y() {
    for answer in ["y", "Y", " yes\n", "yup"] {
        assert!(is_yes(answer));
    }
    for answer in ["", "\n", "n", "no y", "1"] {
        assert!(!is_yes(answer));
    }
}

#[test]
fn json_mode_does_not_ask() {
    let p = plan("f\u{7}", "2026-08-02T14:36:47+02:00");
    let e = confirm_restore(&p, true, &clean).unwrap_err();
    assert!(matches!(e, HistoryError::NeedsYes { .. }));
    assert_eq!(
        e.message(&clean),
        "refusing to restore 'f\u{7}' without --yes (there is no prompt in --json mode)"
    );
    assert_eq!(
        confirm_restore(&p, false, &clean).unwrap(),
        "Restore 'f' to its version from 2026-08-02 14:36:47? The current copy is archived first. [y/N] "
    );
}

#[test]
fn a_restore_asks_sends_and_tells() {
    let p = plan("sub/f.md", "2026-08-02T14:36:47+02:00");
    let step = |event: RestoreEvent| restore(&p, "vault", "vault-x1", &event, &clean);
    match step(RestoreEvent::Begin { yes: false, json_mode: false }) {
        Ok(RestoreStep::Ask { question }) => {
            assert!(question.starts_with("Restore 'sub/f.md' to its version from"))
        },
        _ => panic!(),
    }
    match step(RestoreEvent::Begin { yes: true, json_mode: true }) {
        Ok(RestoreStep::Send { picks }) => {
            assert_eq!(picks, doc(r#"{"sub/f.md": "2026-08-02T14:36:47+02:00"}"#))
        },
        _ => panic!(),
    }
    match step(RestoreEvent::Answer { line: "y\n".to_string() }) {
        Ok(RestoreStep::Send { .. }) => {},
        _ => panic!(),
    }
    match step(RestoreEvent::Answer { line: "\n".to_string() }) {
        Ok(RestoreStep::Finish { output }) => {
            assert_eq!(output.lines, vec!["Aborted — nothing changed."]);
            assert_eq!(output.doc, doc(r#"{"ok": true, "action": "restore", "restored": false}"#));
        },
        _ => panic!(),
    }
    match step(RestoreEvent::Outcome { result: doc(r#"{"sub/f.md": ""}"#) }) {
        Ok(RestoreStep::Finish { output }) => {
            assert_eq!(
                output.lines,
                vec![
                    "Restored 'sub/f.md' in 'vault' to its version from 2026-08-02 14:36:47.",
                    "  the copy it replaced was archived, so you can restore back to it the same way",
                ]
            );
            assert_eq!(
                output.doc,
                doc(r#"{
                    "ok": true, "action": "restore", "restored": true, "name": "vault",
                    "folderId": "vault-x1", "file": "sub/f.md",
                    "time": "2026-08-02T14:36:47+02:00"
                }"#)
            );
        },
        _ => panic!(),
    }
    assert!(matches!(
        step(RestoreEvent::Outcome { result: Value::Null }),
        Ok(RestoreStep::Finish { .. })
    ));
    match step(RestoreEvent::Begin { yes: false, json_mode: true }) {
        Err(e) => assert!(matches!(e, HistoryError::NeedsYes { .. })),
        _ => panic!(),
    }
    match step(RestoreEvent::Outcome { result: doc(r#"{"sub/f.md": "no such \u0007version"}"#) }) {
        Err(e) => {
            assert!(matches!(e, HistoryError::Refused { .. }));
            assert_eq!(
                e.message(&clean),
                "Syncthing could not restore 'sub/f.md': no such version"
            );
        },
        _ => panic!(),
    }
}

#[test]
fn a_failure_is_a_document() {
    assert_eq!(failure_doc("it \"broke\""), doc(r#"{"ok": false, "error": "it \"broke\""}"#));
}
