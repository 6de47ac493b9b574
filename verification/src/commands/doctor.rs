//! `byteferret doctor` — a one-shot health check over the agent's moving parts: the
//! managed Syncthing binary, config + secrets (and their permissions), the running
//! process + REST endpoint, the vault folder, peer connectivity, and any
//! sync-conflict files. With `--fix` it applies the safe, obvious repairs (tighten
//! secrets permissions, start a stopped agent, enable local file history on folders
//! that lack it).
//!
//! A run fails when any check FAILs, so `doctor` is usable in scripts and CI as a
//! readiness gate.

use serde_json::Value;
use vstd::prelude::*;
use vstd::string::*;

use crate::agent;
use crate::agent::{PeerSync, PeerView, ShareState};
use crate::json;
use crate::json::Json;
use crate::output;
use crate::output::{Output, OutputView};
use crate::text;

verus! {

/// How well a check went.
#[derive(Clone, Copy, PartialEq, Eq, Debug, Structural)]
pub enum Level {
    Okay,
    Warn,
    Fail,
}

/// The word for a level.
pub open spec fn level_tag(l: Level) -> Seq<char> {
    match l {
        Level::Okay => "ok"@,
        Level::Warn => "warn"@,
        Level::Fail => "FAIL"@,
    }
}

/// The mark for a level.
pub open spec fn level_glyph(l: Level) -> char {
    match l {
        Level::Okay => '✓',
        Level::Warn => '!',
        Level::Fail => '✗',
    }
}

impl Level {
    /// The word for the level.
    pub fn tag(self) -> (r: &'static str)
        ensures
            r@ == level_tag(self),
    {
        match self {
            Level::Okay => "ok",
            Level::Warn => "warn",
            Level::Fail => "FAIL",
        }
    }

    /// The mark for the level.
    pub fn glyph(self) -> (r: char)
        ensures
            r == level_glyph(self),
    {
        match self {
            Level::Okay => '✓',
            Level::Warn => '!',
            Level::Fail => '✗',
        }
    }
}

/// The result of a check.
#[derive(Debug)]
pub struct Check {
    pub level: Level,
    pub name: String,
    pub detail: String,
    pub hint: Option<String>,
}

/// What a check says.
pub struct CheckView {
    pub level: Level,
    pub name: Seq<char>,
    pub detail: Seq<char>,
    pub hint: Option<Seq<char>>,
}

impl View for Check {
    type V = CheckView;

    open spec fn view(&self) -> CheckView {
        CheckView {
            level: self.level,
            name: self.name@,
            detail: self.detail@,
            hint: match self.hint {
                Some(h) => Some(h@),
                None => None,
            },
        }
    }
}

/// What the checks of a list say.
pub open spec fn check_views(cs: Seq<Check>) -> Seq<CheckView> {
    cs.map_values(|c: Check| c@)
}

/// A check without a hint.
pub open spec fn check(level: Level, name: Seq<char>, detail: Seq<char>) -> CheckView {
    CheckView { level, name, detail, hint: None }
}

/// A check with a hint.
pub open spec fn hinted(
    level: Level,
    name: Seq<char>,
    detail: Seq<char>,
    hint: Seq<char>,
) -> CheckView {
    CheckView { level, name, detail, hint: Some(hint) }
}

impl Check {
    pub fn new(level: Level, name: &str, detail: String) -> (r: Check)
        ensures
            r@ == check(level, name@, detail@),
    {
        Check { level, name: name.to_owned(), detail, hint: None }
    }

    pub fn with_hint(self, hint: &str) -> (r: Check)
        ensures
            r@ == (CheckView { hint: Some(hint@), ..self@ }),
    {
        Check { level: self.level, name: self.name, detail: self.detail, hint: Some(hint.to_owned()) }
    }
}

/// No group/other bits are set.
pub open spec fn owner_only(mode: u32) -> bool {
    mode % 0o100 == 0
}

/// A secrets file is well-permissioned iff no group/other bits are set (0600).
pub fn perms_ok(mode: u32) -> (r: bool)
    ensures
        r == owner_only(mode),
{
    assert(mode & 0o077 == mode % 0o100) by (bit_vector);
    mode & 0o077 == 0
}

/// The permission bits of a file's mode.
pub(crate) fn permissions(mode: u32) -> (r: u32)
    ensures
        r == mode % 0o1000,
{
    assert(mode & 0o777 == mode % 0o1000) by (bit_vector);
    mode & 0o777
}

/// The more severe of two levels.
pub open spec fn worse(a: Level, b: Level) -> Level {
    if a == Level::Fail || b == Level::Fail {
        Level::Fail
    } else if a == Level::Warn || b == Level::Warn {
        Level::Warn
    } else {
        Level::Okay
    }
}

/// The worst level in a set.
pub open spec fn worst_of(levels: Seq<Level>) -> Level
    decreases levels.len(),
{
    if levels.len() == 0 {
        Level::Okay
    } else {
        worse(worst_of(levels.drop_last()), levels.last())
    }
}

/// The worst level is one of the set, or Okay where there is none, and no level of the
/// set is more severe.
pub proof fn worst_is_the_most_severe(levels: Seq<Level>)
    ensures
        worst_of(levels) == Level::Fail <==> levels.contains(Level::Fail),
        worst_of(levels) == Level::Okay <==> forall|i: int|
            0 <= i < levels.len() ==> #[trigger] levels[i] == Level::Okay,
        worst_of(levels) == Level::Warn <==> levels.contains(Level::Warn) && !levels.contains(
            Level::Fail,
        ),
    decreases levels.len(),
{
    if levels.len() > 0 {
        let rest = levels.drop_last();
        worst_is_the_most_severe(rest);
        assert(levels =~= rest.push(levels.last()));
        assert forall|l: Level| #[trigger] levels.contains(l) <==> rest.contains(l) || levels.last()
            == l by {
            if rest.contains(l) {
                let i = choose|i: int| 0 <= i < rest.len() && rest[i] == l;
                assert(levels[i] == l);
            }
            if levels.contains(l) && levels.last() != l {
                let i = choose|i: int| 0 <= i < levels.len() && levels[i] == l;
                assert(rest[i] == l);
            }
            assert(levels[levels.len() - 1] == levels.last());
        }
        if forall|i: int| 0 <= i < levels.len() ==> #[trigger] levels[i] == Level::Okay {
            assert forall|i: int| 0 <= i < rest.len() implies #[trigger] rest[i] == Level::Okay by {
                assert(levels[i] == rest[i]);
            }
            assert(levels[levels.len() - 1] == Level::Okay);
        }
        if worst_of(levels) == Level::Okay {
            assert forall|i: int| 0 <= i < levels.len() implies #[trigger] levels[i]
                == Level::Okay by {
                if i < rest.len() {
                    assert(levels[i] == rest[i]);
                }
            }
        }
    }
}

/// The worst level in a set — drives the exit status and headline.
pub fn worst(levels: &[Level]) -> (r: Level)
    ensures
        r == worst_of(levels@),
{
    let mut acc = Level::Okay;
    let mut i: usize = 0;
    while i < levels.len()
        invariant
            i <= levels@.len(),
            acc == worst_of(levels@.take(i as int)),
        decreases levels@.len() - i,
    {
        assert(levels@.take(i + 1).drop_last() =~= levels@.take(i as int));
        acc = match (acc, levels[i]) {
            (Level::Fail, _) | (_, Level::Fail) => Level::Fail,
            (Level::Warn, _) | (_, Level::Warn) => Level::Warn,
            _ => Level::Okay,
        };
        i += 1;
    }
    assert(levels@.take(i as int) =~= levels@);
    acc
}

/// A folder's configuration, with what this machine knows of it.
#[derive(Debug)]
pub struct FolderFacts {
    /// The configuration, as Syncthing has it.
    pub config: Value,
    /// The name that people know the folder by.
    pub name: String,
    /// Whether there is a directory at the configured path.
    pub on_disk: bool,
}

/// What a live REST endpoint tells.
#[derive(Debug)]
pub enum RestFacts {
    Unreachable { why: String },
    Reachable {
        version: String,
        folders: Vec<FolderFacts>,
        peers: Vec<PeerSync>,
        /// How many sync-conflict files there are in the folders.
        conflicts: usize,
    },
}

/// What is known of the running agent.
#[derive(Debug)]
pub enum AgentFacts {
    /// Its state could not be loaded.
    Unknown,
    Stopped,
    Running { gui_address: String, rest: RestFacts },
}

/// What a health check looks at.
#[derive(Debug)]
pub struct Facts {
    /// The version of Syncthing that is used.
    pub pinned_version: String,
    /// Whether it has been downloaded.
    pub binary_present: bool,
    /// Where the config is, where there is one.
    pub config_file: Option<String>,
    /// The mode of the secrets file, where there is one.
    pub secrets_mode: Option<u32>,
    pub agent: AgentFacts,
}

/// The check of the Syncthing binary.
pub open spec fn binary_check(present: bool, version: Seq<char>) -> CheckView {
    if present {
        check(Level::Okay, "syncthing binary"@, "present (pinned v"@ + version + ")"@)
    } else {
        hinted(
            Level::Fail,
            "syncthing binary"@,
            "not downloaded yet"@,
            "run `byteferret start` — it downloads the pinned Syncthing on first use"@,
        )
    }
}

/// The check of the config file.
pub open spec fn config_check(config_file: Option<String>) -> CheckView {
    match config_file {
        Some(path) => check(Level::Okay, "config"@, path@),
        None => hinted(
            Level::Warn,
            "config"@,
            "no config.toml yet"@,
            "run `byteferret init <path>` to register a folder"@,
        ),
    }
}

/// The check of the secrets file.
pub open spec fn secrets_check(mode: Option<u32>) -> CheckView {
    match mode {
        Some(mode) => if owner_only((mode % 0o1000) as u32) {
            check(Level::Okay, "secrets perms"@, "0600"@)
        } else {
            hinted(
                Level::Fail,
                "secrets perms"@,
                text::octal4((mode % 0o1000) as nat) + " (should be 0600)"@,
                "run `byteferret doctor --fix` to correct it"@,
            )
        },
        None => check(Level::Warn, "secrets"@, "not created yet (agent never started)"@),
    }
}

/// The folder has a path, and there is no directory at it.
pub open spec fn is_missing(f: FolderFacts) -> bool {
    json::json(f.config).member_text("path"@) is Some && !f.on_disk
}

/// The kind of history that a folder keeps.
pub open spec fn history_kind(config: Json) -> Option<Seq<char>> {
    match config.member("versioning"@) {
        Some(v) => v.member_text("type"@),
        None => None,
    }
}

/// The folder was created before history was enabled: it keeps none.
pub open spec fn keeps_no_history(f: FolderFacts) -> bool {
    match history_kind(json::json(f.config)) {
        Some(kind) => kind.len() == 0,
        None => true,
    }
}

/// The names of the folders that have an id and satisfy `pred`.
pub open spec fn names_where(
    fs: Seq<FolderFacts>,
    pred: spec_fn(FolderFacts) -> bool,
) -> Seq<Seq<char>>
    decreases fs.len(),
{
    if fs.len() == 0 {
        seq![]
    } else {
        let rest = names_where(fs.drop_last(), pred);
        if pred(fs.last()) && json::json(fs.last().config).member_text("id"@) is Some {
            rest.push(fs.last().name@)
        } else {
            rest
        }
    }
}

/// The names of the folders whose directory is missing.
pub open spec fn missing_names(fs: Seq<FolderFacts>) -> Seq<Seq<char>> {
    names_where(fs, |f: FolderFacts| is_missing(f))
}

/// The names of the folders without history.
pub open spec fn historyless_names(fs: Seq<FolderFacts>) -> Seq<Seq<char>> {
    names_where(fs, |f: FolderFacts| keeps_no_history(f))
}

/// The checks of the folders.
pub open spec fn folder_checks(fs: Seq<FolderFacts>) -> Seq<CheckView> {
    let missing = missing_names(fs);
    let without = historyless_names(fs);
    if fs.len() == 0 {
        seq![
            hinted(
                Level::Warn,
                "folders"@,
                "none registered"@,
                "run `byteferret init <path>` to sync a directory"@,
            ),
        ]
    } else if missing.len() > 0 {
        seq![
            hinted(
                Level::Fail,
                "folders"@,
                text::decimal(missing.len()) + " folder(s) point at a missing directory: "@
                    + text::joined(missing, ", "@),
                "re-create the directory or run `byteferret init <path> --existing`"@,
            ),
        ]
    } else {
        seq![
            check(Level::Okay, "folders"@, text::decimal(fs.len()) + " registered"@),
            if without.len() == 0 {
                check(Level::Okay, "file history"@, "staggered on all folders"@)
            } else {
                hinted(
                    Level::Warn,
                    "file history"@,
                    text::decimal(without.len()) + " folder(s) keep no local history: "@
                        + text::joined(without, ", "@),
                    "run `byteferret doctor --fix` to enable staggered versioning"@,
                )
            },
        ]
    }
}

/// How many peers are connected.
pub open spec fn connected_count(peers: Seq<PeerView>) -> nat {
    peers.filter(|p: PeerView| p.connected).len()
}

/// The peers in a state.
pub open spec fn peers_in(peers: Seq<PeerView>, state: ShareState) -> Seq<PeerView> {
    peers.filter(|p: PeerView| p.state == state)
}

/// What peers are called, as far as it may be shown.
pub open spec fn shown_labels(
    peers: Seq<PeerView>,
    clean: spec_fn(Seq<char>) -> Seq<char>,
) -> Seq<Seq<char>> {
    peers.map_values(|p: PeerView| clean(p.label))
}

/// What is found where connected peers never shared a folder back.
pub open spec fn stall_check(
    peers: Seq<PeerView>,
    clean: spec_fn(Seq<char>) -> Seq<char>,
) -> CheckView {
    let stalled = peers_in(peers, ShareState::NotSharingBack);
    hinted(
        Level::Warn,
        "folder share"@,
        text::decimal(stalled.len()) + " connected peer(s) not sharing a folder back: "@
            + text::joined(shown_labels(stalled, clean), ", "@),
        "on that machine run `byteferret pair --with <this-device-id> --folder <name>` to share the folder back"@,
    )
}

/// What is found where every connected peer shares back.
pub open spec fn both_ways_check(connected: nat) -> CheckView {
    check(
        Level::Okay,
        "folder share"@,
        "shared both ways with "@ + text::decimal(connected) + " peer(s)"@,
    )
}

/// The check that catches the silent stall: a peer is connected, so `peers` looks
/// fine, but it never shared a folder back — so nothing ever syncs.
pub open spec fn share_check(
    peers: Seq<PeerView>,
    clean: spec_fn(Seq<char>) -> Seq<char>,
) -> CheckView {
    let stalled = peers_in(peers, ShareState::NotSharingBack);
    let establishing = peers_in(peers, ShareState::Establishing);
    if stalled.len() > 0 {
        stall_check(peers, clean)
    } else if establishing.len() > 0 {
        hinted(
            Level::Warn,
            "folder share"@,
            text::decimal(establishing.len())
                + " peer(s) still establishing the share (connected, not yet in sync): "@
                + text::joined(shown_labels(establishing, clean), ", "@),
            "give it a moment and re-check `byteferret status`; if it persists, run `byteferret pair --with <this-device-id> --folder <name>` on that machine"@,
        )
    } else {
        both_ways_check(connected_count(peers))
    }
}

/// The checks of the peers.
pub open spec fn peer_checks(
    peers: Seq<PeerView>,
    clean: spec_fn(Seq<char>) -> Seq<char>,
) -> Seq<CheckView> {
    let connected = connected_count(peers);
    if peers.len() == 0 {
        seq![
            hinted(
                Level::Warn,
                "peers"@,
                "none paired"@,
                "get this device's id with `byteferret status`, then `byteferret pair --with <id>` on the other machine"@,
            ),
        ]
    } else {
        let counted = text::decimal(connected) + "/"@ + text::decimal(peers.len()) + " connected"@;
        if connected > 0 {
            seq![check(Level::Okay, "peers"@, counted), share_check(peers, clean)]
        } else {
            seq![check(Level::Warn, "peers"@, counted)]
        }
    }
}

/// The check of the conflicts, where there are any.
pub open spec fn conflict_checks(count: nat) -> Seq<CheckView> {
    if count > 0 {
        seq![
            hinted(
                Level::Warn,
                "conflicts"@,
                text::decimal(count) + " sync-conflict file(s)"@,
                "open both copies, merge, then delete the *.sync-conflict-* file"@,
            ),
        ]
    } else {
        seq![]
    }
}

/// The checks that need a live REST endpoint.
pub open spec fn rest_checks(
    rest: RestFacts,
    clean: spec_fn(Seq<char>) -> Seq<char>,
) -> Seq<CheckView> {
    match rest {
        RestFacts::Unreachable { why } => seq![
            check(Level::Fail, "syncthing REST"@, "unreachable: "@ + why@),
        ],
        RestFacts::Reachable { version, folders, peers, conflicts } => seq![
            check(Level::Okay, "syncthing REST"@, "reachable (v"@ + version@ + ")"@),
        ] + folder_checks(folders@) + peer_checks(agent::peer_views(peers@), clean)
            + conflict_checks(conflicts as nat),
    }
}

/// The checks of the running agent.
pub open spec fn agent_checks(
    a: AgentFacts,
    clean: spec_fn(Seq<char>) -> Seq<char>,
) -> Seq<CheckView> {
    match a {
        AgentFacts::Unknown => seq![check(Level::Fail, "state"@, "could not load agent state"@)],
        AgentFacts::Stopped => seq![
            hinted(
                Level::Warn,
                "agent"@,
                "stopped"@,
                "run `byteferret start` (or `byteferret doctor --fix`)"@,
            ),
        ],
        AgentFacts::Running { gui_address, rest } => seq![
            check(Level::Okay, "agent"@, "running ("@ + gui_address@ + ")"@),
        ] + rest_checks(rest, clean),
    }
}

/// All checks, in their order.
pub open spec fn all_checks(f: Facts, clean: spec_fn(Seq<char>) -> Seq<char>) -> Seq<CheckView> {
    seq![
        binary_check(f.binary_present, f.pinned_version@),
        config_check(f.config_file),
        secrets_check(f.secrets_mode),
    ] + agent_checks(f.agent, clean)
}

fn push_check(checks: &mut Vec<Check>, c: Check)
    ensures
        check_views(final(checks)@) == check_views(old(checks)@).push(c@),
{
    checks.push(c);
    assert(check_views(checks@) =~= check_views(old(checks)@).push(c@));
}

fn folder_is_missing(f: &FolderFacts) -> (r: bool)
    ensures
        r == is_missing(*f),
{
    match json::member_text(&f.config, "path") {
        Some(_) => !f.on_disk,
        None => false,
    }
}

fn folder_keeps_no_history(f: &FolderFacts) -> (r: bool)
    ensures
        r == keeps_no_history(*f),
{
    match json::get_member(&f.config, "versioning") {
        Some(v) => match json::member_text(v, "type") {
            Some(kind) => kind.is_empty(),
            None => true,
        },
        None => true,
    }
}

fn folder_has_id(f: &FolderFacts) -> (r: bool)
    ensures
        r == (json::json(f.config).member_text("id"@) is Some),
{
    match json::member_text(&f.config, "id") {
        Some(_) => true,
        None => false,
    }
}

fn names_of_missing(folders: &Vec<FolderFacts>) -> (r: Vec<String>)
    ensures
        text::texts(r@) == missing_names(folders@),
{
    let ghost pred = |f: FolderFacts| is_missing(f);
    let mut names: Vec<String> = Vec::new();
    let mut i: usize = 0;
    assert(text::texts(names@) =~= names_where(folders@.take(0), pred));
    while i < folders.len()
        invariant
            i <= folders@.len(),
            pred == (|f: FolderFacts| is_missing(f)),
            text::texts(names@) == names_where(folders@.take(i as int), pred),
        decreases folders@.len() - i,
    {
        assert(folders@.take(i + 1).drop_last() =~= folders@.take(i as int));
        if folder_is_missing(&folders[i]) && folder_has_id(&folders[i]) {
            output::say(&mut names, folders[i].name.clone());
        }
        i += 1;
    }
    assert(folders@.take(i as int) =~= folders@);
    names
}

fn names_of_historyless(folders: &Vec<FolderFacts>) -> (r: Vec<String>)
    ensures
        text::texts(r@) == historyless_names(folders@),
{
    let ghost pred = |f: FolderFacts| keeps_no_history(f);
    let mut names: Vec<String> = Vec::new();
    let mut i: usize = 0;
    assert(text::texts(names@) =~= names_where(folders@.take(0), pred));
    while i < folders.len()
        invariant
            i <= folders@.len(),
            pred == (|f: FolderFacts| keeps_no_history(f)),
            text::texts(names@) == names_where(folders@.take(i as int), pred),
        decreases folders@.len() - i,
    {
        assert(folders@.take(i + 1).drop_last() =~= folders@.take(i as int));
        if folder_keeps_no_history(&folders[i]) && folder_has_id(&folders[i]) {
            output::say(&mut names, folders[i].name.clone());
        }
        i += 1;
    }
    assert(folders@.take(i as int) =~= folders@);
    names
}

fn push_folder_checks(checks: &mut Vec<Check>, folders: &Vec<FolderFacts>)
    ensures
        check_views(final(checks)@) == check_views(old(checks)@) + folder_checks(folders@),
{
    let ghost before = check_views(checks@);
    if folders.len() == 0 {
        push_check(
            checks,
            Check::new(Level::Warn, "folders", "none registered".to_owned()).with_hint(
                "run `byteferret init <path>` to sync a directory",
            ),
        );
        assert(check_views(checks@) =~= before + folder_checks(folders@));
        return;
    }
    let missing = names_of_missing(folders);
    assert(missing@.len() == missing_names(folders@).len());
    if missing.len() > 0 {
        let mut detail = text::decimal_text(missing.len() as u128);
        detail.append(" folder(s) point at a missing directory: ");
        detail.append(text::join(&missing, ", ").as_str());
        push_check(
            checks,
            Check::new(Level::Fail, "folders", detail).with_hint(
                "re-create the directory or run `byteferret init <path> --existing`",
            ),
        );
        assert(check_views(checks@) =~= before + folder_checks(folders@));
        return;
    }
    let mut detail = text::decimal_text(folders.len() as u128);
    detail.append(" registered");
    push_check(checks, Check::new(Level::Okay, "folders", detail));
    // Folders created before versioning was enabled keep no history.
    let without = names_of_historyless(folders);
    assert(without@.len() == historyless_names(folders@).len());
    if without.len() == 0 {
        push_check(
            checks,
            Check::new(Level::Okay, "file history", "staggered on all folders".to_owned()),
        );
    } else {
        let mut detail = text::decimal_text(without.len() as u128);
        detail.append(" folder(s) keep no local history: ");
        detail.append(text::join(&without, ", ").as_str());
        push_check(
            checks,
            Check::new(Level::Warn, "file history", detail).with_hint(
                "run `byteferret doctor --fix` to enable staggered versioning",
            ),
        );
    }
    assert(check_views(checks@) =~= before + folder_checks(folders@));
}

fn count_connected(peers: &Vec<PeerSync>) -> (r: usize)
    ensures
        r == connected_count(agent::peer_views(peers@)),
{
    let ghost all = agent::peer_views(peers@);
    let ghost pred = |p: PeerView| p.connected;
    let mut count: usize = 0;
    let mut i: usize = 0;
    assert(all.take(0).filter(pred).len() == 0) by {
        reveal(Seq::filter);
    }
    while i < peers.len()
        invariant
            i <= peers@.len(),
            count <= i,
            all == agent::peer_views(peers@),
            pred == (|p: PeerView| p.connected),
            count == all.take(i as int).filter(pred).len(),
        decreases peers@.len() - i,
    {
        proof {
            reveal(Seq::filter);
            assert(all.take(i + 1).drop_last() =~= all.take(i as int));
            assert(all.take(i + 1).last() == peers@[i as int]@);
        }
        if peers[i].connected {
            count += 1;
        }
        i += 1;
    }
    assert(all.take(i as int) =~= all);
    count
}

fn labels_in<F: Fn(&str) -> String>(
    peers: &Vec<PeerSync>,
    state: ShareState,
    sanitize: &F,
) -> (r: Vec<String>)
    requires
        output::sanitizer(*sanitize),
    ensures
        text::texts(r@) == shown_labels(
            peers_in(agent::peer_views(peers@), state),
            output::cleaner(*sanitize),
        ),
        r@.len() == peers_in(agent::peer_views(peers@), state).len(),
{
    let ghost all = agent::peer_views(peers@);
    let ghost clean = output::cleaner(*sanitize);
    let ghost pred = |p: PeerView| p.state == state;
    let mut labels: Vec<String> = Vec::new();
    let mut i: usize = 0;
    assert(text::texts(labels@) =~= shown_labels(all.take(0).filter(pred), clean)) by {
        reveal(Seq::filter);
    }
    while i < peers.len()
        invariant
            i <= peers@.len(),
            output::sanitizer(*sanitize),
            clean == output::cleaner(*sanitize),
            all == agent::peer_views(peers@),
            pred == (|p: PeerView| p.state == state),
            text::texts(labels@) == shown_labels(all.take(i as int).filter(pred), clean),
        decreases peers@.len() - i,
    {
        let ghost before = all.take(i as int).filter(pred);
        proof {
            reveal(Seq::filter);
            assert(all.take(i + 1).drop_last() =~= all.take(i as int));
            assert(all.take(i + 1).last() == peers@[i as int]@);
        }
        if peers[i].state == state {
            output::say(&mut labels, output::cleaned(sanitize, peers[i].label.as_str()));
            assert(shown_labels(before.push(peers@[i as int]@), clean) =~= shown_labels(
                before,
                clean,
            ).push(clean(peers@[i as int]@.label)));
        }
        i += 1;
    }
    assert(all.take(i as int) =~= all);
    assert(peers_in(all, state) == all.filter(pred));
    assert(text::texts(labels@).len() == labels@.len());
    labels
}

fn share_check_of<F: Fn(&str) -> String>(
    peers: &Vec<PeerSync>,
    connected: usize,
    sanitize: &F,
) -> (r: Check)
    requires
        output::sanitizer(*sanitize),
        connected == connected_count(agent::peer_views(peers@)),
    ensures
        r@ == share_check(agent::peer_views(peers@), output::cleaner(*sanitize)),
{
    let stalled = labels_in(peers, ShareState::NotSharingBack, sanitize);
    if stalled.len() > 0 {
        let mut detail = text::decimal_text(stalled.len() as u128);
        detail.append(" connected peer(s) not sharing a folder back: ");
        detail.append(text::join(&stalled, ", ").as_str());
        return Check::new(Level::Warn, "folder share", detail).with_hint(
            "on that machine run `byteferret pair --with <this-device-id> --folder <name>` to share the folder back",
        );
    }
    let establishing = labels_in(peers, ShareState::Establishing, sanitize);
    if establishing.len() > 0 {
        let mut detail = text::decimal_text(establishing.len() as u128);
        detail.append(" peer(s) still establishing the share (connected, not yet in sync): ");
        detail.append(text::join(&establishing, ", ").as_str());
        return Check::new(Level::Warn, "folder share", detail).with_hint(
            "give it a moment and re-check `byteferret status`; if it persists, run `byteferret pair --with <this-device-id> --folder <name>` on that machine",
        );
    }
    let mut detail = "shared both ways with ".to_owned();
    detail.append(text::decimal_text(connected as u128).as_str());
    detail.append(" peer(s)");
    Check::new(Level::Okay, "folder share", detail)
}

fn push_peer_checks<F: Fn(&str) -> String>(
    checks: &mut Vec<Check>,
    peers: &Vec<PeerSync>,
    sanitize: &F,
)
    requires
        output::sanitizer(*sanitize),
    ensures
        check_views(final(checks)@) == check_views(old(checks)@) + peer_checks(
            agent::peer_views(peers@),
            output::cleaner(*sanitize),
        ),
{
    let ghost before = check_views(checks@);
    let ghost expected = peer_checks(agent::peer_views(peers@), output::cleaner(*sanitize));
    if peers.len() == 0 {
        push_check(
            checks,
            Check::new(Level::Warn, "peers", "none paired".to_owned()).with_hint(
                "get this device's id with `byteferret status`, then `byteferret pair --with <id>` on the other machine",
            ),
        );
        assert(check_views(checks@) =~= before + expected);
        return;
    }
    let connected = count_connected(peers);
    let level = if connected > 0 {
        Level::Okay
    } else {
        Level::Warn
    };
    let mut detail = text::decimal_text(connected as u128);
    detail.append("/");
    detail.append(text::decimal_text(peers.len() as u128).as_str());
    detail.append(" connected");
    push_check(checks, Check::new(level, "peers", detail));
    if connected > 0 {
        push_check(checks, share_check_of(peers, connected, sanitize));
    }
    assert(check_views(checks@) =~= before + expected);
}

fn push_rest_checks<F: Fn(&str) -> String>(
    checks: &mut Vec<Check>,
    rest: &RestFacts,
    sanitize: &F,
)
    requires
        output::sanitizer(*sanitize),
    ensures
        check_views(final(checks)@) == check_views(old(checks)@) + rest_checks(
            *rest,
            output::cleaner(*sanitize),
        ),
{
    let ghost before = check_views(checks@);
    match rest {
        RestFacts::Unreachable { why } => {
            let mut detail = "unreachable: ".to_owned();
            detail.append(why.as_str());
            push_check(checks, Check::new(Level::Fail, "syncthing REST", detail));
        },
        RestFacts::Reachable { version, folders, peers, conflicts } => {
            let mut detail = "reachable (v".to_owned();
            detail.append(version.as_str());
            detail.append(")");
            push_check(checks, Check::new(Level::Okay, "syncthing REST", detail));
            push_folder_checks(checks, folders);
            push_peer_checks(checks, peers, sanitize);
            if *conflicts > 0 {
                let mut detail = text::decimal_text(*conflicts as u128);
                detail.append(" sync-conflict file(s)");
                push_check(
                    checks,
                    Check::new(Level::Warn, "conflicts", detail).with_hint(
                        "open both copies, merge, then delete the *.sync-conflict-* file",
                    ),
                );
            }
        },
    }
    assert(check_views(checks@) =~= before + rest_checks(*rest, output::cleaner(*sanitize)));
}

/// The checks of everything that is known: checks that need a live REST endpoint are
/// left out where there is none.
pub fn build_checks<F: Fn(&str) -> String>(f: &Facts, sanitize: &F) -> (r: Vec<Check>)
    requires
        output::sanitizer(*sanitize),
    ensures
        check_views(r@) == all_checks(*f, output::cleaner(*sanitize)),
{
    let ghost clean = output::cleaner(*sanitize);
    let mut checks: Vec<Check> = Vec::new();
    if f.binary_present {
        let mut detail = "present (pinned v".to_owned();
        detail.append(f.pinned_version.as_str());
        detail.append(")");
        push_check(&mut checks, Check::new(Level::Okay, "syncthing binary", detail));
    } else {
        push_check(
            &mut checks,
            Check::new(Level::Fail, "syncthing binary", "not downloaded yet".to_owned()).with_hint(
                "run `byteferret start` — it downloads the pinned Syncthing on first use",
            ),
        );
    }
    match &f.config_file {
        Some(path) => {
            push_check(&mut checks, Check::new(Level::Okay, "config", path.clone()));
        },
        None => {
            push_check(
                &mut checks,
                Check::new(Level::Warn, "config", "no config.toml yet".to_owned()).with_hint(
                    "run `byteferret init <path>` to register a folder",
                ),
            );
        },
    }
    match f.secrets_mode {
        Some(mode) => {
            let mode: u32 = permissions(mode);
            if perms_ok(mode) {
                push_check(&mut checks, Check::new(Level::Okay, "secrets perms", "0600".to_owned()));
            } else {
                let mut detail = text::octal4_text(mode);
                detail.append(" (should be 0600)");
                push_check(
                    &mut checks,
                    Check::new(Level::Fail, "secrets perms", detail).with_hint(
                        "run `byteferret doctor --fix` to correct it",
                    ),
                );
            }
        },
        None => {
            push_check(
                &mut checks,
                Check::new(
                    Level::Warn,
                    "secrets",
                    "not created yet (agent never started)".to_owned(),
                ),
            );
        },
    }
    let ghost top = seq![
        binary_check(f.binary_present, f.pinned_version@),
        config_check(f.config_file),
        secrets_check(f.secrets_mode),
    ];
    assert(check_views(checks@) =~= top);
    match &f.agent {
        AgentFacts::Unknown => {
            push_check(
                &mut checks,
                Check::new(Level::Fail, "state", "could not load agent state".to_owned()),
            );
        },
        AgentFacts::Stopped => {
            push_check(
                &mut checks,
                Check::new(Level::Warn, "agent", "stopped".to_owned()).with_hint(
                    "run `byteferret start` (or `byteferret doctor --fix`)",
                ),
            );
        },
        AgentFacts::Running { gui_address, rest } => {
            let mut detail = "running (".to_owned();
            detail.append(gui_address.as_str());
            detail.append(")");
            push_check(&mut checks, Check::new(Level::Okay, "agent", detail));
            push_rest_checks(&mut checks, rest, sanitize);
        },
    }
    assert(check_views(checks@) =~= all_checks(*f, clean));
    checks
}

/// The paths of the folders that have one, in the order of the folders.
pub open spec fn paths_in(configs: Seq<Json>) -> Seq<Seq<char>>
    decreases configs.len(),
{
    if configs.len() == 0 {
        seq![]
    } else {
        let rest = paths_in(configs.drop_last());
        match configs.last().member_text("path"@) {
            Some(path) => rest.push(path),
            None => rest,
        }
    }
}

/// The paths below which conflict files are counted: those of the folders that have one.
pub fn conflict_paths(folders: &Vec<Value>) -> (r: Vec<&str>)
    ensures
        r@.map_values(|s: &str| s@) == paths_in(json::jsons(folders@)),
{
    let ghost all = json::jsons(folders@);
    let mut out: Vec<&str> = Vec::new();
    let mut i: usize = 0;
    assert(out@.map_values(|s: &str| s@) =~= paths_in(all.take(0)));
    while i < folders.len()
        invariant
            i <= folders@.len(),
            all == json::jsons(folders@),
            out@.map_values(|s: &str| s@) == paths_in(all.take(i as int)),
        decreases folders@.len() - i,
    {
        assert(all.take(i + 1).drop_last() =~= all.take(i as int));
        assert(all.take(i + 1).last() == json::json(folders@[i as int]));
        let ghost before = out@.map_values(|s: &str| s@);
        match json::member_text(&folders[i], "path") {
            Some(path) => {
                out.push(path);
                assert(out@.map_values(|s: &str| s@) =~= before.push(path@));
            },
            None => {},
        }
        i += 1;
    }
    assert(all.take(i as int) =~= all);
    out
}

/// The sum of counts.
pub open spec fn total(counts: Seq<usize>) -> nat
    decreases counts.len(),
{
    if counts.len() == 0 {
        0
    } else {
        total(counts.drop_last()) + counts.last() as nat
    }
}

proof fn total_grows(counts: Seq<usize>, n: int)
    requires
        0 <= n <= counts.len(),
    ensures
        total(counts.take(n)) <= total(counts),
    decreases counts.len(),
{
    if n < counts.len() {
        total_grows(counts.drop_last(), n);
        assert(counts.drop_last().take(n) =~= counts.take(n));
    } else {
        assert(counts.take(n) =~= counts);
    }
}

/// How many conflict files there are, by how many there are below each path; `None` where
/// that is more than can be counted.
pub fn conflict_count(counts: &Vec<usize>) -> (r: Option<usize>)
    ensures
        match r {
            Some(n) => n == total(counts@),
            None => total(counts@) > usize::MAX,
        },
{
    let mut sum: usize = 0;
    let mut i: usize = 0;
    while i < counts.len()
        invariant
            i <= counts@.len(),
            sum == total(counts@.take(i as int)),
        decreases counts@.len() - i,
    {
        assert(counts@.take(i + 1).drop_last() =~= counts@.take(i as int));
        match sum.checked_add(counts[i]) {
            Some(more) => {
                sum = more;
            },
            None => {
                proof {
                    total_grows(counts@, i + 1);
                }
                return None;
            },
        }
        i += 1;
    }
    assert(counts@.take(i as int) =~= counts@);
    Some(sum)
}

/// What is shown of the repairs.
pub open spec fn fix_lines(fix: bool, fixes: Seq<Seq<char>>) -> Seq<Seq<char>> {
    if !fix {
        seq![]
    } else if fixes.len() == 0 {
        seq!["--fix: nothing to repair."@]
    } else {
        seq!["--fix applied:"@] + fixes.map_values(|f: Seq<char>| "  - "@ + f) + seq![""@]
    }
}

/// What is shown of a check: its hint too, where all is not well.
pub open spec fn check_lines(c: CheckView) -> Seq<Seq<char>> {
    let line = ("  "@.push(level_glyph(c.level)) + " "@ + text::padded(c.name, 16) + " "@
        + level_tag(c.level) + " — "@ + c.detail);
    match c.hint {
        Some(h) => if c.level != Level::Okay {
            seq![line, "      ↳ "@ + h]
        } else {
            seq![line]
        },
        None => seq![line],
    }
}

/// What is shown of the checks.
pub open spec fn checks_lines(cs: Seq<CheckView>) -> Seq<Seq<char>>
    decreases cs.len(),
{
    if cs.len() == 0 {
        seq![]
    } else {
        checks_lines(cs.drop_last()) + check_lines(cs.last())
    }
}

/// The levels of the checks.
pub open spec fn levels(cs: Seq<CheckView>) -> Seq<Level> {
    cs.map_values(|c: CheckView| c.level)
}

/// The headline.
pub open spec fn headline(overall: Level) -> Seq<char> {
    "overall: "@ + match overall {
        Level::Okay => "healthy"@,
        Level::Warn => "healthy with warnings"@,
        Level::Fail => "problems found"@,
    }
}

/// A check in the document.
pub open spec fn check_doc(c: CheckView) -> Json {
    Json::Object(
        map![
            "name"@ => Json::Text(c.name),
            "level"@ => Json::Text(level_tag(c.level)),
            "detail"@ => Json::Text(c.detail),
            "hint"@ => match c.hint {
                Some(h) => Json::Text(h),
                None => Json::Null,
            },
        ],
    )
}

/// What `doctor` shows and leaves.
pub open spec fn doctor_output(
    fix: bool,
    fixes: Seq<Seq<char>>,
    cs: Seq<CheckView>,
) -> OutputView {
    let overall = worst_of(levels(cs));
    OutputView {
        lines: fix_lines(fix, fixes) + checks_lines(cs) + seq![""@, headline(overall)],
        doc: Json::Object(
            map![
                "ok"@ => Json::Bool(overall != Level::Fail),
                "overall"@ => Json::Text(level_tag(overall)),
                "fixesApplied"@ => json::text_array(fixes),
                "checks"@ => Json::Array(cs.map_values(|c: CheckView| check_doc(c))),
            ],
        ),
    }
}

/// What comes of a health check.
pub struct Verdict {
    pub output: Output,
    /// Whether the run fails.
    pub failed: bool,
}

fn say_fixes(lines: &mut Vec<String>, fix: bool, fixes: &Vec<String>)
    ensures
        text::texts(final(lines)@) == text::texts(old(lines)@) + fix_lines(
            fix,
            text::texts(fixes@),
        ),
{
    let ghost before = text::texts(lines@);
    let ghost all = text::texts(fixes@);
    if !fix {
        assert(before + fix_lines(fix, all) =~= before);
        return;
    }
    if fixes.len() == 0 {
        output::say(lines, "--fix: nothing to repair.".to_owned());
        assert(text::texts(lines@) =~= before + fix_lines(fix, all));
        return;
    }
    output::say(lines, "--fix applied:".to_owned());
    let ghost shown = all.map_values(|f: Seq<char>| "  - "@ + f);
    let ghost top = seq!["--fix applied:"@];
    let mut i: usize = 0;
    assert(text::texts(lines@) =~= before + top + shown.take(0));
    while i < fixes.len()
        invariant
            i <= fixes@.len(),
            all == text::texts(fixes@),
            shown == all.map_values(|f: Seq<char>| "  - "@ + f),
            text::texts(lines@) == before + top + shown.take(i as int),
        decreases fixes@.len() - i,
    {
        let mut line = "  - ".to_owned();
        line.append(fixes[i].as_str());
        output::say(lines, line);
        assert(line@ == shown[i as int]);
        i += 1;
        assert(text::texts(lines@) =~= before + top + shown.take(i as int));
    }
    assert(shown.take(i as int) =~= shown);
    output::say(lines, "".to_owned());
    assert(text::texts(lines@) =~= before + fix_lines(fix, all));
}

fn say_check(lines: &mut Vec<String>, c: &Check)
    ensures
        text::texts(final(lines)@) == text::texts(old(lines)@) + check_lines(c@),
{
    let ghost before = text::texts(lines@);
    let mut line = "  ".to_owned();
    line.push(c.level.glyph());
    line.append(" ");
    line.append(text::pad(c.name.as_str(), 16).as_str());
    line.append(" ");
    line.append(c.level.tag());
    line.append(" — ");
    line.append(c.detail.as_str());
    output::say(lines, line);
    if c.level != Level::Okay {
        match &c.hint {
            Some(h) => {
                let mut line = "      ↳ ".to_owned();
                line.append(h.as_str());
                output::say(lines, line);
            },
            None => {},
        }
    }
    assert(text::texts(lines@) =~= before + check_lines(c@));
}

fn doc_of_check(c: &Check) -> (r: Value)
    ensures
        json::json(r) == check_doc(c@),
{
    let doc = json::with_text(json::empty_object(), "name", c.name.as_str());
    let doc = json::with_text(doc, "level", c.level.tag());
    let doc = json::with_text(doc, "detail", c.detail.as_str());
    match &c.hint {
        Some(h) => json::with_text(doc, "hint", h.as_str()),
        None => json::with(doc, "hint", json::null_value()),
    }
}

/// The document has the list of repairs that it was given.
pub proof fn the_document_lists_the_fixes(
    fix: bool,
    fixes: Seq<Seq<char>>,
    cs: Seq<CheckView>,
)
    ensures
        doctor_output(fix, fixes, cs).doc.member("fixesApplied"@) == Some(
            json::text_array(fixes),
        ),
{
    reveal_strlit("fixesApplied");
    reveal_strlit("checks");
    assert("fixesApplied"@.len() != "checks"@.len());
}

/// What `byteferret doctor` shows of the repairs and the checks, and whether the run
/// fails. Without `--fix` there are no repairs.
pub fn doctor(fix: bool, fixes: &Vec<String>, checks: &Vec<Check>) -> (r: Verdict)
    requires
        !fix ==> fixes@.len() == 0,
    ensures
        r.output@.doc.member("fixesApplied"@) == Some(json::text_array(text::texts(fixes@))),
        !fix ==> r.output@.doc.member("fixesApplied"@) == Some(Json::Array(seq![])),
        r.output@ == doctor_output(fix, text::texts(fixes@), check_views(checks@)),
        r.failed == (worst_of(levels(check_views(checks@))) == Level::Fail),
        r.failed <==> exists|i: int|
            0 <= i < checks@.len() && (#[trigger] checks@[i]).level == Level::Fail,
{
    let ghost cs = check_views(checks@);
    let mut lines: Vec<String> = Vec::new();
    assert(text::texts(lines@) =~= Seq::<Seq<char>>::empty());
    say_fixes(&mut lines, fix, fixes);
    let ghost top = fix_lines(fix, text::texts(fixes@));
    assert(text::texts(lines@) =~= top + checks_lines(cs.take(0)));
    let mut found: Vec<Level> = Vec::new();
    let mut docs: Vec<Value> = Vec::new();
    let mut i: usize = 0;
    while i < checks.len()
        invariant
            i <= checks@.len(),
            cs == check_views(checks@),
            found@.len() == i,
            docs@.len() == i,
            forall|k: int| 0 <= k < i ==> found@[k] == (#[trigger] checks@[k]).level,
            forall|k: int| 0 <= k < i ==> json::json(#[trigger] docs@[k]) == check_doc(cs[k]),
            text::texts(lines@) == top + checks_lines(cs.take(i as int)),
        decreases checks@.len() - i,
    {
        assert(cs.take(i + 1).drop_last() =~= cs.take(i as int));
        assert(cs[i as int] == checks@[i as int]@);
        say_check(&mut lines, &checks[i]);
        found.push(checks[i].level);
        docs.push(doc_of_check(&checks[i]));
        i += 1;
        assert(text::texts(lines@) =~= top + checks_lines(cs.take(i as int)));
    }
    assert(cs.take(i as int) =~= cs);
    assert(found@ =~= levels(cs));
    let overall = worst(found.as_slice());
    proof {
        worst_is_the_most_severe(levels(cs));
        if overall == Level::Fail {
            let k = choose|k: int| 0 <= k < levels(cs).len() && levels(cs)[k] == Level::Fail;
            assert(checks@[k].level == Level::Fail);
        }
        if exists|k: int| 0 <= k < checks@.len() && (#[trigger] checks@[k]).level == Level::Fail {
            let k = choose|k: int|
                0 <= k < checks@.len() && (#[trigger] checks@[k]).level == Level::Fail;
            assert(levels(cs)[k] == Level::Fail);
        }
    }
    output::say(&mut lines, "".to_owned());
    let mut last = "overall: ".to_owned();
    last.append(
        match overall {
            Level::Okay => "healthy",
            Level::Warn => "healthy with warnings",
            Level::Fail => "problems found",
        },
    );
    output::say(&mut lines, last);
    assert(json::jsons(docs@) =~= cs.map_values(|c: CheckView| check_doc(c)));
    let doc = json::with_bool(json::empty_object(), "ok", overall != Level::Fail);
    let doc = json::with_text(doc, "overall", overall.tag());
    let doc = json::with(doc, "fixesApplied", json::text_array_value(fixes));
    let doc = json::with(doc, "checks", json::array_value(docs));
    let output = Output { lines, doc };
    assert(output@.lines =~= doctor_output(fix, text::texts(fixes@), cs).lines);
    proof {
        the_document_lists_the_fixes(fix, text::texts(fixes@), cs);
        if !fix {
            assert(text::texts(fixes@).map_values(|t: Seq<char>| Json::Text(t)) =~= seq![]);
        }
    }
    Verdict { output, failed: overall == Level::Fail }
}

/// The check of the peers' sharing is there exactly where one is connected, and it is
/// the stall check exactly where, besides, one of them never shared back.
proof fn the_stall_check_is_there(peers: Seq<PeerView>, clean: spec_fn(Seq<char>) -> Seq<char>)
    ensures
        peer_checks(peers, clean).contains(stall_check(peers, clean)) <==> {
            &&& connected_count(peers) > 0
            &&& peers_in(peers, ShareState::NotSharingBack).len() > 0
        },
        forall|n: nat| #[trigger] peer_checks(peers, clean).contains(both_ways_check(n)) ==> {
            &&& peers_in(peers, ShareState::NotSharingBack).len() == 0
            &&& peers_in(peers, ShareState::Establishing).len() == 0
        },
{
    reveal_strlit("peers");
    reveal_strlit("folder share");
    reveal_strlit(
        "on that machine run `byteferret pair --with <this-device-id> --folder <name>` to share the folder back",
    );
    reveal_strlit(
        "give it a moment and re-check `byteferret status`; if it persists, run `byteferret pair --with <this-device-id> --folder <name>` on that machine",
    );
    broadcast use vstd::seq_lib::group_filter_ensures;

    let checks = peer_checks(peers, clean);
    assert("peers"@.len() != "folder share"@.len());
    assert("on that machine run `byteferret pair --with <this-device-id> --folder <name>` to share the folder back"@[0]
        != "give it a moment and re-check `byteferret status`; if it persists, run `byteferret pair --with <this-device-id> --folder <name>` on that machine"@[0]);
    if peers.len() > 0 && connected_count(peers) > 0 {
        assert(checks[0].name == "peers"@);
        assert(checks[1] == share_check(peers, clean));
        assert(checks.contains(checks[1]));
    }
}

/// `doctor` warns of the silent stall exactly where some peer is in that state, so it
/// can never disagree with `status`, which goes by the same state.
pub proof fn a_stall_is_always_reported(
    peers: Seq<PeerView>,
    clean: spec_fn(Seq<char>) -> Seq<char>,
)
    requires
        forall|i: int| 0 <= i < peers.len() ==> agent::classified(#[trigger] peers[i]),
    ensures
        peer_checks(peers, clean).contains(stall_check(peers, clean)) <==> exists|i: int|
            0 <= i < peers.len() && agent::is_stalled(#[trigger] peers[i]),
{
    the_stall_check_is_there(peers, clean);
    let stalled = |p: PeerView| p.state == ShareState::NotSharingBack;
    let connected = |p: PeerView| p.connected;
    if exists|i: int| 0 <= i < peers.len() && agent::is_stalled(#[trigger] peers[i]) {
        let i = choose|i: int| 0 <= i < peers.len() && agent::is_stalled(#[trigger] peers[i]);
        assert(agent::classified(peers[i]));
        peers.lemma_filter_contains(stalled, i);
        peers.lemma_filter_contains(connected, i);
        assert(peers_in(peers, ShareState::NotSharingBack).len() > 0);
        assert(connected_count(peers) > 0);
    }
    if peers_in(peers, ShareState::NotSharingBack).len() > 0 {
        let p = peers.filter(stalled)[0];
        peers.lemma_filter_pred(stalled, 0);
        assert(peers.filter(stalled).contains(p));
        peers.lemma_filter_contains_rev(stalled, p);
        let i = choose|i: int| 0 <= i < peers.len() && peers[i] == p;
        assert(agent::is_stalled(peers[i]));
    }
}

/// Where `doctor` says that folders are shared both ways, every connected peer shares
/// back.
pub proof fn both_ways_is_every_connected_peer(
    peers: Seq<PeerView>,
    clean: spec_fn(Seq<char>) -> Seq<char>,
    n: nat,
    i: int,
)
    requires
        forall|j: int| 0 <= j < peers.len() ==> agent::classified(#[trigger] peers[j]),
        peer_checks(peers, clean).contains(both_ways_check(n)),
        0 <= i < peers.len(),
        peers[i].connected,
    ensures
        peers[i].state == ShareState::Sharing,
{
    the_stall_check_is_there(peers, clean);
    assert(agent::classified(peers[i]));
    let stalled = |p: PeerView| p.state == ShareState::NotSharingBack;
    let establishing = |p: PeerView| p.state == ShareState::Establishing;
    if stalled(peers[i]) {
        peers.lemma_filter_contains(stalled, i);
    }
    if establishing(peers[i]) {
        peers.lemma_filter_contains(establishing, i);
    }
}

} // verus!
