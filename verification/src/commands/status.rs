//! `byteferret status`: agent + Syncthing health, this machine's identity, every
//! registered folder and its sync state, connected peers and the folders shared with
//! them, pending pair requests, offered folders, and any conflict files.

use serde_json::Value;
use vstd::prelude::*;
use vstd::string::*;
use vstd::utf8::*;

use crate::agent;
use crate::agent::{Aliases, PeerSync, PeerView, ShareTags};
use crate::commands::doctor;
use crate::commands::shares;
use crate::commands::shares::{Answer, FolderInfo, FolderView, Share, ShareView};
use crate::json;
use crate::json::Json;
use crate::output;
use crate::output::{Output, OutputView};
use crate::syncthing::rest::{
    Connection, FolderStatus, OfferedFolder, PendingDevice, PendingFolder,
};
use crate::text;

verus! {

/// The text that `String::from_utf8_lossy` reads from bytes.
pub uninterp spec fn lossy(bytes: Seq<u8>) -> Seq<char>;

/// `String::from_utf8_lossy`: valid UTF-8 is decoded as it is. What stands in for
/// invalid parts is left open.
#[verifier::external_body]
fn lossy_text(bytes: &Vec<u8>) -> (r: String)
    ensures
        r@ == lossy(bytes@),
        valid_utf8(bytes@) ==> r@ == decode_utf8(bytes@),
{
    String::from_utf8_lossy(bytes).into_owned()
}

/// The bytes before the first zero.
pub open spec fn before_zero(bytes: Seq<u8>) -> Seq<u8>
    decreases bytes.len(),
{
    if bytes.len() == 0 || bytes[0] == 0 {
        seq![]
    } else {
        seq![bytes[0]] + before_zero(bytes.drop_first())
    }
}

/// The hostname in a buffer that the system was asked to fill, nothing where it did
/// not.
pub open spec fn host_name(filled: bool, buf: Seq<u8>) -> Seq<char> {
    if filled {
        lossy(before_zero(buf))
    } else {
        seq![]
    }
}

/// This machine's hostname, from the buffer that the system was asked to fill with it,
/// or "" if it can't be read.
pub fn hostname(filled: bool, buf: &Vec<u8>) -> (r: String)
    ensures
        r@ == host_name(filled, buf@),
        filled && valid_utf8(before_zero(buf@)) ==> r@ == decode_utf8(before_zero(buf@)),
{
    if !filled {
        return String::new();
    }
    let mut bytes: Vec<u8> = Vec::new();
    let mut i: usize = 0;
    assert(buf@.skip(0) =~= buf@);
    assert(bytes@ + before_zero(buf@.skip(0)) =~= before_zero(buf@));
    while i < buf.len() && buf[i] != 0
        invariant
            i <= buf@.len(),
            bytes@ + before_zero(buf@.skip(i as int)) == before_zero(buf@),
        decreases buf@.len() - i,
    {
        let ghost rest = buf@.skip(i as int);
        assert(rest[0] == buf@[i as int]);
        assert(rest.drop_first() =~= buf@.skip(i + 1));
        let ghost before = bytes@;
        bytes.push(buf[i]);
        assert(bytes@ + before_zero(rest.drop_first()) =~= before + before_zero(rest));
        i += 1;
    }
    assert(buf@.skip(i as int).len() > 0 ==> buf@.skip(i as int)[0] == buf@[i as int]);
    assert(bytes@ =~= before_zero(buf@));
    lossy_text(&bytes)
}

/// The first segment of a device id.
pub open spec fn first_segment(id: Seq<char>) -> Seq<char> {
    if id.len() <= 7 {
        id
    } else {
        id.take(7)
    }
}

/// The first segment of a device id.
pub fn short(id: &str) -> (r: String)
    ensures
        r@ == first_segment(id@),
{
    let chars = text::chars_of(id);
    let end: usize = if chars.len() < 7 {
        chars.len()
    } else {
        7
    };
    let r = text::slice_text(&chars, 0, end);
    assert(r@ =~= first_segment(id@));
    r
}

/// What a peer is referred to by.
pub open spec fn reference(aliases: Seq<(Seq<char>, Seq<char>)>, id: Seq<char>) -> Seq<char> {
    match agent::alias(aliases, id) {
        Some(a) => a,
        None => first_segment(id),
    }
}

/// The token to paste into a `pair`/`unpair` command for a peer: its local alias
/// when one is set — what the user recognises and typed themselves — otherwise a
/// short id prefix.
pub fn peer_ref(aliases: &Aliases, id: &str) -> (r: String)
    ensures
        r@ == reference(aliases@, id@),
{
    match aliases.alias_for(id) {
        Some(a) => a.clone(),
        None => short(id),
    }
}

/// How a device id appears in the peer list.
pub open spec fn shown_id(id: Seq<char>, verbose: bool) -> Seq<char> {
    if verbose {
        id
    } else {
        first_segment(id) + "…"@
    }
}

/// How a peer's device id appears in the peer list: the full id under `-v`,
/// otherwise just its first segment with an ellipsis.
pub fn id_display(id: &str, verbose: bool) -> (r: String)
    ensures
        r@ == shown_id(id@, verbose),
{
    if verbose {
        id.to_owned()
    } else {
        let mut s = short(id);
        s.append("…");
        s
    }
}

/// A peer, and what Syncthing answered of its copies of the folders that were asked
/// for.
pub struct PeerFacts {
    pub sync: PeerSync,
    pub answers: Vec<Option<Answer>>,
}

/// A folder that peers offer.
pub struct OfferedFacts {
    pub folder: String,
    /// The user-facing name of the folder.
    pub name: String,
    pub pending: PendingFolder,
}

/// What is known where the agent runs.
pub struct Running {
    pub device_id: String,
    pub version: String,
    pub gui_address: String,
    pub folders: Vec<FolderInfo>,
    pub peers: Vec<PeerFacts>,
    pub connections: Vec<(String, Connection)>,
    pub pending: Vec<(String, PendingDevice)>,
    pub offered: Vec<OfferedFacts>,
    /// The paths of the conflict files.
    pub conflicts: Vec<String>,
    pub aliases: Aliases,
    /// The aliases as the document has them.
    pub aliases_doc: Value,
    pub tags: ShareTags,
    /// The completion where none is known.
    pub zero: Value,
}

/// A folder that Syncthing has, as far as it was read.
pub struct FolderRead {
    /// The configuration, as Syncthing has it.
    pub config: Value,
    /// The user-facing name of the folder.
    pub name: String,
    /// How far the folder is in sync, where that could be read.
    pub status: Option<FolderStatus>,
}

/// What was read of the running agent, or why it could not be read.
pub struct Reads {
    pub device_id: Result<String, String>,
    pub version: Result<String, String>,
    /// The peers, not asked for their copies of the folders yet.
    pub peers: Result<Vec<PeerFacts>, String>,
    pub connections: Result<Vec<(String, Connection)>, String>,
    pub pending: Result<Vec<(String, PendingDevice)>, String>,
    pub offered: Result<Vec<OfferedFacts>, String>,
    pub folders: Result<Vec<FolderRead>, String>,
}

/// What this machine knows without asking the running agent.
pub struct Local {
    pub gui_address: String,
    pub aliases: Aliases,
    /// The aliases as the document has them.
    pub aliases_doc: Value,
    pub tags: ShareTags,
    /// The completion where none is known.
    pub zero: Value,
}

/// Why `status` fails: the first of the reads that it cannot do without and that failed.
pub open spec fn failed_read(r: Reads) -> Option<Seq<char>> {
    if r.device_id is Err {
        Some(r.device_id->Err_0@)
    } else if r.version is Err {
        Some(r.version->Err_0@)
    } else if r.pending is Err {
        Some(r.pending->Err_0@)
    } else if r.offered is Err {
        Some(r.offered->Err_0@)
    } else {
        None
    }
}

/// What was read, nothing where the read failed.
pub open spec fn read_or_none<T>(r: Result<Vec<T>, String>) -> Seq<T> {
    match r {
        Ok(items) => items@,
        Err(_) => seq![],
    }
}

/// The folders, by what was read of them; `own` is this machine's device id.
pub open spec fn folders_read(fs: Seq<FolderRead>, own: Seq<char>) -> Seq<FolderView> {
    fs.map_values(|f: FolderRead| shares::folder_of(json::json(f.config), f.name@, f.status, own))
}

fn folders_of(fs: &Vec<FolderRead>, own: &str) -> (r: Vec<FolderInfo>)
    ensures
        shares::folder_views(r@) == folders_read(fs@, own@),
{
    let mut out: Vec<FolderInfo> = Vec::new();
    let mut i: usize = 0;
    while i < fs.len()
        invariant
            i <= fs@.len(),
            out@.len() == i,
            forall|k: int|
                0 <= k < i ==> (#[trigger] out@[k])@ == shares::folder_of(
                    json::json(fs@[k].config),
                    fs@[k].name@,
                    fs@[k].status,
                    own@,
                ),
        decreases fs@.len() - i,
    {
        let f = &fs[i];
        out.push(shares::folder_info(&f.config, f.name.as_str(), f.status.as_ref(), own));
        i += 1;
    }
    assert(shares::folder_views(out@) =~= folders_read(fs@, own@));
    out
}

fn or_none<T>(r: Result<Vec<T>, String>) -> (v: Vec<T>)
    ensures
        v@ == read_or_none(r),
{
    match r {
        Ok(items) => items,
        Err(_) => Vec::new(),
    }
}

/// What is known of the running agent. Without its device id, its version, the pairing
/// requests or the offered folders there is no status; the peers, the connections and the
/// folders count as none where they could not be read. The peers' answers and the conflict
/// files are still to come.
pub fn gather(reads: Reads, local: Local) -> (r: Result<Running, String>)
    ensures
        r is Err <==> reads.device_id is Err || reads.version is Err || reads.pending is Err
            || reads.offered is Err,
        match r {
            Err(why) => failed_read(reads) == Some(why@),
            Ok(f) => {
                &&& failed_read(reads) is None
                &&& f.device_id@ == reads.device_id->Ok_0@
                &&& f.version@ == reads.version->Ok_0@
                &&& f.pending@ == reads.pending->Ok_0@
                &&& f.offered@ == reads.offered->Ok_0@
                &&& f.peers@ == read_or_none(reads.peers)
                &&& f.connections@ == read_or_none(reads.connections)
                &&& shares::folder_views(f.folders@) == folders_read(
                    read_or_none(reads.folders),
                    reads.device_id->Ok_0@,
                )
                &&& f.conflicts@.len() == 0
                &&& f.gui_address@ == local.gui_address@
                &&& f.aliases == local.aliases
                &&& f.aliases_doc == local.aliases_doc
                &&& f.tags == local.tags
                &&& f.zero == local.zero
            },
        },
{
    let device_id = match reads.device_id {
        Ok(id) => id,
        Err(why) => return Err(why),
    };
    let version = match reads.version {
        Ok(version) => version,
        Err(why) => return Err(why),
    };
    let pending = match reads.pending {
        Ok(pending) => pending,
        Err(why) => return Err(why),
    };
    let offered = match reads.offered {
        Ok(offered) => offered,
        Err(why) => return Err(why),
    };
    let folders = folders_of(&or_none(reads.folders), device_id.as_str());
    Ok(
        Running {
            device_id,
            version,
            gui_address: local.gui_address,
            folders,
            peers: or_none(reads.peers),
            connections: or_none(reads.connections),
            pending,
            offered,
            conflicts: Vec::new(),
            aliases: local.aliases,
            aliases_doc: local.aliases_doc,
            tags: local.tags,
            zero: local.zero,
        },
    )
}

/// The line with the hostname, where it is known.
pub open spec fn host_lines(host: Seq<char>) -> Seq<Seq<char>> {
    if host.len() > 0 {
        seq!["hostname:   "@ + host]
    } else {
        seq![]
    }
}

fn say_host(lines: &mut Vec<String>, host: &str)
    ensures
        text::texts(final(lines)@) == text::texts(old(lines)@) + host_lines(host@),
{
    let ghost before = text::texts(lines@);
    if !host.is_empty() {
        let mut line = "hostname:   ".to_owned();
        line.append(host);
        output::say(lines, line);
    }
    assert(text::texts(lines@) =~= before + host_lines(host@));
}

/// What `status` shows and leaves where the agent is down: that's the headline.
pub open spec fn stopped_output(host: Seq<char>) -> OutputView {
    OutputView {
        lines: seq!["agent:      stopped   (run `byteferret start`)"@] + host_lines(host),
        doc: Json::Object(
            map![
                "ok"@ => Json::Bool(true),
                "agentRunning"@ => Json::Bool(false),
                "hostname"@ => Json::Text(host),
            ],
        ),
    }
}

fn stopped(host: &str) -> (r: Output)
    ensures
        r@ == stopped_output(host@),
{
    let mut lines: Vec<String> = Vec::new();
    assert(text::texts(lines@) =~= Seq::<Seq<char>>::empty());
    output::say(&mut lines, "agent:      stopped   (run `byteferret start`)".to_owned());
    say_host(&mut lines, host);
    let doc = json::with_bool(json::empty_object(), "ok", true);
    let doc = json::with_bool(doc, "agentRunning", false);
    let doc = json::with_text(doc, "hostname", host);
    let r = Output { lines, doc };
    assert(r@.lines =~= stopped_output(host@).lines);
    r
}

/// The line of a folder.
pub open spec fn folder_line(f: FolderView, clean: spec_fn(Seq<char>) -> Seq<char>) -> Seq<char> {
    "  - "@ + clean(f.name) + "  "@ + clean(f.path) + "  — "@ + (if f.state.len() == 0 {
        "unknown"@
    } else {
        f.state
    }) + (if f.need_bytes > 0 {
        " ("@ + text::signed_decimal(f.need_bytes) + " bytes to sync)"@
    } else {
        seq![]
    }) + ", shared with "@ + text::decimal(f.peers.len()) + " peer(s)"@
}

/// The lines of the folders.
pub open spec fn folder_lines(
    fs: Seq<FolderView>,
    clean: spec_fn(Seq<char>) -> Seq<char>,
) -> Seq<Seq<char>> {
    if fs.len() == 0 {
        seq!["folders:    none — run `byteferret init <path>`"@]
    } else {
        seq!["folders:"@] + fs.map_values(|f: FolderView| folder_line(f, clean))
    }
}

fn folder_text<F: Fn(&str) -> String>(f: &FolderInfo, sanitize: &F) -> (r: String)
    requires
        output::sanitizer(*sanitize),
    ensures
        r@ == folder_line(f@, output::cleaner(*sanitize)),
{
    let mut s = "  - ".to_owned();
    s.append(output::cleaned(sanitize, f.name()).as_str());
    s.append("  ");
    s.append(output::cleaned(sanitize, f.path.as_str()).as_str());
    s.append("  — ");
    if f.state.as_str().is_empty() {
        s.append("unknown");
    } else {
        s.append(f.state.as_str());
    }
    let mut extra = String::new();
    if f.need_bytes > 0 {
        extra.append(" (");
        extra.append(text::signed_decimal_text(f.need_bytes).as_str());
        extra.append(" bytes to sync)");
        assert(extra@ =~= " ("@ + text::signed_decimal(f.need_bytes as int)
            + " bytes to sync)"@);
    }
    s.append(extra.as_str());
    s.append(", shared with ");
    s.append(text::decimal_text(f.peers.len() as u128).as_str());
    s.append(" peer(s)");
    s
}

fn say_folders<F: Fn(&str) -> String>(
    lines: &mut Vec<String>,
    folders: &Vec<FolderInfo>,
    sanitize: &F,
)
    requires
        output::sanitizer(*sanitize),
    ensures
        text::texts(final(lines)@) == text::texts(old(lines)@) + folder_lines(
            shares::folder_views(folders@),
            output::cleaner(*sanitize),
        ),
{
    let ghost before = text::texts(lines@);
    let ghost clean = output::cleaner(*sanitize);
    let ghost fs = shares::folder_views(folders@);
    if folders.len() == 0 {
        output::say(lines, "folders:    none — run `byteferret init <path>`".to_owned());
        assert(text::texts(lines@) =~= before + folder_lines(fs, clean));
        return;
    }
    output::say(lines, "folders:".to_owned());
    let ghost top = before + seq!["folders:"@];
    let ghost shown = fs.map_values(|f: FolderView| folder_line(f, clean));
    let mut i: usize = 0;
    assert(text::texts(lines@) =~= top + shown.take(0));
    while i < folders.len()
        invariant
            i <= folders@.len(),
            output::sanitizer(*sanitize),
            clean == output::cleaner(*sanitize),
            fs == shares::folder_views(folders@),
            shown == fs.map_values(|f: FolderView| folder_line(f, clean)),
            text::texts(lines@) == top + shown.take(i as int),
        decreases folders@.len() - i,
    {
        let line = folder_text(&folders[i], sanitize);
        assert(line@ == shown[i as int]);
        output::say(lines, line);
        i += 1;
        assert(text::texts(lines@) =~= top + shown.take(i as int));
    }
    assert(shown.take(i as int) =~= shown);
    assert(text::texts(lines@) =~= before + folder_lines(fs, clean));
}

/// The address that a device is connected from, nothing where none is known.
pub open spec fn address_of(conns: Seq<(String, Connection)>, id: Seq<char>) -> Seq<char>
    decreases conns.len(),
{
    if conns.len() == 0 {
        seq![]
    } else if conns[0].0@ == id {
        conns[0].1.address@
    } else {
        address_of(conns.drop_first(), id)
    }
}

fn address_for(conns: &Vec<(String, Connection)>, id: &str) -> (r: String)
    ensures
        r@ == address_of(conns@, id@),
{
    let mut i: usize = 0;
    assert(conns@.skip(0) =~= conns@);
    while i < conns.len()
        invariant
            i <= conns@.len(),
            address_of(conns@, id@) == address_of(conns@.skip(i as int), id@),
        decreases conns@.len() - i,
    {
        if text::same_text(conns[i].0.as_str(), id) {
            return conns[i].1.address.clone();
        }
        assert(conns@.skip(i as int).drop_first() =~= conns@.skip(i + 1));
        i += 1;
    }
    String::new()
}

/// What a peer is called: a local alias (trusted) before the peer's self-chosen name.
pub open spec fn peer_name(aliases: Seq<(Seq<char>, Seq<char>)>, p: PeerView) -> Seq<char> {
    match agent::alias(aliases, p.id) {
        Some(a) => a,
        None => p.label,
    }
}

/// The line of a peer.
pub open spec fn peer_line(
    p: PeerView,
    name: Seq<char>,
    address: Seq<char>,
    verbose: bool,
    clean: spec_fn(Seq<char>) -> Seq<char>,
) -> Seq<char> {
    "  - "@ + clean(name) + " ("@ + shown_id(p.id, verbose) + "): "@ + (if p.connected {
        "connected"@
    } else {
        "disconnected"@
    }) + (if address.len() > 0 {
        "  "@ + clean(address)
    } else {
        seq![]
    })
}

/// The line of a folder that is shared with a peer.
pub open spec fn share_line(s: ShareView, clean: spec_fn(Seq<char>) -> Seq<char>) -> Seq<char> {
    "      "@ + clean(s.name) + shares::annotation(s.answer.state, s.answer.in_sync, s.answer.percent)
}

/// The lines of the folders that are shared with a peer.
pub open spec fn share_lines(
    ss: Seq<ShareView>,
    clean: spec_fn(Seq<char>) -> Seq<char>,
) -> Seq<Seq<char>> {
    if ss.len() == 0 {
        seq!["      no folders shared"@]
    } else {
        ss.map_values(|s: ShareView| share_line(s, clean))
    }
}

/// How far each folder that is shared with a peer is.
pub open spec fn peer_shares(f: Running, p: PeerFacts) -> Seq<ShareView> {
    shares::states_of(
        shares::folder_views(f.folders@),
        p.sync@,
        shares::answer_views(p.answers@),
        json::json(f.zero),
    )
}

/// The lines of one peer.
pub open spec fn lines_of_peer(
    f: Running,
    p: PeerFacts,
    verbose: bool,
    clean: spec_fn(Seq<char>) -> Seq<char>,
) -> Seq<Seq<char>> {
    seq![
        peer_line(
            p.sync@,
            peer_name(f.aliases@, p.sync@),
            address_of(f.connections@, p.sync.id@),
            verbose,
            clean,
        ),
    ] + share_lines(peer_shares(f, p), clean)
}

/// The lines of the peers that there are.
pub open spec fn lines_of_peers(
    f: Running,
    ps: Seq<PeerFacts>,
    verbose: bool,
    clean: spec_fn(Seq<char>) -> Seq<char>,
) -> Seq<Seq<char>>
    decreases ps.len(),
{
    if ps.len() == 0 {
        seq![]
    } else {
        lines_of_peers(f, ps.drop_last(), verbose, clean) + lines_of_peer(
            f,
            ps.last(),
            verbose,
            clean,
        )
    }
}

/// The lines of the peers.
pub open spec fn peer_lines(
    f: Running,
    verbose: bool,
    clean: spec_fn(Seq<char>) -> Seq<char>,
) -> Seq<Seq<char>> {
    if f.peers@.len() == 0 {
        seq![
            "peers:      none — share the device id above and run `byteferret pair --with <id>` on the other machine"@,
        ]
    } else {
        seq!["peers:"@] + lines_of_peers(f, f.peers@, verbose, clean)
    }
}

fn name_for(aliases: &Aliases, p: &PeerSync) -> (r: String)
    ensures
        r@ == peer_name(aliases@, p@),
{
    match aliases.alias_for(p.id.as_str()) {
        Some(a) => a.clone(),
        None => p.label.clone(),
    }
}

fn peer_text<F: Fn(&str) -> String>(
    p: &PeerSync,
    name: &str,
    address: &str,
    verbose: bool,
    sanitize: &F,
) -> (r: String)
    requires
        output::sanitizer(*sanitize),
    ensures
        r@ == peer_line(p@, name@, address@, verbose, output::cleaner(*sanitize)),
{
    let mut s = "  - ".to_owned();
    s.append(output::cleaned(sanitize, name).as_str());
    s.append(" (");
    s.append(id_display(p.id.as_str(), verbose).as_str());
    s.append("): ");
    if p.connected {
        s.append("connected");
    } else {
        s.append("disconnected");
    }
    let mut from = String::new();
    if !address.is_empty() {
        from.append("  ");
        from.append(output::cleaned(sanitize, address).as_str());
        assert(from@ =~= "  "@ + output::cleaner(*sanitize)(address@));
    }
    s.append(from.as_str());
    s
}

fn say_shares<F: Fn(&str) -> String>(lines: &mut Vec<String>, ss: &Vec<Share>, sanitize: &F)
    requires
        output::sanitizer(*sanitize),
    ensures
        text::texts(final(lines)@) == text::texts(old(lines)@) + share_lines(
            shares::share_views(ss@),
            output::cleaner(*sanitize),
        ),
{
    let ghost before = text::texts(lines@);
    let ghost clean = output::cleaner(*sanitize);
    let ghost all = shares::share_views(ss@);
    if ss.len() == 0 {
        output::say(lines, "      no folders shared".to_owned());
        assert(text::texts(lines@) =~= before + share_lines(all, clean));
        return;
    }
    let ghost shown = all.map_values(|s: ShareView| share_line(s, clean));
    let mut i: usize = 0;
    assert(text::texts(lines@) =~= before + shown.take(0));
    while i < ss.len()
        invariant
            i <= ss@.len(),
            output::sanitizer(*sanitize),
            clean == output::cleaner(*sanitize),
            all == shares::share_views(ss@),
            shown == all.map_values(|s: ShareView| share_line(s, clean)),
            text::texts(lines@) == before + shown.take(i as int),
        decreases ss@.len() - i,
    {
        let a = &ss[i].answer;
        let mut line = "      ".to_owned();
        line.append(output::cleaned(sanitize, ss[i].name.as_str()).as_str());
        line.append(shares::share_annotation(a.state, a.in_sync, a.percent.as_str()).as_str());
        assert(all[i as int] == ss@[i as int]@);
        assert(line@ == shown[i as int]);
        output::say(lines, line);
        i += 1;
        assert(text::texts(lines@) =~= before + shown.take(i as int));
    }
    assert(shown.take(i as int) =~= shown);
}

fn say_peers<F: Fn(&str) -> String>(
    lines: &mut Vec<String>,
    f: &Running,
    verbose: bool,
    sanitize: &F,
)
    requires
        output::sanitizer(*sanitize),
    ensures
        text::texts(final(lines)@) == text::texts(old(lines)@) + peer_lines(
            *f,
            verbose,
            output::cleaner(*sanitize),
        ),
{
    let ghost before = text::texts(lines@);
    let ghost clean = output::cleaner(*sanitize);
    if f.peers.len() == 0 {
        output::say(
            lines,
            "peers:      none — share the device id above and run `byteferret pair --with <id>` on the other machine".to_owned(),
        );
        assert(text::texts(lines@) =~= before + peer_lines(*f, verbose, clean));
        return;
    }
    output::say(lines, "peers:".to_owned());
    let ghost top = before + seq!["peers:"@];
    let ghost ps = f.peers@;
    let mut i: usize = 0;
    assert(text::texts(lines@) =~= top + lines_of_peers(*f, ps.take(0), verbose, clean));
    while i < f.peers.len()
        invariant
            i <= ps.len(),
            ps == f.peers@,
            output::sanitizer(*sanitize),
            clean == output::cleaner(*sanitize),
            text::texts(lines@) == top + lines_of_peers(*f, ps.take(i as int), verbose, clean),
        decreases ps.len() - i,
    {
        assert(ps.take(i + 1).drop_last() =~= ps.take(i as int));
        let p = &f.peers[i];
        let name = name_for(&f.aliases, &p.sync);
        let address = address_for(&f.connections, p.sync.id.as_str());
        output::say(
            lines,
            peer_text(&p.sync, name.as_str(), address.as_str(), verbose, sanitize),
        );
        let ss = shares::peer_folder_states(&f.folders, &p.sync, &p.answers, &f.zero);
        say_shares(lines, &ss, sanitize);
        i += 1;
        assert(text::texts(lines@) =~= top + lines_of_peers(*f, ps.take(i as int), verbose, clean));
    }
    assert(ps.take(i as int) =~= ps);
    assert(text::texts(lines@) =~= before + peer_lines(*f, verbose, clean));
}

/// Some peer is connected without sharing back.
pub open spec fn some_stalled(ps: Seq<PeerFacts>) -> bool {
    exists|i: int| 0 <= i < ps.len() && agent::is_stalled(#[trigger] ps[i].sync@)
}

/// The silent stall: connected, so the list of peers looks healthy, but the peer never
/// shared back, so nothing will ever transfer.
pub open spec fn stall_lines(stalled: bool) -> Seq<Seq<char>> {
    if stalled {
        seq![
            ""@,
            "Note: a connected peer is NOT sharing a folder back — run `byteferret doctor` for the fix."@,
        ]
    } else {
        seq![]
    }
}

fn has_stalled(ps: &Vec<PeerFacts>) -> (r: bool)
    ensures
        r == some_stalled(ps@),
{
    let mut i: usize = 0;
    while i < ps.len()
        invariant
            i <= ps@.len(),
            forall|j: int| 0 <= j < i ==> !agent::is_stalled(#[trigger] ps@[j].sync@),
        decreases ps@.len() - i,
    {
        if ps[i].sync.stalled() {
            return true;
        }
        i += 1;
    }
    false
}

fn say_stall(lines: &mut Vec<String>, stalled: bool)
    ensures
        text::texts(final(lines)@) == text::texts(old(lines)@) + stall_lines(stalled),
{
    let ghost before = text::texts(lines@);
    if stalled {
        output::say(lines, "".to_owned());
        output::say(
            lines,
            "Note: a connected peer is NOT sharing a folder back — run `byteferret doctor` for the fix.".to_owned(),
        );
    }
    assert(text::texts(lines@) =~= before + stall_lines(stalled));
}

/// A name behind an id, where there is one.
pub open spec fn named(open: Seq<char>, name: Seq<char>, close: Seq<char>) -> Seq<char> {
    if name.len() == 0 {
        seq![]
    } else {
        open + name + close
    }
}

fn named_text(open: &str, name: &str, close: &str) -> (r: String)
    ensures
        r@ == named(open@, name@, close@),
{
    let mut s = String::new();
    if !name.is_empty() {
        s.append(open);
        s.append(name);
        s.append(close);
        assert(s@ =~= open@ + name@ + close@);
    }
    s
}

/// The lines of one pairing request. The full device id is printed because that is what
/// `--accept` takes — and because the name beside it is the remote's claim about itself,
/// not something to act on.
pub open spec fn request_lines(
    id: Seq<char>,
    name: Seq<char>,
    aliases: Seq<(Seq<char>, Seq<char>)>,
    clean: spec_fn(Seq<char>) -> Seq<char>,
) -> Seq<Seq<char>> {
    let who = clean(reference(aliases, id));
    seq![
        "  - "@ + id + named(" ("@, clean(name), ")"@),
        "      accept:  byteferret pair "@ + who + " --accept"@,
        "      reject:  byteferret pair "@ + who + " --reject"@,
    ]
}

/// The lines of pairing requests.
pub open spec fn requests_lines(
    ps: Seq<(String, PendingDevice)>,
    aliases: Seq<(Seq<char>, Seq<char>)>,
    clean: spec_fn(Seq<char>) -> Seq<char>,
) -> Seq<Seq<char>>
    decreases ps.len(),
{
    if ps.len() == 0 {
        seq![]
    } else {
        requests_lines(ps.drop_last(), aliases, clean) + request_lines(
            ps.last().0@,
            ps.last().1.name@,
            aliases,
            clean,
        )
    }
}

/// The lines of the requests to pair *with us*, where there are any.
pub open spec fn pending_lines(
    ps: Seq<(String, PendingDevice)>,
    aliases: Seq<(Seq<char>, Seq<char>)>,
    clean: spec_fn(Seq<char>) -> Seq<char>,
) -> Seq<Seq<char>> {
    if ps.len() == 0 {
        seq![]
    } else {
        seq!["pending:    "@ + text::decimal(ps.len()) + " pairing request(s):"@] + requests_lines(
            ps,
            aliases,
            clean,
        )
    }
}

fn say_request<F: Fn(&str) -> String>(
    lines: &mut Vec<String>,
    id: &str,
    name: &str,
    aliases: &Aliases,
    sanitize: &F,
)
    requires
        output::sanitizer(*sanitize),
    ensures
        text::texts(final(lines)@) == text::texts(old(lines)@) + request_lines(
            id@,
            name@,
            aliases@,
            output::cleaner(*sanitize),
        ),
{
    let ghost before = text::texts(lines@);
    let claimed = output::cleaned(sanitize, name);
    let mut line = "  - ".to_owned();
    line.append(id);
    line.append(named_text(" (", claimed.as_str(), ")").as_str());
    output::say(lines, line);
    let who = output::cleaned(sanitize, peer_ref(aliases, id).as_str());
    let mut line = "      accept:  byteferret pair ".to_owned();
    line.append(who.as_str());
    line.append(" --accept");
    output::say(lines, line);
    let mut line = "      reject:  byteferret pair ".to_owned();
    line.append(who.as_str());
    line.append(" --reject");
    output::say(lines, line);
    assert(text::texts(lines@) =~= before + request_lines(
        id@,
        name@,
        aliases@,
        output::cleaner(*sanitize),
    ));
}

fn say_pending<F: Fn(&str) -> String>(
    lines: &mut Vec<String>,
    ps: &Vec<(String, PendingDevice)>,
    aliases: &Aliases,
    sanitize: &F,
)
    requires
        output::sanitizer(*sanitize),
    ensures
        text::texts(final(lines)@) == text::texts(old(lines)@) + pending_lines(
            ps@,
            aliases@,
            output::cleaner(*sanitize),
        ),
{
    let ghost before = text::texts(lines@);
    let ghost clean = output::cleaner(*sanitize);
    if ps.len() == 0 {
        assert(text::texts(lines@) =~= before + pending_lines(ps@, aliases@, clean));
        return;
    }
    let mut line = "pending:    ".to_owned();
    line.append(text::decimal_text(ps.len() as u128).as_str());
    line.append(" pairing request(s):");
    let ghost top = before.push(line@);
    output::say(lines, line);
    let mut i: usize = 0;
    assert(text::texts(lines@) =~= top + requests_lines(ps@.take(0), aliases@, clean));
    while i < ps.len()
        invariant
            i <= ps@.len(),
            output::sanitizer(*sanitize),
            clean == output::cleaner(*sanitize),
            text::texts(lines@) == top + requests_lines(ps@.take(i as int), aliases@, clean),
        decreases ps@.len() - i,
    {
        assert(ps@.take(i + 1).drop_last() =~= ps@.take(i as int));
        say_request(lines, ps[i].0.as_str(), ps[i].1.name.as_str(), aliases, sanitize);
        i += 1;
        assert(text::texts(lines@) =~= top + requests_lines(ps@.take(i as int), aliases@, clean));
    }
    assert(ps@.take(i as int) =~= ps@);
    assert(text::texts(lines@) =~= before + pending_lines(ps@, aliases@, clean));
}

/// One (folder, device) pair that is offered.
pub struct Offer<'a> {
    pub folder: &'a String,
    pub name: &'a String,
    pub device: &'a String,
    pub offer: &'a OfferedFolder,
}

/// One (folder, device) pair that is offered.
pub struct OfferView {
    pub folder: Seq<char>,
    pub name: Seq<char>,
    pub device: Seq<char>,
    pub label: Seq<char>,
    pub time: Seq<char>,
    pub receive_encrypted: bool,
    pub remote_encrypted: bool,
}

impl<'a> View for Offer<'a> {
    type V = OfferView;

    open spec fn view(&self) -> OfferView {
        OfferView {
            folder: self.folder@,
            name: self.name@,
            device: self.device@,
            label: self.offer.label@,
            time: self.offer.time@,
            receive_encrypted: self.offer.receive_encrypted,
            remote_encrypted: self.offer.remote_encrypted,
        }
    }
}

/// A list of offers.
pub open spec fn offer_views(os: Seq<Offer>) -> Seq<OfferView> {
    os.map_values(|o: Offer| o@)
}

/// The offers of one folder.
pub open spec fn offers_of(f: OfferedFacts) -> Seq<OfferView> {
    f.pending.offered_by@.map_values(
        |by: (String, OfferedFolder)|
            OfferView {
                folder: f.folder@,
                name: f.name@,
                device: by.0@,
                label: by.1.label@,
                time: by.1.time@,
                receive_encrypted: by.1.receive_encrypted,
                remote_encrypted: by.1.remote_encrypted,
            },
    )
}

/// All offers, folder by folder.
pub open spec fn all_offers(fs: Seq<OfferedFacts>) -> Seq<OfferView>
    decreases fs.len(),
{
    if fs.len() == 0 {
        seq![]
    } else {
        all_offers(fs.drop_last()) + offers_of(fs.last())
    }
}

fn push_offers<'a>(out: &mut Vec<Offer<'a>>, f: &'a OfferedFacts)
    ensures
        offer_views(final(out)@) == offer_views(old(out)@) + offers_of(*f),
{
    let ghost before = offer_views(out@);
    let ghost mine = offers_of(*f);
    let by = &f.pending.offered_by;
    let mut i: usize = 0;
    assert(offer_views(out@) =~= before + mine.take(0));
    while i < by.len()
        invariant
            i <= by@.len(),
            by@ == f.pending.offered_by@,
            mine == offers_of(*f),
            offer_views(out@) == before + mine.take(i as int),
        decreases by@.len() - i,
    {
        let o = Offer { folder: &f.folder, name: &f.name, device: &by[i].0, offer: &by[i].1 };
        let ghost so_far = offer_views(out@);
        out.push(o);
        assert(o@ == mine[i as int]);
        assert(offer_views(out@) =~= so_far.push(o@));
        i += 1;
        assert(offer_views(out@) =~= before + mine.take(i as int));
    }
    assert(mine.take(i as int) =~= mine);
}

fn flat_offers<'a>(fs: &'a Vec<OfferedFacts>) -> (r: Vec<Offer<'a>>)
    ensures
        offer_views(r@) == all_offers(fs@),
{
    let mut out: Vec<Offer<'a>> = Vec::new();
    let mut i: usize = 0;
    assert(offer_views(out@) =~= all_offers(fs@.take(0)));
    while i < fs.len()
        invariant
            i <= fs@.len(),
            offer_views(out@) == all_offers(fs@.take(i as int)),
        decreases fs@.len() - i,
    {
        assert(fs@.take(i + 1).drop_last() =~= fs@.take(i as int));
        push_offers(&mut out, &fs[i]);
        i += 1;
    }
    assert(fs@.take(i as int) =~= fs@);
    out
}

/// The lines of one offer.
pub open spec fn offer_lines(
    o: OfferView,
    aliases: Seq<(Seq<char>, Seq<char>)>,
    clean: spec_fn(Seq<char>) -> Seq<char>,
) -> Seq<Seq<char>> {
    let by = clean(reference(aliases, o.device));
    seq![
        "  - "@ + clean(o.name) + named(" \""@, clean(o.label), "\""@) + " — offered by "@ + by,
        "      accept:  byteferret pair "@ + by + " --accept --folder "@ + clean(o.name),
    ]
}

/// The lines of offers.
pub open spec fn offers_lines(
    os: Seq<OfferView>,
    aliases: Seq<(Seq<char>, Seq<char>)>,
    clean: spec_fn(Seq<char>) -> Seq<char>,
) -> Seq<Seq<char>>
    decreases os.len(),
{
    if os.len() == 0 {
        seq![]
    } else {
        offers_lines(os.drop_last(), aliases, clean) + offer_lines(os.last(), aliases, clean)
    }
}

/// The lines of the folders already-paired peers have offered us but that we have not
/// taken up, where there are any.
pub open spec fn offered_lines(
    fs: Seq<OfferedFacts>,
    aliases: Seq<(Seq<char>, Seq<char>)>,
    clean: spec_fn(Seq<char>) -> Seq<char>,
) -> Seq<Seq<char>> {
    if fs.len() == 0 {
        seq![]
    } else {
        seq!["offered folders:"@] + offers_lines(all_offers(fs), aliases, clean)
    }
}

fn say_offer<F: Fn(&str) -> String>(
    lines: &mut Vec<String>,
    o: &Offer,
    aliases: &Aliases,
    sanitize: &F,
)
    requires
        output::sanitizer(*sanitize),
    ensures
        text::texts(final(lines)@) == text::texts(old(lines)@) + offer_lines(
            o@,
            aliases@,
            output::cleaner(*sanitize),
        ),
{
    let ghost before = text::texts(lines@);
    let name = output::cleaned(sanitize, o.name.as_str());
    let label = output::cleaned(sanitize, o.offer.label.as_str());
    let by = output::cleaned(sanitize, peer_ref(aliases, o.device.as_str()).as_str());
    let mut line = "  - ".to_owned();
    line.append(name.as_str());
    line.append(named_text(" \"", label.as_str(), "\"").as_str());
    line.append(" — offered by ");
    line.append(by.as_str());
    output::say(lines, line);
    let mut line = "      accept:  byteferret pair ".to_owned();
    line.append(by.as_str());
    line.append(" --accept --folder ");
    line.append(name.as_str());
    output::say(lines, line);
    assert(text::texts(lines@) =~= before + offer_lines(
        o@,
        aliases@,
        output::cleaner(*sanitize),
    ));
}

fn say_offered<F: Fn(&str) -> String>(
    lines: &mut Vec<String>,
    fs: &Vec<OfferedFacts>,
    aliases: &Aliases,
    sanitize: &F,
)
    requires
        output::sanitizer(*sanitize),
    ensures
        text::texts(final(lines)@) == text::texts(old(lines)@) + offered_lines(
            fs@,
            aliases@,
            output::cleaner(*sanitize),
        ),
{
    let ghost before = text::texts(lines@);
    let ghost clean = output::cleaner(*sanitize);
    if fs.len() == 0 {
        assert(text::texts(lines@) =~= before + offered_lines(fs@, aliases@, clean));
        return;
    }
    output::say(lines, "offered folders:".to_owned());
    let os = flat_offers(fs);
    let ghost all = all_offers(fs@);
    let ghost top = before + seq!["offered folders:"@];
    let mut i: usize = 0;
    assert(text::texts(lines@) =~= top + offers_lines(all.take(0), aliases@, clean));
    while i < os.len()
        invariant
            i <= os@.len(),
            all == offer_views(os@),
            output::sanitizer(*sanitize),
            clean == output::cleaner(*sanitize),
            text::texts(lines@) == top + offers_lines(all.take(i as int), aliases@, clean),
        decreases os@.len() - i,
    {
        assert(all.take(i + 1).drop_last() =~= all.take(i as int));
        assert(all.take(i + 1).last() == os@[i as int]@);
        say_offer(lines, &os[i], aliases, sanitize);
        i += 1;
        assert(text::texts(lines@) =~= top + offers_lines(all.take(i as int), aliases@, clean));
    }
    assert(all.take(i as int) =~= all);
    assert(text::texts(lines@) =~= before + offered_lines(fs@, aliases@, clean));
}

/// The lines of the conflict files, where there are any. Conflict *filenames* also
/// arrive from a peer — they are whatever the other machine named its copy — so they get
/// the same treatment.
pub open spec fn conflict_lines(
    cs: Seq<Seq<char>>,
    clean: spec_fn(Seq<char>) -> Seq<char>,
) -> Seq<Seq<char>> {
    if cs.len() == 0 {
        seq![]
    } else {
        seq![
            "conflicts:  "@ + text::decimal(cs.len())
                + " sync-conflict file(s) — open both copies, merge, delete the conflict copy:"@,
        ] + cs.map_values(|c: Seq<char>| "  - "@ + clean(c))
    }
}

fn say_conflicts<F: Fn(&str) -> String>(
    lines: &mut Vec<String>,
    conflicts: &Vec<String>,
    sanitize: &F,
)
    requires
        output::sanitizer(*sanitize),
    ensures
        text::texts(final(lines)@) == text::texts(old(lines)@) + conflict_lines(
            text::texts(conflicts@),
            output::cleaner(*sanitize),
        ),
{
    let ghost before = text::texts(lines@);
    let ghost clean = output::cleaner(*sanitize);
    let ghost cs = text::texts(conflicts@);
    if conflicts.len() == 0 {
        assert(text::texts(lines@) =~= before + conflict_lines(cs, clean));
        return;
    }
    let mut line = "conflicts:  ".to_owned();
    line.append(text::decimal_text(conflicts.len() as u128).as_str());
    line.append(" sync-conflict file(s) — open both copies, merge, delete the conflict copy:");
    let ghost top = before.push(line@);
    output::say(lines, line);
    let ghost shown = cs.map_values(|c: Seq<char>| "  - "@ + clean(c));
    let mut i: usize = 0;
    assert(text::texts(lines@) =~= top + shown.take(0));
    while i < conflicts.len()
        invariant
            i <= conflicts@.len(),
            output::sanitizer(*sanitize),
            clean == output::cleaner(*sanitize),
            cs == text::texts(conflicts@),
            shown == cs.map_values(|c: Seq<char>| "  - "@ + clean(c)),
            text::texts(lines@) == top + shown.take(i as int),
        decreases conflicts@.len() - i,
    {
        let mut line = "  - ".to_owned();
        line.append(output::cleaned(sanitize, conflicts[i].as_str()).as_str());
        assert(line@ == shown[i as int]);
        output::say(lines, line);
        i += 1;
        assert(text::texts(lines@) =~= top + shown.take(i as int));
    }
    assert(shown.take(i as int) =~= shown);
    assert(text::texts(lines@) =~= before + conflict_lines(cs, clean));
}

/// The lines of a running agent.
pub open spec fn running_lines(
    verbose: bool,
    host: Seq<char>,
    f: Running,
    clean: spec_fn(Seq<char>) -> Seq<char>,
) -> Seq<Seq<char>> {
    seq![
        "agent:      running"@,
        "syncthing:  "@ + f.version@ + "  ("@ + f.gui_address@ + ")"@,
    ] + host_lines(host) + seq!["device id:  "@ + f.device_id@, "mode:       p2p"@] + folder_lines(
        shares::folder_views(f.folders@),
        clean,
    ) + peer_lines(f, verbose, clean) + stall_lines(some_stalled(f.peers@)) + pending_lines(
        f.pending@,
        f.aliases@,
        clean,
    ) + offered_lines(f.offered@, f.aliases@, clean) + conflict_lines(
        text::texts(f.conflicts@),
        clean,
    )
}

/// A folder in the document.
pub open spec fn folder_doc(f: FolderView) -> Json {
    Json::Object(
        map![
            "name"@ => Json::Text(f.name),
            "id"@ => Json::Text(f.id),
            "label"@ => Json::Text(f.label),
            "path"@ => Json::Text(f.path),
            "state"@ => Json::Text(f.state),
            "needBytes"@ => Json::Integer(f.need_bytes),
            "peers"@ => json::text_array(f.peers),
        ],
    )
}

/// A folder that is shared with a peer, in the document.
pub open spec fn share_doc(s: ShareView, tags: ShareTags) -> Json {
    Json::Object(
        map![
            "folder"@ => Json::Text(s.name),
            "state"@ => Json::Text(agent::state_tag(tags, s.answer.state)),
            "completion"@ => s.answer.completion,
        ],
    )
}

/// A peer in the document.
pub open spec fn peer_doc(f: Running, p: PeerFacts) -> Json {
    Json::Object(
        map![
            "deviceId"@ => Json::Text(p.sync.id@),
            "name"@ => Json::Text(p.sync.name@),
            "alias"@ => match agent::alias(f.aliases@, p.sync.id@) {
                Some(a) => Json::Text(a),
                None => Json::Null,
            },
            "connected"@ => Json::Bool(p.sync.connected),
            "address"@ => Json::Text(address_of(f.connections@, p.sync.id@)),
            "sharing"@ => Json::Bool(p.sync.sharing),
            "shareState"@ => Json::Text(agent::state_tag(f.tags, p.sync.state)),
            "foldersSynced"@ => Json::Array(
                peer_shares(f, p).map_values(|s: ShareView| share_doc(s, f.tags)),
            ),
        ],
    )
}

/// A pairing request in the document.
pub open spec fn request_doc(p: (String, PendingDevice)) -> Json {
    Json::Object(
        map![
            "deviceId"@ => Json::Text(p.0@),
            "name"@ => Json::Text(p.1.name@),
            "address"@ => Json::Text(p.1.address@),
        ],
    )
}

/// An offer in the document.
pub open spec fn offer_doc(o: OfferView) -> Json {
    Json::Object(
        map![
            "name"@ => Json::Text(o.name),
            "folderId"@ => Json::Text(o.folder),
            "offeredBy"@ => Json::Text(o.device),
            "label"@ => Json::Text(o.label),
            "time"@ => Json::Text(o.time),
            "receiveEncrypted"@ => Json::Bool(o.receive_encrypted),
            "remoteEncrypted"@ => Json::Bool(o.remote_encrypted),
        ],
    )
}

/// The document of a running agent.
pub open spec fn running_doc(host: Seq<char>, f: Running) -> Json {
    Json::Object(
        map![
            "ok"@ => Json::Bool(true),
            "agentRunning"@ => Json::Bool(true),
            "hostname"@ => Json::Text(host),
            "deviceId"@ => Json::Text(f.device_id@),
            "syncthingVersion"@ => Json::Text(f.version@),
            "guiAddress"@ => Json::Text(f.gui_address@),
            "mode"@ => Json::Text("p2p"@),
            "folders"@ => Json::Array(
                shares::folder_views(f.folders@).map_values(|g: FolderView| folder_doc(g)),
            ),
            "aliases"@ => json::json(f.aliases_doc),
            "peers"@ => Json::Array(f.peers@.map_values(|p: PeerFacts| peer_doc(f, p))),
            "pending"@ => Json::Array(
                f.pending@.map_values(|p: (String, PendingDevice)| request_doc(p)),
            ),
            "pendingFolders"@ => Json::Array(
                all_offers(f.offered@).map_values(|o: OfferView| offer_doc(o)),
            ),
            "conflicts"@ => json::text_array(text::texts(f.conflicts@)),
        ],
    )
}

fn doc_of_folder(f: &FolderInfo) -> (r: Value)
    ensures
        json::json(r) == folder_doc(f@),
{
    let doc = json::with_text(json::empty_object(), "name", f.name());
    let doc = json::with_text(doc, "id", f.id.as_str());
    let doc = json::with_text(doc, "label", f.label.as_str());
    let doc = json::with_text(doc, "path", f.path.as_str());
    let doc = json::with_text(doc, "state", f.state.as_str());
    let doc = json::with(doc, "needBytes", json::integer_value(f.need_bytes));
    json::with(doc, "peers", json::text_array_value(&f.peers))
}

fn docs_of_folders(fs: &Vec<FolderInfo>) -> (r: Value)
    ensures
        json::json(r) == Json::Array(
            shares::folder_views(fs@).map_values(|g: FolderView| folder_doc(g)),
        ),
{
    let mut docs: Vec<Value> = Vec::new();
    let mut i: usize = 0;
    while i < fs.len()
        invariant
            i <= fs@.len(),
            docs@.len() == i,
            forall|j: int| 0 <= j < i ==> json::json(#[trigger] docs@[j]) == folder_doc(fs@[j]@),
        decreases fs@.len() - i,
    {
        docs.push(doc_of_folder(&fs[i]));
        i += 1;
    }
    assert(json::jsons(docs@) =~= shares::folder_views(fs@).map_values(
        |g: FolderView| folder_doc(g),
    ));
    json::array_value(docs)
}

fn docs_of_shares(ss: &Vec<Share>, tags: &ShareTags) -> (r: Value)
    ensures
        json::json(r) == Json::Array(
            shares::share_views(ss@).map_values(|s: ShareView| share_doc(s, *tags)),
        ),
{
    let mut docs: Vec<Value> = Vec::new();
    let mut i: usize = 0;
    while i < ss.len()
        invariant
            i <= ss@.len(),
            docs@.len() == i,
            forall|j: int|
                0 <= j < i ==> json::json(#[trigger] docs@[j]) == share_doc(ss@[j]@, *tags),
        decreases ss@.len() - i,
    {
        let a = &ss[i].answer;
        let doc = json::with_text(json::empty_object(), "folder", ss[i].name.as_str());
        let doc = json::with_text(doc, "state", tags.tag(a.state));
        docs.push(json::with(doc, "completion", json::copy_value(&a.completion)));
        i += 1;
    }
    assert(json::jsons(docs@) =~= shares::share_views(ss@).map_values(
        |s: ShareView| share_doc(s, *tags),
    ));
    json::array_value(docs)
}

fn doc_of_peer(f: &Running, p: &PeerFacts) -> (r: Value)
    ensures
        json::json(r) == peer_doc(*f, *p),
{
    let doc = json::with_text(json::empty_object(), "deviceId", p.sync.id.as_str());
    let doc = json::with_text(doc, "name", p.sync.name.as_str());
    let doc = match f.aliases.alias_for(p.sync.id.as_str()) {
        Some(a) => json::with_text(doc, "alias", a.as_str()),
        None => json::with(doc, "alias", json::null_value()),
    };
    let doc = json::with_bool(doc, "connected", p.sync.connected);
    let address = address_for(&f.connections, p.sync.id.as_str());
    let doc = json::with_text(doc, "address", address.as_str());
    let doc = json::with_bool(doc, "sharing", p.sync.sharing);
    let doc = json::with_text(doc, "shareState", f.tags.tag(p.sync.state));
    let ss = shares::peer_folder_states(&f.folders, &p.sync, &p.answers, &f.zero);
    json::with(doc, "foldersSynced", docs_of_shares(&ss, &f.tags))
}

fn docs_of_peers(f: &Running) -> (r: Value)
    ensures
        json::json(r) == Json::Array(f.peers@.map_values(|p: PeerFacts| peer_doc(*f, p))),
{
    let mut docs: Vec<Value> = Vec::new();
    let mut i: usize = 0;
    while i < f.peers.len()
        invariant
            i <= f.peers@.len(),
            docs@.len() == i,
            forall|j: int|
                0 <= j < i ==> json::json(#[trigger] docs@[j]) == peer_doc(*f, f.peers@[j]),
        decreases f.peers@.len() - i,
    {
        docs.push(doc_of_peer(f, &f.peers[i]));
        i += 1;
    }
    assert(json::jsons(docs@) =~= f.peers@.map_values(|p: PeerFacts| peer_doc(*f, p)));
    json::array_value(docs)
}

fn docs_of_requests(ps: &Vec<(String, PendingDevice)>) -> (r: Value)
    ensures
        json::json(r) == Json::Array(
            ps@.map_values(|p: (String, PendingDevice)| request_doc(p)),
        ),
{
    let mut docs: Vec<Value> = Vec::new();
    let mut i: usize = 0;
    while i < ps.len()
        invariant
            i <= ps@.len(),
            docs@.len() == i,
            forall|j: int| 0 <= j < i ==> json::json(#[trigger] docs@[j]) == request_doc(ps@[j]),
        decreases ps@.len() - i,
    {
        let doc = json::with_text(json::empty_object(), "deviceId", ps[i].0.as_str());
        let doc = json::with_text(doc, "name", ps[i].1.name.as_str());
        docs.push(json::with_text(doc, "address", ps[i].1.address.as_str()));
        i += 1;
    }
    assert(json::jsons(docs@) =~= ps@.map_values(|p: (String, PendingDevice)| request_doc(p)));
    json::array_value(docs)
}

fn docs_of_offers(fs: &Vec<OfferedFacts>) -> (r: Value)
    ensures
        json::json(r) == Json::Array(all_offers(fs@).map_values(|o: OfferView| offer_doc(o))),
{
    let os = flat_offers(fs);
    let ghost all = all_offers(fs@);
    let mut docs: Vec<Value> = Vec::new();
    let mut i: usize = 0;
    while i < os.len()
        invariant
            i <= os@.len(),
            all == offer_views(os@),
            docs@.len() == i,
            forall|j: int| 0 <= j < i ==> json::json(#[trigger] docs@[j]) == offer_doc(all[j]),
        decreases os@.len() - i,
    {
        let o = &os[i];
        assert(all[i as int] == o@);
        let doc = json::with_text(json::empty_object(), "name", o.name.as_str());
        let doc = json::with_text(doc, "folderId", o.folder.as_str());
        let doc = json::with_text(doc, "offeredBy", o.device.as_str());
        let doc = json::with_text(doc, "label", o.offer.label.as_str());
        let doc = json::with_text(doc, "time", o.offer.time.as_str());
        let doc = json::with_bool(doc, "receiveEncrypted", o.offer.receive_encrypted);
        docs.push(json::with_bool(doc, "remoteEncrypted", o.offer.remote_encrypted));
        i += 1;
    }
    assert(json::jsons(docs@) =~= all.map_values(|o: OfferView| offer_doc(o)));
    json::array_value(docs)
}

fn doc_of_running(host: &str, f: &Running) -> (r: Value)
    ensures
        json::json(r) == running_doc(host@, *f),
{
    let doc = json::with_bool(json::empty_object(), "ok", true);
    let doc = json::with_bool(doc, "agentRunning", true);
    let doc = json::with_text(doc, "hostname", host);
    let doc = json::with_text(doc, "deviceId", f.device_id.as_str());
    let doc = json::with_text(doc, "syncthingVersion", f.version.as_str());
    let doc = json::with_text(doc, "guiAddress", f.gui_address.as_str());
    let doc = json::with_text(doc, "mode", "p2p");
    let doc = json::with(doc, "folders", docs_of_folders(&f.folders));
    let doc = json::with(doc, "aliases", json::copy_value(&f.aliases_doc));
    let doc = json::with(doc, "peers", docs_of_peers(f));
    let doc = json::with(doc, "pending", docs_of_requests(&f.pending));
    let doc = json::with(doc, "pendingFolders", docs_of_offers(&f.offered));
    json::with(doc, "conflicts", json::text_array_value(&f.conflicts))
}

/// What `status` shows and leaves.
pub open spec fn status_output(
    verbose: bool,
    host: Seq<char>,
    running: Option<Running>,
    clean: spec_fn(Seq<char>) -> Seq<char>,
) -> OutputView {
    match running {
        Some(f) => OutputView {
            lines: running_lines(verbose, host, f, clean),
            doc: running_doc(host, f),
        },
        None => stopped_output(host),
    }
}

fn lines_of_running<F: Fn(&str) -> String>(
    verbose: bool,
    host: &str,
    f: &Running,
    sanitize: &F,
) -> (r: Vec<String>)
    requires
        output::sanitizer(*sanitize),
    ensures
        text::texts(r@) == running_lines(verbose, host@, *f, output::cleaner(*sanitize)),
{
    let mut lines: Vec<String> = Vec::new();
    assert(text::texts(lines@) =~= Seq::<Seq<char>>::empty());
    output::say(&mut lines, "agent:      running".to_owned());
    let mut line = "syncthing:  ".to_owned();
    line.append(f.version.as_str());
    line.append("  (");
    line.append(f.gui_address.as_str());
    line.append(")");
    output::say(&mut lines, line);
    assert(text::texts(lines@) =~= seq!["agent:      running"@, line@]);
    say_host(&mut lines, host);
    let ghost before = text::texts(lines@);
    let mut line = "device id:  ".to_owned();
    line.append(f.device_id.as_str());
    output::say(&mut lines, line);
    output::say(&mut lines, "mode:       p2p".to_owned());
    assert(text::texts(lines@) =~= before + seq![line@, "mode:       p2p"@]);
    say_folders(&mut lines, &f.folders, sanitize);
    say_peers(&mut lines, f, verbose, sanitize);
    say_stall(&mut lines, has_stalled(&f.peers));
    say_pending(&mut lines, &f.pending, &f.aliases, sanitize);
    say_offered(&mut lines, &f.offered, &f.aliases, sanitize);
    say_conflicts(&mut lines, &f.conflicts, sanitize);
    lines
}

/// What `byteferret status` shows and leaves, of this machine and of the agent where it
/// runs.
pub fn status<F: Fn(&str) -> String>(
    verbose: bool,
    host: &str,
    running: Option<&Running>,
    sanitize: &F,
) -> (r: Output)
    requires
        output::sanitizer(*sanitize),
    ensures
        r@ == status_output(
            verbose,
            host@,
            match running {
                Some(f) => Some(*f),
                None => None,
            },
            output::cleaner(*sanitize),
        ),
{
    match running {
        Some(f) => Output {
            lines: lines_of_running(verbose, host, f, sanitize),
            doc: doc_of_running(host, f),
        },
        None => stopped(host),
    }
}

/// The peers of a list of facts.
pub open spec fn syncs(ps: Seq<PeerFacts>) -> Seq<PeerView> {
    ps.map_values(|p: PeerFacts| p.sync@)
}

/// `status` has its note on the silent stall exactly where `doctor`, on the same peers,
/// has its warning: the two commands can never disagree.
pub proof fn doctor_and_status_agree(
    ps: Seq<PeerFacts>,
    clean: spec_fn(Seq<char>) -> Seq<char>,
)
    requires
        forall|i: int| 0 <= i < ps.len() ==> agent::classified(#[trigger] ps[i].sync@),
    ensures
        stall_lines(some_stalled(ps)).len() > 0 <==> doctor::peer_checks(
            syncs(ps),
            clean,
        ).contains(doctor::stall_check(syncs(ps), clean)),
{
    let peers = syncs(ps);
    assert forall|i: int| 0 <= i < peers.len() implies agent::classified(
        #[trigger] peers[i],
    ) by {
        assert(agent::classified(ps[i].sync@));
    }
    doctor::a_stall_is_always_reported(peers, clean);
    if some_stalled(ps) {
        let i = choose|i: int| 0 <= i < ps.len() && agent::is_stalled(#[trigger] ps[i].sync@);
        assert(agent::is_stalled(peers[i]));
    }
    if exists|i: int| 0 <= i < peers.len() && agent::is_stalled(#[trigger] peers[i]) {
        let i = choose|i: int| 0 <= i < peers.len() && agent::is_stalled(#[trigger] peers[i]);
        assert(agent::is_stalled(ps[i].sync@));
    }
}

} // verus!
