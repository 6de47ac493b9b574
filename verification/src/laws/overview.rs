//! Laws on what `status` shows of the running agent.

use vstd::prelude::*;

use crate::agent;
use crate::commands::shares;
use crate::commands::shares::{FolderView, ShareView};
use crate::commands::status;
use crate::commands::status::{OfferView, OfferedFacts, PeerFacts, Running};
use crate::json;
use crate::json::Json;
use crate::laws::documents;
use crate::syncthing::rest::PendingDevice;
use crate::text;

verus! {

/// How many offers the first `n` folders have: one for each device that offers one of them.
pub open spec fn offers_before(fs: Seq<OfferedFacts>, n: int) -> int
    decreases n,
{
    if n <= 0 {
        0
    } else {
        offers_before(fs, n - 1) + fs[n - 1].pending.offered_by@.len()
    }
}

/// The offer is of the folder, by the `k`th of the devices that offer it.
pub open spec fn is_offer(o: OfferView, f: OfferedFacts, k: int) -> bool {
    let by = f.pending.offered_by@[k];
    &&& o.folder == f.folder@
    &&& o.name == f.name@
    &&& o.device == by.0@
    &&& o.label == by.1.label@
    &&& o.time == by.1.time@
    &&& o.receive_encrypted == by.1.receive_encrypted
    &&& o.remote_encrypted == by.1.remote_encrypted
}

proof fn lemma_before_of_front(fs: Seq<OfferedFacts>, n: int)
    requires
        0 <= n < fs.len(),
    ensures
        offers_before(fs.drop_last(), n) == offers_before(fs, n),
    decreases n,
{
    if n > 0 {
        lemma_before_of_front(fs, n - 1);
    }
}

proof fn lemma_before_grows(fs: Seq<OfferedFacts>, n: int, m: int)
    requires
        0 <= n <= m <= fs.len(),
    ensures
        0 <= offers_before(fs, n) <= offers_before(fs, m),
    decreases m,
{
    if n < m {
        lemma_before_grows(fs, n, m - 1);
    } else if n > 0 {
        lemma_before_grows(fs, n - 1, m - 1);
    }
}

/// There are as many offers as there are folders with a device that offers them.
pub proof fn the_offers_are_counted(fs: Seq<OfferedFacts>)
    ensures
        status::all_offers(fs).len() == offers_before(fs, fs.len() as int),
    decreases fs.len(),
{
    if fs.len() > 0 {
        the_offers_are_counted(fs.drop_last());
        lemma_before_of_front(fs, fs.len() - 1);
    }
}

/// There is an offer for every folder and every device that offers it, folder by folder.
pub proof fn every_offer_of_every_folder_is_there(fs: Seq<OfferedFacts>, j: int, k: int)
    requires
        0 <= j < fs.len(),
        0 <= k < fs[j].pending.offered_by@.len(),
    ensures
        0 <= offers_before(fs, j) + k < status::all_offers(fs).len(),
        is_offer(status::all_offers(fs)[offers_before(fs, j) + k], fs[j], k),
    decreases fs.len(),
{
    let all = status::all_offers(fs);
    let front = fs.drop_last();
    let n = fs.len() - 1;
    the_offers_are_counted(fs);
    the_offers_are_counted(front);
    lemma_before_of_front(fs, n);
    lemma_before_grows(fs, j, n);
    if j < n {
        lemma_before_of_front(fs, j);
        every_offer_of_every_folder_is_there(front, j, k);
    } else {
        assert(all[offers_before(fs, n) + k] == status::offers_of(fs.last())[k]);
    }
}

proof fn lemma_keys()
    ensures
        "ok"@.len() == 2,
        "agentRunning"@.len() == 12,
        "hostname"@.len() == 8 && "hostname"@[0] == 'h',
        "deviceId"@.len() == 8 && "deviceId"@[0] == 'd',
        "syncthingVersion"@.len() == 16,
        "guiAddress"@.len() == 10,
        "mode"@.len() == 4,
        "folders"@.len() == 7 && "folders"@[0] == 'f',
        "aliases"@.len() == 7 && "aliases"@[0] == 'a',
        "peers"@.len() == 5,
        "pending"@.len() == 7 && "pending"@[0] == 'p',
        "pendingFolders"@.len() == 14,
        "conflicts"@.len() == 9,
{
    reveal_strlit("ok");
    reveal_strlit("agentRunning");
    reveal_strlit("hostname");
    reveal_strlit("deviceId");
    reveal_strlit("syncthingVersion");
    reveal_strlit("guiAddress");
    reveal_strlit("mode");
    reveal_strlit("folders");
    reveal_strlit("aliases");
    reveal_strlit("peers");
    reveal_strlit("pending");
    reveal_strlit("pendingFolders");
    reveal_strlit("conflicts");
}

/// The document of a running agent says so, and has this machine's name, the device id, the
/// version, the address, the mode and the aliases. It has as many folders, peers, requests,
/// offers and conflict files as there are.
pub proof fn the_document_describes_the_agent(
    verbose: bool,
    host: Seq<char>,
    f: Running,
    clean: spec_fn(Seq<char>) -> Seq<char>,
)
    ensures
        ({
            let doc = status::status_output(verbose, host, Some(f), clean).doc;
            &&& documents::has(doc, "ok"@, Json::Bool(true))
            &&& documents::has(doc, "agentRunning"@, Json::Bool(true))
            &&& documents::has(doc, "hostname"@, Json::Text(host))
            &&& documents::has(doc, "deviceId"@, Json::Text(f.device_id@))
            &&& documents::has(doc, "syncthingVersion"@, Json::Text(f.version@))
            &&& documents::has(doc, "guiAddress"@, Json::Text(f.gui_address@))
            &&& documents::has(doc, "mode"@, Json::Text("p2p"@))
            &&& documents::has(doc, "aliases"@, json::json(f.aliases_doc))
            &&& documents::has_array(doc, "folders"@)
            &&& documents::has_array(doc, "peers"@)
            &&& documents::has_array(doc, "pending"@)
            &&& documents::has_array(doc, "pendingFolders"@)
            &&& documents::has_array(doc, "conflicts"@)
            &&& documents::array_at(doc, "folders"@).len() == f.folders@.len()
            &&& documents::array_at(doc, "peers"@).len() == f.peers@.len()
            &&& documents::array_at(doc, "pending"@).len() == f.pending@.len()
            &&& documents::array_at(doc, "pendingFolders"@).len() == offers_before(
                f.offered@,
                f.offered@.len() as int,
            )
            &&& documents::array_at(doc, "conflicts"@).len() == f.conflicts@.len()
        }),
{
    lemma_keys();
    the_offers_are_counted(f.offered@);
}

/// Where the agent is down the document says so and has this machine's name, and so do the
/// lines; there is nothing else to say.
pub proof fn a_stopped_agent_is_told(
    verbose: bool,
    host: Seq<char>,
    clean: spec_fn(Seq<char>) -> Seq<char>,
)
    ensures
        ({
            let out = status::status_output(verbose, host, None, clean);
            &&& documents::has(out.doc, "ok"@, Json::Bool(true))
            &&& documents::has(out.doc, "agentRunning"@, Json::Bool(false))
            &&& documents::has(out.doc, "hostname"@, Json::Text(host))
            &&& out.lines.len() == (if host.len() == 0 {
                1nat
            } else {
                2nat
            })
            &&& out.lines[0] == "agent:      stopped   (run `byteferret start`)"@
            &&& host.len() > 0 ==> out.lines[1] == "hostname:   "@ + host
        }),
{
    lemma_keys();
}

/// The document has every folder, in its place, with all that is known of it.
pub proof fn the_document_has_every_folder(
    verbose: bool,
    host: Seq<char>,
    f: Running,
    clean: spec_fn(Seq<char>) -> Seq<char>,
    i: int,
)
    requires
        0 <= i < f.folders@.len(),
    ensures
        ({
            let doc = status::status_output(verbose, host, Some(f), clean).doc;
            let entries = documents::array_at(doc, "folders"@);
            let folder = f.folders@[i];
            let peers = documents::array_at(entries[i], "peers"@);
            &&& entries.len() == f.folders@.len()
            &&& documents::has(entries[i], "name"@, Json::Text(folder.name@))
            &&& documents::has(entries[i], "id"@, Json::Text(folder.id@))
            &&& documents::has(entries[i], "label"@, Json::Text(folder.label@))
            &&& documents::has(entries[i], "path"@, Json::Text(folder.path@))
            &&& documents::has(entries[i], "state"@, Json::Text(folder.state@))
            &&& documents::has(entries[i], "needBytes"@, Json::Integer(folder.need_bytes as int))
            &&& documents::has_array(entries[i], "peers"@)
            &&& peers.len() == folder.peers@.len()
            &&& forall|k: int|
                0 <= k < peers.len() ==> #[trigger] peers[k] == Json::Text(folder.peers@[k]@)
        }),
{
    lemma_keys();
    reveal_strlit("name");
    reveal_strlit("id");
    reveal_strlit("label");
    reveal_strlit("path");
    reveal_strlit("state");
    reveal_strlit("needBytes");
    assert("id"@.len() == 2 && "needBytes"@.len() == 9);
    assert("name"@.len() == 4 && "path"@.len() == 4 && "name"@[0] == 'n' && "path"@[0] == 'p');
    assert("label"@.len() == 5 && "state"@.len() == 5 && "label"@[0] == 'l' && "state"@[0] == 's');
    reveal_strlit("peers");
    assert("peers"@[0] == 'p');
    let doc = status::status_output(verbose, host, Some(f), clean).doc;
    let entries = documents::array_at(doc, "folders"@);
    assert(entries == shares::folder_views(f.folders@).map_values(
        |g: FolderView| status::folder_doc(g),
    ));
    assert(entries[i] == status::folder_doc(f.folders@[i]@));
}

/// The document has every peer, in its place, with all that is known of it, and with each
/// folder that is shared with it.
pub proof fn the_document_has_every_peer(
    verbose: bool,
    host: Seq<char>,
    f: Running,
    clean: spec_fn(Seq<char>) -> Seq<char>,
    i: int,
)
    requires
        0 <= i < f.peers@.len(),
    ensures
        ({
            let doc = status::status_output(verbose, host, Some(f), clean).doc;
            let entries = documents::array_at(doc, "peers"@);
            let p = f.peers@[i].sync;
            let synced = documents::array_at(entries[i], "foldersSynced"@);
            let shared = status::peer_shares(f, f.peers@[i]);
            &&& entries.len() == f.peers@.len()
            &&& documents::has(entries[i], "deviceId"@, Json::Text(p.id@))
            &&& documents::has(entries[i], "name"@, Json::Text(p.name@))
            &&& documents::has(
                entries[i],
                "alias"@,
                match agent::alias(f.aliases@, p.id@) {
                    Some(a) => Json::Text(a),
                    None => Json::Null,
                },
            )
            &&& documents::has(entries[i], "connected"@, Json::Bool(p.connected))
            &&& documents::has(
                entries[i],
                "address"@,
                Json::Text(status::address_of(f.connections@, p.id@)),
            )
            &&& documents::has(entries[i], "sharing"@, Json::Bool(p.sharing))
            &&& documents::has(
                entries[i],
                "shareState"@,
                Json::Text(agent::state_tag(f.tags, p.state)),
            )
            &&& documents::has_array(entries[i], "foldersSynced"@)
            &&& synced.len() == shared.len()
            &&& forall|k: int|
                0 <= k < synced.len() ==> {
                    &&& documents::has(#[trigger] synced[k], "folder"@, Json::Text(shared[k].name))
                    &&& documents::has(
                        synced[k],
                        "state"@,
                        Json::Text(agent::state_tag(f.tags, shared[k].answer.state)),
                    )
                    &&& documents::has(synced[k], "completion"@, shared[k].answer.completion)
                }
        }),
{
    lemma_keys();
    reveal_strlit("name");
    reveal_strlit("alias");
    reveal_strlit("connected");
    reveal_strlit("address");
    reveal_strlit("sharing");
    reveal_strlit("shareState");
    reveal_strlit("foldersSynced");
    reveal_strlit("folder");
    reveal_strlit("state");
    reveal_strlit("completion");
    assert("name"@.len() == 4 && "alias"@.len() == 5 && "connected"@.len() == 9);
    assert("address"@.len() == 7 && "sharing"@.len() == 7);
    assert("address"@[0] == 'a' && "sharing"@[0] == 's');
    assert("shareState"@.len() == 10 && "foldersSynced"@.len() == 13);
    assert("folder"@.len() == 6 && "state"@.len() == 5 && "completion"@.len() == 10);
    let doc = status::status_output(verbose, host, Some(f), clean).doc;
    let entries = documents::array_at(doc, "peers"@);
    assert(entries == f.peers@.map_values(|p: PeerFacts| status::peer_doc(f, p)));
    assert(entries[i] == status::peer_doc(f, f.peers@[i]));
    let shared = status::peer_shares(f, f.peers@[i]);
    let synced = documents::array_at(entries[i], "foldersSynced"@);
    assert(synced == shared.map_values(|s: ShareView| status::share_doc(s, f.tags)));
    assert forall|k: int| 0 <= k < synced.len() implies #[trigger] synced[k] == status::share_doc(
        shared[k],
        f.tags,
    ) by {}
}

/// The document has every pairing request, in its place.
pub proof fn the_document_has_every_request(
    verbose: bool,
    host: Seq<char>,
    f: Running,
    clean: spec_fn(Seq<char>) -> Seq<char>,
    i: int,
)
    requires
        0 <= i < f.pending@.len(),
    ensures
        ({
            let doc = status::status_output(verbose, host, Some(f), clean).doc;
            let entries = documents::array_at(doc, "pending"@);
            let (id, request) = f.pending@[i];
            &&& entries.len() == f.pending@.len()
            &&& documents::has(entries[i], "deviceId"@, Json::Text(id@))
            &&& documents::has(entries[i], "name"@, Json::Text(request.name@))
            &&& documents::has(entries[i], "address"@, Json::Text(request.address@))
        }),
{
    lemma_keys();
    reveal_strlit("name");
    reveal_strlit("address");
    assert("name"@.len() == 4 && "address"@.len() == 7);
    let doc = status::status_output(verbose, host, Some(f), clean).doc;
    let entries = documents::array_at(doc, "pending"@);
    assert(entries == f.pending@.map_values(|p: (String, PendingDevice)| status::request_doc(p)));
    assert(entries[i] == status::request_doc(f.pending@[i]));
}

/// The document has, for every folder and every device that offers it, the offer of that
/// folder by that device, and there are no other offers.
pub proof fn the_document_has_every_offer(
    verbose: bool,
    host: Seq<char>,
    f: Running,
    clean: spec_fn(Seq<char>) -> Seq<char>,
    j: int,
    k: int,
)
    requires
        0 <= j < f.offered@.len(),
        0 <= k < f.offered@[j].pending.offered_by@.len(),
    ensures
        ({
            let doc = status::status_output(verbose, host, Some(f), clean).doc;
            let entries = documents::array_at(doc, "pendingFolders"@);
            let entry = entries[offers_before(f.offered@, j) + k];
            let folder = f.offered@[j];
            let (device, offer) = folder.pending.offered_by@[k];
            &&& entries.len() == offers_before(f.offered@, f.offered@.len() as int)
            &&& 0 <= offers_before(f.offered@, j) + k < entries.len()
            &&& documents::has(entry, "name"@, Json::Text(folder.name@))
            &&& documents::has(entry, "folderId"@, Json::Text(folder.folder@))
            &&& documents::has(entry, "offeredBy"@, Json::Text(device@))
            &&& documents::has(entry, "label"@, Json::Text(offer.label@))
            &&& documents::has(entry, "time"@, Json::Text(offer.time@))
            &&& documents::has(entry, "receiveEncrypted"@, Json::Bool(offer.receive_encrypted))
            &&& documents::has(entry, "remoteEncrypted"@, Json::Bool(offer.remote_encrypted))
        }),
{
    lemma_keys();
    reveal_strlit("name");
    reveal_strlit("folderId");
    reveal_strlit("offeredBy");
    reveal_strlit("label");
    reveal_strlit("time");
    reveal_strlit("receiveEncrypted");
    reveal_strlit("remoteEncrypted");
    assert("name"@.len() == 4 && "time"@.len() == 4 && "name"@[0] == 'n' && "time"@[0] == 't');
    assert("folderId"@.len() == 8 && "offeredBy"@.len() == 9 && "label"@.len() == 5);
    assert("receiveEncrypted"@.len() == 16 && "remoteEncrypted"@.len() == 15);
    let doc = status::status_output(verbose, host, Some(f), clean).doc;
    let entries = documents::array_at(doc, "pendingFolders"@);
    let offers = status::all_offers(f.offered@);
    assert(entries == offers.map_values(|o: OfferView| status::offer_doc(o)));
    the_offers_are_counted(f.offered@);
    every_offer_of_every_folder_is_there(f.offered@, j, k);
    let n = offers_before(f.offered@, j) + k;
    assert(entries[n] == status::offer_doc(offers[n]));
}

/// The document has the path of every conflict file, in its place.
pub proof fn the_document_has_every_conflict(
    verbose: bool,
    host: Seq<char>,
    f: Running,
    clean: spec_fn(Seq<char>) -> Seq<char>,
)
    ensures
        ({
            let doc = status::status_output(verbose, host, Some(f), clean).doc;
            let entries = documents::array_at(doc, "conflicts"@);
            &&& entries.len() == f.conflicts@.len()
            &&& forall|i: int|
                0 <= i < entries.len() ==> #[trigger] entries[i] == Json::Text(f.conflicts@[i]@)
        }),
{
    lemma_keys();
    let doc = status::status_output(verbose, host, Some(f), clean).doc;
    let entries = documents::array_at(doc, "conflicts"@);
    assert(entries == documents::items_of(json::text_array(text::texts(f.conflicts@))));
}

/// How many lines there are before the folders: the agent, its version, this machine's name
/// where it is known, the device id and the mode.
pub open spec fn folders_at(host: Seq<char>) -> int {
    if host.len() == 0 {
        4
    } else {
        5
    }
}

/// How many lines there are before the peers.
pub open spec fn peers_at(host: Seq<char>, f: Running) -> int {
    folders_at(host) + 1 + f.folders@.len()
}

/// How many lines a peer has: one of its own and one for each folder that is shared with it,
/// or one that says that there is none.
pub open spec fn height_of(f: Running, p: PeerFacts) -> int {
    if status::peer_shares(f, p).len() == 0 {
        2
    } else {
        1 + status::peer_shares(f, p).len() as int
    }
}

/// How many lines the first `n` peers have.
pub open spec fn heights(f: Running, ps: Seq<PeerFacts>, n: int) -> int
    decreases n,
{
    if n <= 0 {
        0
    } else {
        heights(f, ps, n - 1) + height_of(f, ps[n - 1])
    }
}

/// How many lines there are before the peer at `i`.
pub open spec fn peer_at(host: Seq<char>, f: Running, i: int) -> int {
    peers_at(host, f) + 1 + heights(f, f.peers@, i)
}

/// Some peer is connected and does not share back.
pub open spec fn has_silent_stall(f: Running) -> bool {
    exists|i: int|
        0 <= i < f.peers@.len() && (#[trigger] f.peers@[i]).sync.state
            == agent::ShareState::NotSharingBack
}

/// How many lines there are before the pairing requests.
pub open spec fn requests_at(host: Seq<char>, f: Running) -> int {
    peer_at(host, f, f.peers@.len() as int) + (if has_silent_stall(f) {
        2int
    } else {
        0int
    })
}

/// How many lines there are before the offers.
pub open spec fn offers_at(host: Seq<char>, f: Running) -> int {
    requests_at(host, f) + (if f.pending@.len() == 0 {
        0int
    } else {
        1 + 3 * f.pending@.len() as int
    })
}

/// How many lines there are before the conflict files.
pub open spec fn conflicts_at(host: Seq<char>, f: Running) -> int {
    offers_at(host, f) + (if f.offered@.len() == 0 {
        0
    } else {
        1 + 2 * offers_before(f.offered@, f.offered@.len() as int)
    })
}

/// How many lines there are in all.
pub open spec fn all_lines(host: Seq<char>, f: Running) -> int {
    conflicts_at(host, f) + (if f.conflicts@.len() == 0 {
        0
    } else {
        1 + f.conflicts@.len() as int
    })
}

proof fn lemma_heights_of_front(f: Running, ps: Seq<PeerFacts>, n: int)
    requires
        0 <= n < ps.len(),
    ensures
        heights(f, ps.drop_last(), n) == heights(f, ps, n),
    decreases n,
{
    if n > 0 {
        lemma_heights_of_front(f, ps, n - 1);
    }
}

proof fn lemma_heights_grow(f: Running, ps: Seq<PeerFacts>, n: int, m: int)
    requires
        0 <= n <= m <= ps.len(),
    ensures
        0 <= heights(f, ps, n) <= heights(f, ps, m),
        n < m ==> heights(f, ps, n) + height_of(f, ps[n]) <= heights(f, ps, m),
    decreases m,
{
    if n < m {
        lemma_heights_grow(f, ps, n, m - 1);
    } else if n > 0 {
        lemma_heights_grow(f, ps, n - 1, m - 1);
    }
}

proof fn lemma_peers_height(
    f: Running,
    ps: Seq<PeerFacts>,
    verbose: bool,
    clean: spec_fn(Seq<char>) -> Seq<char>,
)
    ensures
        status::lines_of_peers(f, ps, verbose, clean).len() == heights(f, ps, ps.len() as int),
    decreases ps.len(),
{
    if ps.len() > 0 {
        lemma_peers_height(f, ps.drop_last(), verbose, clean);
        lemma_heights_of_front(f, ps, ps.len() - 1);
    }
}

proof fn lemma_lines_of_peer_at(
    f: Running,
    ps: Seq<PeerFacts>,
    verbose: bool,
    clean: spec_fn(Seq<char>) -> Seq<char>,
    i: int,
    k: int,
)
    requires
        0 <= i < ps.len(),
        0 <= k < height_of(f, ps[i]),
    ensures
        heights(f, ps, i) + k < status::lines_of_peers(f, ps, verbose, clean).len(),
        status::lines_of_peers(f, ps, verbose, clean)[heights(f, ps, i) + k]
            == status::lines_of_peer(f, ps[i], verbose, clean)[k],
    decreases ps.len(),
{
    let front = ps.drop_last();
    let n = ps.len() - 1;
    lemma_peers_height(f, ps, verbose, clean);
    lemma_peers_height(f, front, verbose, clean);
    lemma_heights_of_front(f, ps, n);
    lemma_heights_grow(f, ps, i, ps.len() as int);
    lemma_heights_grow(f, ps, i, n);
    if i < n {
        lemma_heights_of_front(f, ps, i);
        lemma_lines_of_peer_at(f, front, verbose, clean, i, k);
    }
}

proof fn lemma_requests_lines_at(
    ps: Seq<(String, PendingDevice)>,
    aliases: Seq<(Seq<char>, Seq<char>)>,
    clean: spec_fn(Seq<char>) -> Seq<char>,
)
    ensures
        status::requests_lines(ps, aliases, clean).len() == 3 * ps.len(),
        forall|i: int, k: int|
            0 <= i < ps.len() && 0 <= k < 3 ==> status::requests_lines(ps, aliases, clean)[3 * i
                + k] == #[trigger] status::request_lines(
                ps[i].0@,
                ps[i].1.name@,
                aliases,
                clean,
            )[k],
    decreases ps.len(),
{
    if ps.len() > 0 {
        let front = ps.drop_last();
        lemma_requests_lines_at(front, aliases, clean);
        let all = status::requests_lines(ps, aliases, clean);
        assert forall|i: int, k: int| 0 <= i < ps.len() && 0 <= k < 3 implies all[3 * i + k]
            == #[trigger] status::request_lines(ps[i].0@, ps[i].1.name@, aliases, clean)[k] by {
            if i < front.len() {
                assert(front[i] == ps[i]);
                assert(status::requests_lines(front, aliases, clean)[3 * i + k]
                    == status::request_lines(front[i].0@, front[i].1.name@, aliases, clean)[k]);
            }
        }
    }
}

proof fn lemma_offers_lines_at(
    os: Seq<OfferView>,
    aliases: Seq<(Seq<char>, Seq<char>)>,
    clean: spec_fn(Seq<char>) -> Seq<char>,
)
    ensures
        status::offers_lines(os, aliases, clean).len() == 2 * os.len(),
        forall|i: int, k: int|
            0 <= i < os.len() && 0 <= k < 2 ==> status::offers_lines(os, aliases, clean)[2 * i + k]
                == #[trigger] status::offer_lines(os[i], aliases, clean)[k],
    decreases os.len(),
{
    if os.len() > 0 {
        let front = os.drop_last();
        lemma_offers_lines_at(front, aliases, clean);
        let all = status::offers_lines(os, aliases, clean);
        assert forall|i: int, k: int| 0 <= i < os.len() && 0 <= k < 2 implies all[2 * i + k]
            == #[trigger] status::offer_lines(os[i], aliases, clean)[k] by {
            if i < front.len() {
                assert(front[i] == os[i]);
                assert(status::offers_lines(front, aliases, clean)[2 * i + k]
                    == status::offer_lines(front[i], aliases, clean)[k]);
            }
        }
    }
}

proof fn lemma_stall(f: Running)
    ensures
        status::some_stalled(f.peers@) == has_silent_stall(f),
{
    if has_silent_stall(f) {
        let i = choose|i: int|
            0 <= i < f.peers@.len() && (#[trigger] f.peers@[i]).sync.state
                == agent::ShareState::NotSharingBack;
        assert(agent::is_stalled(f.peers@[i].sync@));
    }
}

proof fn lemma_parts(
    verbose: bool,
    host: Seq<char>,
    f: Running,
    clean: spec_fn(Seq<char>) -> Seq<char>,
)
    ensures
        ({
            let fs = status::folder_lines(shares::folder_views(f.folders@), clean);
            let ps = status::peer_lines(f, verbose, clean);
            let ss = status::stall_lines(has_silent_stall(f));
            let qs = status::pending_lines(f.pending@, f.aliases@, clean);
            let os = status::offered_lines(f.offered@, f.aliases@, clean);
            let cs = status::conflict_lines(text::texts(f.conflicts@), clean);
            let lines = status::running_lines(verbose, host, f, clean);
            &&& lines.len() == all_lines(host, f)
            &&& lines[0] == "agent:      running"@
            &&& lines[1] == "syncthing:  "@ + f.version@ + "  ("@ + f.gui_address@ + ")"@
            &&& host.len() > 0 ==> lines[2] == "hostname:   "@ + host
            &&& lines[folders_at(host) - 2] == "device id:  "@ + f.device_id@
            &&& lines[folders_at(host) - 1] == "mode:       p2p"@
            &&& fs.len() == peers_at(host, f) - folders_at(host)
            &&& ps.len() == peer_at(host, f, f.peers@.len() as int) - peers_at(host, f)
            &&& ss.len() == requests_at(host, f) - peer_at(host, f, f.peers@.len() as int)
            &&& qs.len() == offers_at(host, f) - requests_at(host, f)
            &&& os.len() == conflicts_at(host, f) - offers_at(host, f)
            &&& cs.len() == all_lines(host, f) - conflicts_at(host, f)
            &&& forall|i: int| 0 <= i < fs.len() ==> lines[folders_at(host) + i] == #[trigger] fs[i]
            &&& forall|i: int| 0 <= i < ps.len() ==> lines[peers_at(host, f) + i] == #[trigger] ps[i]
            &&& forall|i: int|
                0 <= i < ss.len() ==> lines[peer_at(host, f, f.peers@.len() as int) + i]
                    == #[trigger] ss[i]
            &&& forall|i: int|
                0 <= i < qs.len() ==> lines[requests_at(host, f) + i] == #[trigger] qs[i]
            &&& forall|i: int|
                0 <= i < os.len() ==> lines[offers_at(host, f) + i] == #[trigger] os[i]
            &&& forall|i: int|
                0 <= i < cs.len() ==> lines[conflicts_at(host, f) + i] == #[trigger] cs[i]
        }),
{
    let fs = status::folder_lines(shares::folder_views(f.folders@), clean);
    let ps = status::peer_lines(f, verbose, clean);
    let ss = status::stall_lines(has_silent_stall(f));
    let qs = status::pending_lines(f.pending@, f.aliases@, clean);
    let os = status::offered_lines(f.offered@, f.aliases@, clean);
    let cs = status::conflict_lines(text::texts(f.conflicts@), clean);
    let lines = status::running_lines(verbose, host, f, clean);
    lemma_stall(f);
    lemma_peers_height(f, f.peers@, verbose, clean);
    lemma_requests_lines_at(f.pending@, f.aliases@, clean);
    lemma_offers_lines_at(status::all_offers(f.offered@), f.aliases@, clean);
    the_offers_are_counted(f.offered@);
    let two = seq![
        "agent:      running"@,
        "syncthing:  "@ + f.version@ + "  ("@ + f.gui_address@ + ")"@,
    ];
    let four = seq!["device id:  "@ + f.device_id@, "mode:       p2p"@];
    let head = two + status::host_lines(host) + four;
    assert(head.len() == folders_at(host));
    assert(lines == head + fs + ps + ss + qs + os + cs);
    assert(lines[0] == two[0] && lines[1] == two[1]);
    assert(lines[folders_at(host) - 2] == four[0] && lines[folders_at(host) - 1] == four[1]);
}

/// The lines begin with the agent, its version and address, this machine's name where it is
/// known, the device id and the mode, and there are as many as all that follows has.
pub proof fn the_lines_describe_the_agent(
    verbose: bool,
    host: Seq<char>,
    f: Running,
    clean: spec_fn(Seq<char>) -> Seq<char>,
)
    ensures
        ({
            let lines = status::status_output(verbose, host, Some(f), clean).lines;
            &&& lines.len() == all_lines(host, f)
            &&& lines[0] == "agent:      running"@
            &&& lines[1] == "syncthing:  "@ + f.version@ + "  ("@ + f.gui_address@ + ")"@
            &&& host.len() > 0 ==> lines[2] == "hostname:   "@ + host
            &&& lines[folders_at(host) - 2] == "device id:  "@ + f.device_id@
            &&& lines[folders_at(host) - 1] == "mode:       p2p"@
        }),
{
    lemma_parts(verbose, host, f, clean);
}

/// Every folder has its line, with its name and path, its state, what is left to sync, and
/// how many peers it is shared with.
pub proof fn every_folder_has_its_line(
    verbose: bool,
    host: Seq<char>,
    f: Running,
    clean: spec_fn(Seq<char>) -> Seq<char>,
)
    ensures
        ({
            let lines = status::status_output(verbose, host, Some(f), clean).lines;
            let start = folders_at(host);
            &&& lines[start] == (if f.folders@.len() == 0 {
                "folders:    none — run `byteferret init <path>`"@
            } else {
                "folders:"@
            })
            &&& forall|i: int|
                0 <= i < f.folders@.len() ==> {
                    let folder = #[trigger] f.folders@[i];
                    let state = if folder.state@.len() == 0 {
                        "unknown"@
                    } else {
                        folder.state@
                    };
                    let left = if folder.need_bytes <= 0 {
                        seq![]
                    } else {
                        " ("@ + text::signed_decimal(folder.need_bytes as int) + " bytes to sync)"@
                    };
                    lines[start + 1 + i] == "  - "@ + clean(folder.name@) + "  "@ + clean(
                        folder.path@,
                    ) + "  — "@ + state + left + ", shared with "@ + text::decimal(
                        folder.peers@.len(),
                    ) + " peer(s)"@
                }
        }),
{
    lemma_parts(verbose, host, f, clean);
    let lines = status::status_output(verbose, host, Some(f), clean).lines;
    let views = shares::folder_views(f.folders@);
    let fs = status::folder_lines(views, clean);
    assert(lines[folders_at(host) + 0] == fs[0]);
    assert forall|i: int| 0 <= i < f.folders@.len() implies lines[folders_at(host) + 1 + i]
        == status::folder_line((#[trigger] f.folders@[i])@, clean) by {
        assert(fs[1 + i] == views.map_values(|g: FolderView| status::folder_line(g, clean))[i]);
        assert(lines[folders_at(host) + (1 + i)] == fs[1 + i]);
    }
}

/// Every peer has its line, with its name, its device id, whether it is connected and from
/// where, and below it a line for each folder that is shared with it.
pub proof fn every_peer_has_its_lines(
    verbose: bool,
    host: Seq<char>,
    f: Running,
    clean: spec_fn(Seq<char>) -> Seq<char>,
    i: int,
)
    requires
        0 <= i < f.peers@.len(),
    ensures
        ({
            let lines = status::status_output(verbose, host, Some(f), clean).lines;
            let p = f.peers@[i].sync;
            let name = match agent::alias(f.aliases@, p.id@) {
                Some(a) => a,
                None => p.label@,
            };
            let address = status::address_of(f.connections@, p.id@);
            let shared = status::peer_shares(f, f.peers@[i]);
            &&& lines[peers_at(host, f)] == "peers:"@
            &&& lines[peer_at(host, f, i)] == "  - "@ + clean(name) + " ("@ + status::shown_id(
                p.id@,
                verbose,
            ) + "): "@ + (if p.connected {
                "connected"@
            } else {
                "disconnected"@
            }) + (if address.len() == 0 {
                seq![]
            } else {
                "  "@ + clean(address)
            })
            &&& shared.len() == 0 ==> lines[peer_at(host, f, i) + 1] == "      no folders shared"@
            &&& forall|k: int|
                0 <= k < shared.len() ==> lines[peer_at(host, f, i) + 1 + k] == "      "@ + clean(
                    (#[trigger] shared[k]).name,
                ) + shares::annotation(
                    shared[k].answer.state,
                    shared[k].answer.in_sync,
                    shared[k].answer.percent,
                )
        }),
{
    lemma_parts(verbose, host, f, clean);
    let lines = status::status_output(verbose, host, Some(f), clean).lines;
    let ps = status::peer_lines(f, verbose, clean);
    let all = status::lines_of_peers(f, f.peers@, verbose, clean);
    let own = status::lines_of_peer(f, f.peers@[i], verbose, clean);
    let at = heights(f, f.peers@, i);
    assert(lines[peers_at(host, f) + 0] == ps[0]);
    lemma_heights_grow(f, f.peers@, 0, i);
    lemma_lines_of_peer_at(f, f.peers@, verbose, clean, i, 0);
    assert(ps[1 + at] == all[at]);
    assert(lines[peers_at(host, f) + (1 + at)] == ps[1 + at]);
    assert forall|k: int| 0 <= k < own.len() implies lines[peer_at(host, f, i) + k]
        == #[trigger] own[k] by {
        lemma_lines_of_peer_at(f, f.peers@, verbose, clean, i, k);
        assert(ps[1 + (at + k)] == all[at + k]);
        assert(lines[peers_at(host, f) + (1 + (at + k))] == ps[1 + (at + k)]);
    }
    assert(lines[peer_at(host, f, i) + 0] == own[0]);
    let shared = status::peer_shares(f, f.peers@[i]);
    if shared.len() == 0 {
        assert(lines[peer_at(host, f, i) + 1] == own[1]);
    }
    assert forall|k: int| 0 <= k < shared.len() implies lines[peer_at(host, f, i) + 1 + k]
        == status::share_line(#[trigger] shared[k], clean) by {
        assert(lines[peer_at(host, f, i) + (1 + k)] == own[1 + k]);
        assert(own[1 + k] == shared.map_values(|s: ShareView| status::share_line(s, clean))[k]);
    }
}

/// Where there are no peers, the line of the peers says so; where some peer is connected and
/// does not share back, there is a note on it below the peers.
pub proof fn a_silent_stall_is_noted(
    verbose: bool,
    host: Seq<char>,
    f: Running,
    clean: spec_fn(Seq<char>) -> Seq<char>,
)
    ensures
        ({
            let lines = status::status_output(verbose, host, Some(f), clean).lines;
            let note = peer_at(host, f, f.peers@.len() as int);
            &&& f.peers@.len() == 0 ==> lines[peers_at(host, f)]
                == "peers:      none — share the device id above and run `byteferret pair --with <id>` on the other machine"@
            &&& has_silent_stall(f) ==> lines[note] == ""@ && lines[note + 1]
                == "Note: a connected peer is NOT sharing a folder back — run `byteferret doctor` for the fix."@
        }),
{
    lemma_parts(verbose, host, f, clean);
    let lines = status::status_output(verbose, host, Some(f), clean).lines;
    let note = peer_at(host, f, f.peers@.len() as int);
    let ss = status::stall_lines(has_silent_stall(f));
    if has_silent_stall(f) {
        assert(lines[note + 0] == ss[0]);
        assert(lines[note + 1] == ss[1]);
    }
    if f.peers@.len() == 0 {
        assert(lines[peers_at(host, f) + 0] == status::peer_lines(f, verbose, clean)[0]);
    }
}

/// Every pairing request has its lines: the device's full id and the name that it gives
/// itself, and how to accept and reject it.
pub proof fn every_request_has_its_lines(
    verbose: bool,
    host: Seq<char>,
    f: Running,
    clean: spec_fn(Seq<char>) -> Seq<char>,
    i: int,
)
    requires
        0 <= i < f.pending@.len(),
    ensures
        ({
            let lines = status::status_output(verbose, host, Some(f), clean).lines;
            let start = requests_at(host, f);
            let (id, request) = f.pending@[i];
            let who = clean(status::reference(f.aliases@, id@));
            &&& lines[start] == "pending:    "@ + text::decimal(f.pending@.len())
                + " pairing request(s):"@
            &&& lines[start + 1 + 3 * i] == "  - "@ + id@ + (if clean(request.name@).len() == 0 {
                seq![]
            } else {
                " ("@ + clean(request.name@) + ")"@
            })
            &&& lines[start + 2 + 3 * i] == "      accept:  byteferret pair "@ + who + " --accept"@
            &&& lines[start + 3 + 3 * i] == "      reject:  byteferret pair "@ + who + " --reject"@
        }),
{
    lemma_parts(verbose, host, f, clean);
    lemma_requests_lines_at(f.pending@, f.aliases@, clean);
    let lines = status::status_output(verbose, host, Some(f), clean).lines;
    let start = requests_at(host, f);
    let qs = status::pending_lines(f.pending@, f.aliases@, clean);
    let all = status::requests_lines(f.pending@, f.aliases@, clean);
    let own = status::request_lines(f.pending@[i].0@, f.pending@[i].1.name@, f.aliases@, clean);
    assert(lines[start + 0] == qs[0]);
    assert forall|k: int| 0 <= k < 3 implies lines[start + 1 + 3 * i + k] == #[trigger] own[k] by {
        assert(all[3 * i + k] == own[k]);
        assert(qs[1 + (3 * i + k)] == all[3 * i + k]);
        assert(lines[start + (1 + (3 * i + k))] == qs[1 + (3 * i + k)]);
    }
    assert(lines[start + 1 + 3 * i + 0] == own[0]);
    assert(lines[start + 1 + 3 * i + 1] == own[1]);
    assert(lines[start + 1 + 3 * i + 2] == own[2]);
}

/// Every folder and every device that offers it have their lines: the folder's name and
/// label and who offers it, and how to accept it.
pub proof fn every_offer_has_its_lines(
    verbose: bool,
    host: Seq<char>,
    f: Running,
    clean: spec_fn(Seq<char>) -> Seq<char>,
    j: int,
    k: int,
)
    requires
        0 <= j < f.offered@.len(),
        0 <= k < f.offered@[j].pending.offered_by@.len(),
    ensures
        ({
            let lines = status::status_output(verbose, host, Some(f), clean).lines;
            let start = offers_at(host, f);
            let place = start + 1 + 2 * (offers_before(f.offered@, j) + k);
            let folder = f.offered@[j];
            let (device, offer) = folder.pending.offered_by@[k];
            let by = clean(status::reference(f.aliases@, device@));
            &&& lines[start] == "offered folders:"@
            &&& lines[place] == "  - "@ + clean(folder.name@) + (if clean(offer.label@).len() == 0 {
                seq![]
            } else {
                " \""@ + clean(offer.label@) + "\""@
            }) + " — offered by "@ + by
            &&& lines[place + 1] == "      accept:  byteferret pair "@ + by
                + " --accept --folder "@ + clean(folder.name@)
        }),
{
    lemma_parts(verbose, host, f, clean);
    let offers = status::all_offers(f.offered@);
    lemma_offers_lines_at(offers, f.aliases@, clean);
    every_offer_of_every_folder_is_there(f.offered@, j, k);
    let n = offers_before(f.offered@, j) + k;
    let lines = status::status_output(verbose, host, Some(f), clean).lines;
    let start = offers_at(host, f);
    let os = status::offered_lines(f.offered@, f.aliases@, clean);
    let all = status::offers_lines(offers, f.aliases@, clean);
    let own = status::offer_lines(offers[n], f.aliases@, clean);
    assert(lines[start + 0] == os[0]);
    assert forall|m: int| 0 <= m < 2 implies lines[start + 1 + 2 * n + m] == #[trigger] own[m] by {
        assert(all[2 * n + m] == own[m]);
        assert(os[1 + (2 * n + m)] == all[2 * n + m]);
        assert(lines[start + (1 + (2 * n + m))] == os[1 + (2 * n + m)]);
    }
    assert(lines[start + 1 + 2 * n + 0] == own[0]);
    assert(lines[start + 1 + 2 * n + 1] == own[1]);
}

/// The conflict files are counted, and each has its line.
pub proof fn every_conflict_has_its_line(
    verbose: bool,
    host: Seq<char>,
    f: Running,
    clean: spec_fn(Seq<char>) -> Seq<char>,
    i: int,
)
    requires
        0 <= i < f.conflicts@.len(),
    ensures
        ({
            let lines = status::status_output(verbose, host, Some(f), clean).lines;
            let start = conflicts_at(host, f);
            &&& lines[start] == "conflicts:  "@ + text::decimal(f.conflicts@.len())
                + " sync-conflict file(s) — open both copies, merge, delete the conflict copy:"@
            &&& lines[start + 1 + i] == "  - "@ + clean(f.conflicts@[i]@)
        }),
{
    lemma_parts(verbose, host, f, clean);
    let lines = status::status_output(verbose, host, Some(f), clean).lines;
    let start = conflicts_at(host, f);
    let paths = text::texts(f.conflicts@);
    let cs = status::conflict_lines(paths, clean);
    assert(lines[start + 0] == cs[0]);
    assert(cs[1 + i] == paths.map_values(|c: Seq<char>| "  - "@ + clean(c))[i]);
    assert(lines[start + (1 + i)] == cs[1 + i]);
}

} // verus!
