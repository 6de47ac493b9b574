//! Laws on devices and the folders that are shared with them.

use vstd::prelude::*;

use crate::agent;
use crate::agent::{PeerSync, PeerView, ShareState, ShareTags};
use crate::commands::shares;
use crate::commands::shares::{Answer, AnswerView, FolderInfo, FolderView};
use crate::commands::status;
use crate::commands::status::{FolderRead, PeerFacts, Reads, Running};
use crate::json;
use crate::json::Json;
use crate::laws::archive;
use crate::laws::documents;
use crate::syncthing::rest::{Connection, FolderStatus};

verus! {

/// The alias of a device is the first that is recorded for it.
pub proof fn the_first_alias_counts(pairs: Seq<(Seq<char>, Seq<char>)>, id: Seq<char>, i: int)
    requires
        0 <= i < pairs.len(),
        pairs[i].0 == id,
        forall|k: int| 0 <= k < i ==> (#[trigger] pairs[k]).0 != id,
    ensures
        agent::alias(pairs, id) == Some(pairs[i].1),
        status::reference(pairs, id) == pairs[i].1,
    decreases pairs.len(),
{
    if i > 0 {
        assert(pairs[0].0 != id);
        let rest = pairs.drop_first();
        assert(rest[i - 1] == pairs[i]);
        assert forall|k: int| 0 <= k < i - 1 implies (#[trigger] rest[k]).0 != id by {
            assert(rest[k] == pairs[k + 1]);
        }
        the_first_alias_counts(rest, id, i - 1);
    }
}

/// A device for which none is recorded has no alias, and is referred to by the first seven
/// characters of its id, or by the whole of a shorter one.
pub proof fn without_an_alias_the_id_counts(pairs: Seq<(Seq<char>, Seq<char>)>, id: Seq<char>)
    requires
        forall|k: int| 0 <= k < pairs.len() ==> (#[trigger] pairs[k]).0 != id,
    ensures
        agent::alias(pairs, id) is None,
        status::reference(pairs, id).is_prefix_of(id),
        status::reference(pairs, id).len() == (if id.len() < 7 {
            id.len()
        } else {
            7
        }),
    decreases pairs.len(),
{
    an_id_is_shown_by_its_beginning(id);
    if pairs.len() > 0 {
        let rest = pairs.drop_first();
        assert(pairs[0].0 != id);
        assert forall|k: int| 0 <= k < rest.len() implies (#[trigger] rest[k]).0 != id by {
            assert(rest[k] == pairs[k + 1]);
        }
        without_an_alias_the_id_counts(rest, id);
    }
}

/// The pairs of the aliases are those that are recorded.
pub proof fn the_aliases_are_those_recorded(aliases: agent::Aliases, i: int)
    requires
        0 <= i < aliases.pairs@.len(),
    ensures
        aliases@.len() == aliases.pairs@.len(),
        aliases@[i] == (aliases.pairs@[i].0@, aliases.pairs@[i].1@),
{
}

/// The short form of a device id is its first seven characters, or the whole of a shorter
/// one. It is shown with an ellipsis, and the whole id where it is asked for.
pub proof fn an_id_is_shown_by_its_beginning(id: Seq<char>)
    ensures
        status::first_segment(id).is_prefix_of(id),
        status::first_segment(id).len() == (if id.len() < 7 {
            id.len()
        } else {
            7
        }),
        status::shown_id(id, true) == id,
        status::shown_id(id, false) == status::first_segment(id) + "…"@,
{
    assert(status::first_segment(id) =~= id.subrange(0, status::first_segment(id).len() as int));
}

/// The address of a device is that of its first connection, and nothing where it has none.
pub proof fn the_first_connection_counts(
    conns: Seq<(String, Connection)>,
    id: Seq<char>,
    i: int,
)
    requires
        0 <= i <= conns.len(),
        i < conns.len() ==> conns[i].0@ == id,
        forall|k: int| 0 <= k < i ==> (#[trigger] conns[k]).0@ != id,
    ensures
        status::address_of(conns, id) == (if i < conns.len() {
            conns[i].1.address@
        } else {
            seq![]
        }),
    decreases conns.len(),
{
    if i > 0 {
        assert(conns[0].0@ != id);
        let rest = conns.drop_first();
        assert forall|k: int| 0 <= k < i - 1 implies (#[trigger] rest[k]).0@ != id by {
            assert(rest[k] == conns[k + 1]);
        }
        the_first_connection_counts(rest, id, i - 1);
    }
}

/// The hostname is what stands before the first zero, or in the whole buffer where there is
/// none; there is none where the buffer was not filled.
pub proof fn the_hostname_ends_at_the_first_zero(buf: Seq<u8>, n: int)
    requires
        0 <= n <= buf.len(),
        forall|k: int| 0 <= k < n ==> #[trigger] buf[k] != 0,
        n < buf.len() ==> buf[n] == 0,
    ensures
        status::before_zero(buf) == buf.subrange(0, n),
        status::host_name(true, buf) == status::lossy(buf.subrange(0, n)),
        status::host_name(false, buf).len() == 0,
    decreases buf.len(),
{
    if n > 0 {
        let rest = buf.drop_first();
        assert(buf[0] != 0);
        assert forall|k: int| 0 <= k < n - 1 implies #[trigger] rest[k] != 0 by {
            assert(rest[k] == buf[k + 1]);
        }
        the_hostname_ends_at_the_first_zero(rest, n - 1);
        assert(seq![buf[0]] + rest.subrange(0, n - 1) =~= buf.subrange(0, n));
    } else {
        assert(buf.subrange(0, n) =~= Seq::<u8>::empty());
    }
}

/// Each share state has a name of its own field.
pub proof fn each_state_has_its_tag(tags: ShareTags)
    ensures
        agent::state_tag(tags, ShareState::Sharing) == tags.sharing@,
        agent::state_tag(tags, ShareState::Establishing) == tags.establishing@,
        agent::state_tag(tags, ShareState::NotSharingBack) == tags.not_sharing_back@,
        agent::state_tag(tags, ShareState::Offline) == tags.offline@,
{
}

/// A peer is stalled exactly where it does not share back, and what is known of it is what
/// is recorded.
pub proof fn a_peer_is_stalled_where_it_does_not_share_back(p: PeerSync)
    ensures
        agent::is_stalled(p@) <==> p.state == ShareState::NotSharingBack,
        p@.id == p.id@,
        p@.name == p.name@,
        p@.label == p.label@,
        p@.connected == p.connected,
        p@.sharing == p.sharing,
        p@.state == p.state,
{
}

/// The other devices of two lists, one after the other, are those of the first and then
/// those of the second; a device counts where it has an id that is not one's own.
pub proof fn every_other_device_is_a_peer(
    a: Seq<Json>,
    b: Seq<Json>,
    device: Json,
    own: Seq<char>,
)
    ensures
        shares::other_devices(a + b, own) == shares::other_devices(a, own)
            + shares::other_devices(b, own),
        ({
            let id = archive::text_at(device, "deviceID"@);
            shares::other_devices(seq![device], own) == (if id is Some && id != Some(own) {
                seq![id->0]
            } else {
                seq![]
            })
        }),
    decreases b.len(),
{
    assert(seq![device].drop_last() =~= Seq::<Json>::empty());
    assert(shares::other_devices(seq![device].drop_last(), own) =~= Seq::<Seq<char>>::empty());
    assert(seq![device].last() == device);
    let id = archive::text_at(device, "deviceID"@);
    if id is Some && id != Some(own) {
        assert(shares::other_devices(seq![device], own) =~= seq![id->0]);
    }
    if b.len() > 0 {
        every_other_device_is_a_peer(a, b.drop_last(), device, own);
        assert((a + b).drop_last() =~= a + b.drop_last());
        assert((a + b).last() == b.last());
        assert(shares::other_devices(a + b, own) =~= shares::other_devices(a, own)
            + shares::other_devices(b, own));
    } else {
        assert(a + b =~= a);
        assert(shares::other_devices(a + b, own) =~= shares::other_devices(a, own)
            + shares::other_devices(b, own));
    }
}

/// The text under a key, nothing where there is none.
pub open spec fn text_or_nothing(config: Json, key: Seq<char>) -> Seq<char> {
    if archive::text_at(config, key) is Some {
        archive::text_at(config, key)->0
    } else {
        seq![]
    }
}

/// A folder has the id, the label and the path of its configuration, the name that it was
/// given, the other devices of its configuration, and the state that was read, or none.
pub proof fn a_folder_is_as_it_is_configured(
    config: Json,
    name: Seq<char>,
    read: Option<FolderStatus>,
    own: Seq<char>,
)
    ensures
        ({
            let f = shares::folder_of(config, name, read, own);
            &&& f.id == text_or_nothing(config, "id"@)
            &&& f.label == text_or_nothing(config, "label"@)
            &&& f.path == text_or_nothing(config, "path"@)
            &&& f.name == name
            &&& read matches Some(s) ==> f.state == s.state@ && f.need_bytes == s.need_bytes
            &&& read is None ==> f.state.len() == 0 && f.need_bytes == 0
            &&& documents::has_array(config, "devices"@) ==> f.peers == shares::other_devices(
                documents::array_at(config, "devices"@),
                own,
            )
            &&& !documents::has_array(config, "devices"@) ==> f.peers.len() == 0
        }),
{
}

/// What is known of a folder is what is recorded, in its place.
pub proof fn the_folders_are_those_recorded(fs: Seq<FolderInfo>, i: int)
    requires
        0 <= i < fs.len(),
    ensures
        shares::folder_views(fs).len() == fs.len(),
        ({
            let v = shares::folder_views(fs)[i];
            &&& v.id == fs[i].id@
            &&& v.name == fs[i].name@
            &&& v.label == fs[i].label@
            &&& v.path == fs[i].path@
            &&& v.peers.len() == fs[i].peers@.len()
            &&& forall|k: int| 0 <= k < v.peers.len() ==> #[trigger] v.peers[k] == fs[i].peers@[k]@
            &&& v.state == fs[i].state@
            &&& v.need_bytes == fs[i].need_bytes
        }),
{
}

/// Conflict files are looked for below the path of every folder that has one, in their
/// order.
pub proof fn every_folder_with_a_path_is_scanned(
    a: Seq<FolderView>,
    b: Seq<FolderView>,
    f: FolderView,
)
    ensures
        shares::paths_of(a + b) == shares::paths_of(a) + shares::paths_of(b),
        f.path.len() > 0 ==> shares::paths_of(seq![f]) == seq![f.path],
        f.path.len() == 0 ==> shares::paths_of(seq![f]).len() == 0,
{
    let pred = |f: FolderView| f.path.len() > 0;
    Seq::filter_distributes_over_add(a, b, pred);
    assert(shares::paths_of(a + b) =~= shares::paths_of(a) + shares::paths_of(b));
    reveal(Seq::filter);
    assert(seq![f].drop_last() =~= Seq::<FolderView>::empty());
    assert(seq![f].drop_last().filter(pred) =~= Seq::<FolderView>::empty());
    if f.path.len() > 0 {
        assert(seq![f].filter(pred) =~= seq![f]);
        assert(shares::paths_of(seq![f]) =~= seq![f.path]);
    } else {
        assert(seq![f].filter(pred) =~= Seq::<FolderView>::empty());
    }
}

/// The folder is shared with the device.
pub open spec fn is_shared(f: FolderInfo, id: Seq<char>) -> bool {
    exists|k: int| 0 <= k < f.peers@.len() && (#[trigger] f.peers@[k])@ == id
}

proof fn lemma_shared(fs: Seq<FolderInfo>, id: Seq<char>)
    ensures
        ({
            let shared = fs.filter(|f: FolderInfo| is_shared(f, id));
            let views = shares::shared_with(shares::folder_views(fs), id);
            &&& views.len() == shared.len()
            &&& forall|k: int| 0 <= k < views.len() ==> #[trigger] views[k] == shared[k]@
        }),
    decreases fs.len(),
{
    reveal(Seq::filter);
    if fs.len() > 0 {
        let front = fs.drop_last();
        let last = fs.last();
        lemma_shared(front, id);
        assert(shares::folder_views(fs).drop_last() =~= shares::folder_views(front));
        assert(shares::folder_views(fs).last() == last@);
        if is_shared(last, id) {
            let k = choose|k: int| 0 <= k < last.peers@.len() && (#[trigger] last.peers@[k])@ == id;
            assert(last@.peers[k] == id);
        }
        if last@.peers.contains(id) {
            let k = choose|k: int| 0 <= k < last@.peers.len() && last@.peers[k] == id;
            assert(last.peers@[k]@ == id);
        }
    }
}

/// A connected peer is asked for every folder that is shared with it, in their order; one
/// that is not connected for none.
pub proof fn a_connected_peer_is_asked_for_its_folders(fs: Seq<FolderInfo>, p: PeerView)
    ensures
        ({
            let shared = fs.filter(|f: FolderInfo| is_shared(f, p.id));
            let ids = shares::asked(shares::folder_views(fs), p);
            &&& ids.len() == (if p.connected {
                shared.len()
            } else {
                0
            })
            &&& forall|k: int| 0 <= k < ids.len() ==> #[trigger] ids[k] == shared[k].id@
        }),
{
    lemma_shared(fs, p.id);
}

/// The answer of a copy of which nothing is known.
pub open spec fn says_nothing(a: AnswerView, state: ShareState, zero: Json) -> bool {
    &&& a.state == state
    &&& a.completion == zero
    &&& !a.in_sync
    &&& a.percent == "0"@
}

/// The answer is what was answered.
pub open spec fn says(a: AnswerView, given: Answer) -> bool {
    &&& a.state == given.state
    &&& a.completion == json::json(given.completion)
    &&& a.in_sync == given.in_sync
    &&& a.percent == given.percent@
}

/// Every folder that is shared with a peer is among the peer's, in its place, with what was
/// answered for it; where the peer is not connected it is offline, and without an answer it
/// is still being established.
pub proof fn states_follow_the_answers(
    fs: Seq<FolderInfo>,
    p: PeerView,
    answers: Seq<Option<Answer>>,
    zero: Json,
)
    ensures
        ({
            let shared = fs.filter(|g: FolderInfo| is_shared(g, p.id));
            let states = shares::states_of(
                shares::folder_views(fs),
                p,
                shares::answer_views(answers),
                zero,
            );
            &&& states.len() == shared.len()
            &&& forall|k: int|
                0 <= k < states.len() ==> {
                    let s = #[trigger] states[k];
                    &&& s.folder == shared[k].id@
                    &&& s.name == shared[k].name@
                    &&& !p.connected ==> says_nothing(s.answer, ShareState::Offline, zero)
                    &&& p.connected && k < answers.len() && answers[k] is Some ==> says(
                        s.answer,
                        answers[k]->0,
                    )
                    &&& p.connected && !(k < answers.len() && answers[k] is Some) ==> says_nothing(
                        s.answer,
                        ShareState::Establishing,
                        zero,
                    )
                }
        }),
{
    lemma_shared(fs, p.id);
    let views = shares::shared_with(shares::folder_views(fs), p.id);
    let given = shares::answer_views(answers);
    let states = shares::states_of(shares::folder_views(fs), p, given, zero);
    assert forall|k: int| 0 <= k < states.len() implies #[trigger] states[k] == shares::share_of(
        views[k],
        p,
        shares::answer_at(given, k),
        zero,
    ) by {}
    assert(given.len() == answers.len());
    assert forall|k: int| 0 <= k < given.len() implies #[trigger] given[k] == (match answers[k] {
        Some(a) => Some(a@),
        None => None,
    }) by {}
}

/// What `status` has of a peer's folders is each that is shared with it, with its answer.
pub proof fn a_peer_has_every_shared_folder(f: Running, p: PeerFacts)
    ensures
        status::peer_shares(f, p) == shares::states_of(
            shares::folder_views(f.folders@),
            p.sync@,
            shares::answer_views(p.answers@),
            json::json(f.zero),
        ),
{
}

/// A share that is complete, and that of a peer that is offline, has nothing beside it; a
/// share that is not complete has its percentage; the other two states are told in words.
pub proof fn what_is_not_in_sync_is_told(in_sync: bool, percent: Seq<char>)
    ensures
        shares::annotation(ShareState::Sharing, true, percent).len() == 0,
        shares::annotation(ShareState::Sharing, false, percent) == " ("@ + percent + "%)"@,
        shares::annotation(ShareState::Offline, in_sync, percent).len() == 0,
        shares::annotation(ShareState::Establishing, in_sync, percent) == " (establishing)"@,
        shares::annotation(ShareState::NotSharingBack, in_sync, percent)
            == " (peer not sharing back)"@,
{
}

/// The status fails for the first of the reads that it needs and that failed: the device id,
/// the version, the requests, the offers. No other read that failed makes it fail.
pub proof fn the_first_needed_read_that_failed_counts(r: Reads)
    ensures
        r.device_id matches Err(why) ==> status::failed_read(r) == Some(why@),
        r.device_id is Ok ==> (r.version matches Err(why) ==> status::failed_read(r) == Some(why@)),
        r.device_id is Ok && r.version is Ok ==> (r.pending matches Err(why)
            ==> status::failed_read(r) == Some(why@)),
        r.device_id is Ok && r.version is Ok && r.pending is Ok ==> (r.offered matches Err(why)
            ==> status::failed_read(r) == Some(why@)),
        r.device_id is Ok && r.version is Ok && r.pending is Ok && r.offered is Ok
            ==> status::failed_read(r) is None,
{
}

/// A list that was read is there whole, and one that could not be read counts as none.
pub proof fn what_was_read_is_there<T>(r: Result<Vec<T>, String>)
    ensures
        r matches Ok(items) ==> status::read_or_none(r) == items@,
        r is Err ==> status::read_or_none(r).len() == 0,
{
}

/// Every folder that was read is there, in its place, as it is configured.
pub proof fn every_folder_that_was_read_is_there(fs: Seq<FolderRead>, own: Seq<char>, i: int)
    requires
        0 <= i < fs.len(),
    ensures
        status::folders_read(fs, own).len() == fs.len(),
        status::folders_read(fs, own)[i] == shares::folder_of(
            json::json(fs[i].config),
            fs[i].name@,
            fs[i].status,
            own,
        ),
{
}

} // verus!
