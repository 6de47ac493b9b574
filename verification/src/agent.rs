//! Peers as the agent knows them.

use vstd::prelude::*;
use vstd::string::*;

use crate::text;

verus! {

/// How far a peer and this machine share a folder.
#[derive(Debug, Clone, Copy, PartialEq, Eq, Structural)]
pub enum ShareState {
    /// The peer shares the folder back.
    Sharing,
    /// The peer is connected, but what it shares is not known yet.
    Establishing,
    /// The peer is connected and never added the folder: nothing will sync.
    NotSharingBack,
    /// The peer is not connected.
    Offline,
}

/// The names of the share states in documents.
#[derive(Debug)]
pub struct ShareTags {
    pub sharing: String,
    pub establishing: String,
    pub not_sharing_back: String,
    pub offline: String,
}

/// The name of a share state.
pub open spec fn state_tag(tags: ShareTags, state: ShareState) -> Seq<char> {
    match state {
        ShareState::Sharing => tags.sharing@,
        ShareState::Establishing => tags.establishing@,
        ShareState::NotSharingBack => tags.not_sharing_back@,
        ShareState::Offline => tags.offline@,
    }
}

impl ShareTags {
    /// The name of a share state.
    pub fn tag(&self, state: ShareState) -> (r: &str)
        ensures
            r@ == state_tag(*self, state),
    {
        match state {
            ShareState::Sharing => self.sharing.as_str(),
            ShareState::Establishing => self.establishing.as_str(),
            ShareState::NotSharingBack => self.not_sharing_back.as_str(),
            ShareState::Offline => self.offline.as_str(),
        }
    }
}

/// A paired device.
#[derive(Debug)]
pub struct PeerSync {
    pub id: String,
    /// The name that the device gives itself.
    pub name: String,
    /// What the device is called where it has no alias here.
    pub label: String,
    pub connected: bool,
    /// Whether the device shares back.
    pub sharing: bool,
    pub state: ShareState,
}

/// What is known of a peer.
pub struct PeerView {
    pub id: Seq<char>,
    pub name: Seq<char>,
    pub label: Seq<char>,
    pub connected: bool,
    pub sharing: bool,
    pub state: ShareState,
}

impl View for PeerSync {
    type V = PeerView;

    open spec fn view(&self) -> PeerView {
        PeerView {
            id: self.id@,
            name: self.name@,
            label: self.label@,
            connected: self.connected,
            sharing: self.sharing,
            state: self.state,
        }
    }
}

/// What is known of a list of peers.
pub open spec fn peer_views(peers: Seq<PeerSync>) -> Seq<PeerView> {
    peers.map_values(|p: PeerSync| p@)
}

/// The peer is connected, so it looks healthy, but it never shared back, so nothing
/// will ever transfer.
pub open spec fn is_stalled(p: PeerView) -> bool {
    p.state == ShareState::NotSharingBack
}

impl PeerSync {
    /// Whether the peer is connected without sharing back.
    pub fn stalled(&self) -> (r: bool)
        ensures
            r == is_stalled(self@),
    {
        self.state == ShareState::NotSharingBack
    }
}

/// A peer is offline exactly where it is not connected.
pub open spec fn classified(p: PeerView) -> bool {
    p.state == ShareState::Offline <==> !p.connected
}

/// The local names of devices.
#[derive(Debug)]
pub struct Aliases {
    /// Device ids with the aliases that they were given.
    pub pairs: Vec<(String, String)>,
}

impl View for Aliases {
    type V = Seq<(Seq<char>, Seq<char>)>;

    open spec fn view(&self) -> Seq<(Seq<char>, Seq<char>)> {
        self.pairs@.map_values(|p: (String, String)| (p.0@, p.1@))
    }
}

/// The alias of a device: the first that is recorded for it.
pub open spec fn alias(pairs: Seq<(Seq<char>, Seq<char>)>, id: Seq<char>) -> Option<Seq<char>>
    decreases pairs.len(),
{
    if pairs.len() == 0 {
        None
    } else if pairs[0].0 == id {
        Some(pairs[0].1)
    } else {
        alias(pairs.drop_first(), id)
    }
}

impl Aliases {
    /// The alias of a device, where it has one.
    pub fn alias_for(&self, id: &str) -> (r: Option<&String>)
        ensures
            match r {
                Some(a) => alias(self@, id@) == Some(a@),
                None => alias(self@, id@) is None,
            },
    {
        let ghost all = self@;
        let mut i: usize = 0;
        assert(all.skip(0) =~= all);
        while i < self.pairs.len()
            invariant
                i <= self.pairs@.len(),
                all == self@,
                all.len() == self.pairs@.len(),
                alias(all, id@) == alias(all.skip(i as int), id@),
            decreases self.pairs@.len() - i,
        {
            assert(all[i as int] == (self.pairs@[i as int].0@, self.pairs@[i as int].1@));
            if text::same_text(self.pairs[i].0.as_str(), id) {
                return Some(&self.pairs[i].1);
            }
            assert(all.skip(i as int).drop_first() =~= all.skip(i + 1));
            i += 1;
        }
        None
    }
}

} // verus!
