//! The registered folders, and how far each is shared with a peer.

use serde_json::Value;
use vstd::prelude::*;
use vstd::string::*;

use crate::agent::{PeerSync, PeerView, ShareState};
use crate::json;
use crate::json::Json;
use crate::syncthing::rest::FolderStatus;
use crate::text;

verus! {

/// One registered Syncthing folder, as `status` reports it.
#[derive(Debug)]
pub struct FolderInfo {
    pub id: String,
    /// The user-facing name — the id with its invisible uniqueness suffix removed.
    pub name: String,
    pub label: String,
    pub path: String,
    /// Device ids the folder is shared with (this device excluded).
    pub peers: Vec<String>,
    pub state: String,
    pub need_bytes: i64,
}

/// What is known of a folder.
pub struct FolderView {
    pub id: Seq<char>,
    pub name: Seq<char>,
    pub label: Seq<char>,
    pub path: Seq<char>,
    pub peers: Seq<Seq<char>>,
    pub state: Seq<char>,
    pub need_bytes: int,
}

impl View for FolderInfo {
    type V = FolderView;

    open spec fn view(&self) -> FolderView {
        FolderView {
            id: self.id@,
            name: self.name@,
            label: self.label@,
            path: self.path@,
            peers: text::texts(self.peers@),
            state: self.state@,
            need_bytes: self.need_bytes as int,
        }
    }
}

/// What is known of a list of folders.
pub open spec fn folder_views(fs: Seq<FolderInfo>) -> Seq<FolderView> {
    fs.map_values(|f: FolderInfo| f@)
}

impl FolderInfo {
    /// The user-facing name.
    pub fn name(&self) -> (r: &str)
        ensures
            r@ == self@.name,
    {
        self.name.as_str()
    }
}

/// A text, nothing where there is none.
pub open spec fn text_or_empty(t: Option<Seq<char>>) -> Seq<char> {
    match t {
        Some(s) => s,
        None => seq![],
    }
}

fn member_or_empty(v: &Value, key: &str) -> (r: String)
    ensures
        r@ == text_or_empty(json::json(*v).member_text(key@)),
{
    match json::member_text(v, key) {
        Some(s) => s.to_owned(),
        None => String::new(),
    }
}

/// The device ids in a list of devices, but for one's own.
pub open spec fn other_devices(devices: Seq<Json>, own: Seq<char>) -> Seq<Seq<char>>
    decreases devices.len(),
{
    if devices.len() == 0 {
        seq![]
    } else {
        let rest = other_devices(devices.drop_last(), own);
        match devices.last().member_text("deviceID"@) {
            Some(id) => if id != own {
                rest.push(id)
            } else {
                rest
            },
            None => rest,
        }
    }
}

/// The devices that a folder is shared with, but for one's own.
pub open spec fn folder_peers(config: Json, own: Seq<char>) -> Seq<Seq<char>> {
    match config.member("devices"@) {
        Some(Json::Array(devices)) => other_devices(devices, own),
        _ => seq![],
    }
}

/// A folder by its configuration and, where it is known, its sync state.
pub open spec fn folder_of(
    config: Json,
    name: Seq<char>,
    status: Option<FolderStatus>,
    own: Seq<char>,
) -> FolderView {
    FolderView {
        id: text_or_empty(config.member_text("id"@)),
        name,
        label: text_or_empty(config.member_text("label"@)),
        path: text_or_empty(config.member_text("path"@)),
        peers: folder_peers(config, own),
        state: match status {
            Some(s) => s.state@,
            None => seq![],
        },
        need_bytes: match status {
            Some(s) => s.need_bytes as int,
            None => 0,
        },
    }
}

/// The id of a folder, by its configuration.
pub fn folder_id(config: &Value) -> (r: String)
    ensures
        r@ == text_or_empty(json::json(*config).member_text("id"@)),
{
    member_or_empty(config, "id")
}

fn peers_in_config(config: &Value, own: &str) -> (r: Vec<String>)
    ensures
        text::texts(r@) == folder_peers(json::json(*config), own@),
{
    let mut peers: Vec<String> = Vec::new();
    assert(text::texts(peers@) =~= Seq::<Seq<char>>::empty());
    let devices = match json::get_member(config, "devices") {
        Some(d) => match json::as_items(d) {
            Some(items) => items,
            None => return peers,
        },
        None => return peers,
    };
    let ghost all = json::jsons(devices@);
    let mut i: usize = 0;
    assert(text::texts(peers@) =~= other_devices(all.take(0), own@));
    while i < devices.len()
        invariant
            i <= devices@.len(),
            all == json::jsons(devices@),
            text::texts(peers@) == other_devices(all.take(i as int), own@),
        decreases devices@.len() - i,
    {
        assert(all.take(i + 1).drop_last() =~= all.take(i as int));
        assert(all.take(i + 1).last() == json::json(devices@[i as int]));
        let ghost before = text::texts(peers@);
        match json::member_text(&devices[i], "deviceID") {
            Some(id) => {
                if !text::same_text(id, own) {
                    peers.push(id.to_owned());
                    assert(text::texts(peers@) =~= before.push(id@));
                }
            },
            None => {},
        }
        i += 1;
    }
    assert(all.take(i as int) =~= all);
    peers
}

/// A folder by its configuration and, where it is known, its sync state; `own` is
/// this machine's device id.
pub fn folder_info(config: &Value, name: &str, status: Option<&FolderStatus>, own: &str) -> (r:
    FolderInfo)
    ensures
        r@ == folder_of(
            json::json(*config),
            name@,
            match status {
                Some(s) => Some(*s),
                None => None,
            },
            own@,
        ),
{
    let (state, need_bytes) = match status {
        Some(s) => (s.state.clone(), s.need_bytes),
        None => (String::new(), 0),
    };
    FolderInfo {
        id: folder_id(config),
        name: name.to_owned(),
        label: member_or_empty(config, "label"),
        path: member_or_empty(config, "path"),
        peers: peers_in_config(config, own),
        state,
        need_bytes,
    }
}

proof fn others_are_others(devices: Seq<Json>, own: Seq<char>)
    ensures
        !other_devices(devices, own).contains(own),
    decreases devices.len(),
{
    if devices.len() > 0 {
        others_are_others(devices.drop_last(), own);
        let all = other_devices(devices, own);
        if all.contains(own) {
            let i = choose|i: int| 0 <= i < all.len() && all[i] == own;
            let rest = other_devices(devices.drop_last(), own);
            if i < rest.len() {
                assert(rest[i] == own);
            }
        }
    }
}

/// This machine is never among the peers that a folder is shared with.
pub proof fn a_folder_has_only_other_peers(
    config: Json,
    name: Seq<char>,
    status: Option<FolderStatus>,
    own: Seq<char>,
)
    ensures
        !folder_of(config, name, status, own).peers.contains(own),
{
    match config.member("devices"@) {
        Some(Json::Array(devices)) => others_are_others(devices, own),
        _ => {},
    }
}

/// The paths at which conflict files can be: those of the folders that have one.
pub open spec fn paths_of(fs: Seq<FolderView>) -> Seq<Seq<char>> {
    fs.filter(|f: FolderView| f.path.len() > 0).map_values(|f: FolderView| f.path)
}

/// The paths at which conflict files can be.
pub fn scanned_paths(folders: &Vec<FolderInfo>) -> (r: Vec<&String>)
    ensures
        r@.map_values(|s: &String| s@) == paths_of(folder_views(folders@)),
{
    let ghost all = folder_views(folders@);
    let ghost has_path = |f: FolderView| f.path.len() > 0;
    let mut out: Vec<&String> = Vec::new();
    let mut i: usize = 0;
    reveal(Seq::filter);
    assert(out@.map_values(|s: &String| s@) =~= paths_of(all.take(0)));
    while i < folders.len()
        invariant
            i <= folders@.len(),
            all == folder_views(folders@),
            has_path == (|f: FolderView| f.path.len() > 0),
            out@.map_values(|s: &String| s@) == paths_of(all.take(i as int)),
        decreases folders@.len() - i,
    {
        reveal(Seq::filter);
        assert(all.take(i + 1).drop_last() =~= all.take(i as int));
        assert(all.take(i + 1).last() == folders@[i as int]@);
        let ghost before = out@.map_values(|s: &String| s@);
        if !folders[i].path.as_str().is_empty() {
            out.push(&folders[i].path);
            assert(out@.map_values(|s: &String| s@) =~= before.push(folders@[i as int].path@));
        }
        i += 1;
        assert(out@.map_values(|s: &String| s@) =~= paths_of(all.take(i as int)));
    }
    assert(all.take(i as int) =~= all);
    out
}

/// What Syncthing answers of a peer's copy of a folder.
#[derive(Debug)]
pub struct Answer {
    pub state: ShareState,
    /// How complete the copy is, in percent.
    pub completion: Value,
    /// Whether that counts as complete: it is 99.5 or more.
    pub in_sync: bool,
    /// The same, to the nearest whole number.
    pub percent: String,
}

/// What Syncthing answers of a peer's copy of a folder.
pub struct AnswerView {
    pub state: ShareState,
    pub completion: Json,
    pub in_sync: bool,
    pub percent: Seq<char>,
}

impl View for Answer {
    type V = AnswerView;

    open spec fn view(&self) -> AnswerView {
        AnswerView {
            state: self.state,
            completion: json::json(self.completion),
            in_sync: self.in_sync,
            percent: self.percent@,
        }
    }
}

/// The answers, with `None` for a call that failed.
pub open spec fn answer_views(answers: Seq<Option<Answer>>) -> Seq<Option<AnswerView>> {
    answers.map_values(
        |a: Option<Answer>|
            match a {
                Some(a) => Some(a@),
                None => None,
            },
    )
}

/// A folder shared with a peer, and how far.
#[derive(Debug)]
pub struct Share {
    pub folder: String,
    pub name: String,
    pub answer: Answer,
}

/// A folder shared with a peer, and how far.
pub struct ShareView {
    pub folder: Seq<char>,
    pub name: Seq<char>,
    pub answer: AnswerView,
}

impl View for Share {
    type V = ShareView;

    open spec fn view(&self) -> ShareView {
        ShareView { folder: self.folder@, name: self.name@, answer: self.answer@ }
    }
}

/// A list of shares.
pub open spec fn share_views(shares: Seq<Share>) -> Seq<ShareView> {
    shares.map_values(|s: Share| s@)
}

/// The folders that are shared with a device.
pub open spec fn shared_with(fs: Seq<FolderView>, id: Seq<char>) -> Seq<FolderView> {
    fs.filter(|f: FolderView| f.peers.contains(id))
}

/// The folders whose completion on the peer is to be asked for: a peer that is not
/// connected has no answer to give.
pub open spec fn asked(fs: Seq<FolderView>, p: PeerView) -> Seq<Seq<char>> {
    if p.connected {
        shared_with(fs, p.id).map_values(|f: FolderView| f.id)
    } else {
        seq![]
    }
}

/// What is known of a copy without an answer.
pub open spec fn unanswered(state: ShareState, zero: Json) -> AnswerView {
    AnswerView { state, completion: zero, in_sync: false, percent: "0"@ }
}

/// How far a folder is shared with a peer.
pub open spec fn share_of(
    f: FolderView,
    p: PeerView,
    answer: Option<AnswerView>,
    zero: Json,
) -> ShareView {
    ShareView {
        folder: f.id,
        name: f.name,
        answer: if !p.connected {
            unanswered(ShareState::Offline, zero)
        } else {
            match answer {
                Some(a) => a,
                None => unanswered(ShareState::Establishing, zero),
            }
        },
    }
}

/// The answer for the folder in a place.
pub open spec fn answer_at(answers: Seq<Option<AnswerView>>, i: int) -> Option<AnswerView> {
    if i < answers.len() {
        answers[i]
    } else {
        None
    }
}

/// How far each folder that is shared with a peer is.
pub open spec fn states_of(
    fs: Seq<FolderView>,
    p: PeerView,
    answers: Seq<Option<AnswerView>>,
    zero: Json,
) -> Seq<ShareView> {
    let shared = shared_with(fs, p.id);
    Seq::new(shared.len(), |i: int| share_of(shared[i], p, answer_at(answers, i), zero))
}

fn is_shared_with(f: &FolderInfo, id: &str) -> (r: bool)
    ensures
        r == f@.peers.contains(id@),
{
    let mut i: usize = 0;
    while i < f.peers.len()
        invariant
            i <= f.peers@.len(),
            forall|j: int| 0 <= j < i ==> (#[trigger] f.peers@[j])@ != id@,
        decreases f.peers@.len() - i,
    {
        if text::same_text(f.peers[i].as_str(), id) {
            assert(f@.peers[i as int] == id@);
            return true;
        }
        i += 1;
    }
    proof {
        if f@.peers.contains(id@) {
            let j = choose|j: int| 0 <= j < f@.peers.len() && f@.peers[j] == id@;
            assert(f.peers@[j]@ == id@);
        }
    }
    false
}

fn folders_shared_with<'a>(folders: &'a Vec<FolderInfo>, id: &str) -> (r: Vec<&'a FolderInfo>)
    ensures
        r@.map_values(|f: &FolderInfo| f@) == shared_with(folder_views(folders@), id@),
{
    let ghost all = folder_views(folders@);
    let ghost shared = |f: FolderView| f.peers.contains(id@);
    let mut out: Vec<&'a FolderInfo> = Vec::new();
    let mut i: usize = 0;
    reveal(Seq::filter);
    assert(out@.map_values(|f: &FolderInfo| f@) =~= all.take(0).filter(shared));
    while i < folders.len()
        invariant
            i <= folders@.len(),
            all == folder_views(folders@),
            shared == (|f: FolderView| f.peers.contains(id@)),
            out@.map_values(|f: &FolderInfo| f@) == all.take(i as int).filter(shared),
        decreases folders@.len() - i,
    {
        reveal(Seq::filter);
        assert(all.take(i + 1).drop_last() =~= all.take(i as int));
        assert(all.take(i + 1).last() == folders@[i as int]@);
        let ghost before = out@.map_values(|f: &FolderInfo| f@);
        if is_shared_with(&folders[i], id) {
            out.push(&folders[i]);
            assert(out@.map_values(|f: &FolderInfo| f@) =~= before.push(folders@[i as int]@));
        }
        i += 1;
    }
    assert(all.take(i as int) =~= all);
    out
}

/// The ids of the folders whose completion on the peer is to be asked for.
pub fn asked_folders(folders: &Vec<FolderInfo>, p: &PeerSync) -> (r: Vec<String>)
    ensures
        text::texts(r@) == asked(folder_views(folders@), p@),
{
    let mut out: Vec<String> = Vec::new();
    if p.connected {
        let shared = folders_shared_with(folders, p.id.as_str());
        let ghost fs = shared_with(folder_views(folders@), p.id@);
        assert(shared@.map_values(|f: &FolderInfo| f@) == fs);
        let mut i: usize = 0;
        while i < shared.len()
            invariant
                i <= shared@.len(),
                shared@.map_values(|f: &FolderInfo| f@) == fs,
                out@.len() == i,
                forall|j: int| 0 <= j < i ==> (#[trigger] out@[j])@ == fs[j].id,
            decreases shared@.len() - i,
        {
            assert(fs[i as int] == shared@[i as int]@);
            out.push(shared[i].id.clone());
            i += 1;
        }
    }
    assert(text::texts(out@) =~= asked(folder_views(folders@), p@));
    out
}

/// Per-folder share state between one peer and us: every folder shared with the
/// peer, with the same classification `doctor` uses for the vault. The answers are
/// those for `asked_folders`, in its order; a call that failed has none. `zero` is
/// the completion where none is known.
pub fn peer_folder_states(
    folders: &Vec<FolderInfo>,
    p: &PeerSync,
    answers: &Vec<Option<Answer>>,
    zero: &Value,
) -> (r: Vec<Share>)
    ensures
        share_views(r@) == states_of(
            folder_views(folders@),
            p@,
            answer_views(answers@),
            json::json(*zero),
        ),
{
    let shared = folders_shared_with(folders, p.id.as_str());
    let ghost fs = shared_with(folder_views(folders@), p.id@);
    let ghost all = answer_views(answers@);
    assert(shared@.map_values(|f: &FolderInfo| f@) == fs);
    let mut out: Vec<Share> = Vec::new();
    let mut i: usize = 0;
    while i < shared.len()
        invariant
            i <= shared@.len(),
            all == answer_views(answers@),
            shared@.map_values(|f: &FolderInfo| f@) == fs,
            out@.len() == i,
            forall|j: int|
                0 <= j < i ==> (#[trigger] out@[j])@ == share_of(
                    fs[j],
                    p@,
                    answer_at(all, j),
                    json::json(*zero),
                ),
        decreases shared@.len() - i,
    {
        assert(fs[i as int] == shared@[i as int]@);
        let answer = if !p.connected {
            no_answer(ShareState::Offline, zero)
        } else if i < answers.len() {
            assert(all[i as int] == answer_views(answers@)[i as int]);
            match &answers[i] {
                Some(a) => copy_answer(a),
                None => no_answer(ShareState::Establishing, zero),
            }
        } else {
            no_answer(ShareState::Establishing, zero)
        };
        out.push(Share { folder: shared[i].id.clone(), name: shared[i].name.clone(), answer });
        i += 1;
    }
    assert(share_views(out@) =~= states_of(folder_views(folders@), p@, all, json::json(*zero)));
    out
}

fn no_answer(state: ShareState, zero: &Value) -> (r: Answer)
    ensures
        r@ == unanswered(state, json::json(*zero)),
{
    Answer { state, completion: json::copy_value(zero), in_sync: false, percent: "0".to_owned() }
}

fn copy_answer(a: &Answer) -> (r: Answer)
    ensures
        r@ == a@,
{
    Answer {
        state: a.state,
        completion: json::copy_value(&a.completion),
        in_sync: a.in_sync,
        percent: a.percent.clone(),
    }
}

/// How one (folder, peer) pair renders next to the folder id, e.g.
/// ` (establishing)` or ` (42%)`; empty when fully in sync or offline.
pub open spec fn annotation(state: ShareState, in_sync: bool, percent: Seq<char>) -> Seq<char> {
    match state {
        ShareState::Sharing => if in_sync {
            seq![]
        } else {
            " ("@ + percent + "%)"@
        },
        ShareState::Establishing => " (establishing)"@,
        ShareState::NotSharingBack => " (peer not sharing back)"@,
        ShareState::Offline => seq![],
    }
}

/// How one (folder, peer) pair renders next to the folder id.
pub fn share_annotation(state: ShareState, in_sync: bool, percent: &str) -> (r: String)
    ensures
        r@ == annotation(state, in_sync, percent@),
{
    match state {
        ShareState::Sharing => {
            if in_sync {
                String::new()
            } else {
                let mut s = " (".to_owned();
                s.append(percent);
                s.append("%)");
                s
            }
        },
        ShareState::Establishing => " (establishing)".to_owned(),
        ShareState::NotSharingBack => " (peer not sharing back)".to_owned(),
        ShareState::Offline => String::new(),
    }
}

/// Each folder that is shared with a peer is among the peer's share states, under
/// its own id and name.
pub proof fn a_shared_folder_is_listed(
    fs: Seq<FolderView>,
    p: PeerView,
    answers: Seq<Option<AnswerView>>,
    zero: Json,
    j: int,
)
    requires
        0 <= j < fs.len(),
        fs[j].peers.contains(p.id),
    ensures
        exists|i: int|
            {
                &&& 0 <= i < states_of(fs, p, answers, zero).len()
                &&& (#[trigger] states_of(fs, p, answers, zero)[i]).folder == fs[j].id
                &&& states_of(fs, p, answers, zero)[i].name == fs[j].name
            },
{
    let pred = |f: FolderView| f.peers.contains(p.id);
    fs.lemma_filter_contains(pred, j);
    let i = choose|i: int| 0 <= i < fs.filter(pred).len() && fs.filter(pred)[i] == fs[j];
    assert(states_of(fs, p, answers, zero)[i].folder == fs[j].id);
}

/// A peer's share states are of folders that are shared with it, and of no others.
pub proof fn a_listed_folder_is_shared(
    fs: Seq<FolderView>,
    p: PeerView,
    answers: Seq<Option<AnswerView>>,
    zero: Json,
    i: int,
)
    requires
        0 <= i < states_of(fs, p, answers, zero).len(),
    ensures
        exists|j: int|
            {
                &&& 0 <= j < fs.len()
                &&& (#[trigger] fs[j]).peers.contains(p.id)
                &&& fs[j].id == states_of(fs, p, answers, zero)[i].folder
                &&& fs[j].name == states_of(fs, p, answers, zero)[i].name
            },
{
    let pred = |f: FolderView| f.peers.contains(p.id);
    let g = fs.filter(pred)[i];
    fs.lemma_filter_pred(pred, i);
    assert(fs.filter(pred).contains(g));
    fs.lemma_filter_contains_rev(pred, g);
    let j = choose|j: int| 0 <= j < fs.len() && fs[j] == g;
    assert(fs[j].id == states_of(fs, p, answers, zero)[i].folder);
}

} // verus!
