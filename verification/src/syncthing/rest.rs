//! Syncthing's localhost REST API: what is sent for each operation, and what the
//! replies say. The API key authenticates via the X-API-Key header.
//!
//! Config objects (folders/devices/options) are passed as `serde_json::Value`
//! so Syncthing's own fields survive a get-modify-put round trip untouched.

use serde_json::Value;
use vstd::prelude::*;
use vstd::string::*;

use crate::json;
use crate::json::Json;
use crate::syncthing::url;
use crate::text;

verus! {

/// How far a folder is in sync.
#[derive(Debug)]
pub struct FolderStatus {
    pub state: String,
    pub need_bytes: i64,
}

/// Whether a device is connected, and from where.
#[derive(Debug)]
pub struct Connection {
    pub connected: bool,
    pub address: String,
}

/// A device that asks to be paired.
#[derive(Debug)]
pub struct PendingDevice {
    pub name: String,
    pub address: String,
}

/// The remote's description of an offered folder. Every field here is chosen by
/// the *peer*, so treat `label` as untrusted text and never as a filesystem path.
#[derive(Debug, Default)]
pub struct OfferedFolder {
    pub label: String,
    pub time: String,
    pub receive_encrypted: bool,
    pub remote_encrypted: bool,
}

/// A folder some peer has offered to share with us that we have not accepted:
/// `offered_by` gives each announcing device id what that device told us about the
/// folder. The same folder id can be offered by several peers, which is why
/// accepting is always scoped to one (folder, device) pair.
#[derive(Debug, Default)]
pub struct PendingFolder {
    pub offered_by: Vec<(String, OfferedFolder)>,
}

/// The methods that the API is called with.
#[derive(Debug, Clone, Copy, PartialEq, Eq, Structural)]
pub enum Method {
    Get,
    Put,
    Post,
    Delete,
}

/// The name of a method.
pub open spec fn method_name(m: Method) -> Seq<char> {
    match m {
        Method::Get => "GET"@,
        Method::Put => "PUT"@,
        Method::Post => "POST"@,
        Method::Delete => "DELETE"@,
    }
}

impl Method {
    /// The name of the method.
    pub fn name(self) -> (r: &'static str)
        ensures
            r@ == method_name(self),
    {
        match self {
            Method::Get => "GET",
            Method::Put => "PUT",
            Method::Post => "POST",
            Method::Delete => "DELETE",
        }
    }
}

/// What is sent for an operation.
#[derive(Debug)]
pub struct Request<'a> {
    pub method: Method,
    pub path: String,
    /// The document that is sent along: the caller's own, as it is.
    pub body: Option<&'a Value>,
}

impl<'a> Request<'a> {
    /// The request asks for this with this document.
    pub open spec fn asks(&self, method: Method, path: Seq<char>, body: Option<&Value>) -> bool {
        &&& self.method == method
        &&& self.path@ == path
        &&& self.body == body
    }
}

/// What came back.
#[derive(Debug)]
pub enum Reply {
    /// Success, with the text of the body.
    Done { body: String },
    /// A status that tells of a failure, with the text of the body.
    Status { code: u16, body: String },
    /// No reply, and why.
    Nothing { why: String },
}

/// Why an operation fails.
#[derive(Debug)]
pub enum ApiError {
    BadJson { method: Method, path: String, why: String },
    Failed { method: Method, path: String, code: u16, body: String },
    Unreachable { base: String, why: String },
    FolderWithoutId,
    DeviceWithoutId,
}

/// What an error says.
pub enum ApiProblem {
    BadJson { method: Method, path: Seq<char>, why: Seq<char> },
    Failed { method: Method, path: Seq<char>, code: u16, body: Seq<char> },
    Unreachable { base: Seq<char>, why: Seq<char> },
    FolderWithoutId,
    DeviceWithoutId,
}

impl View for ApiError {
    type V = ApiProblem;

    open spec fn view(&self) -> ApiProblem {
        match self {
            ApiError::BadJson { method, path, why } => ApiProblem::BadJson {
                method: *method,
                path: path@,
                why: why@,
            },
            ApiError::Failed { method, path, code, body } => ApiProblem::Failed {
                method: *method,
                path: path@,
                code: *code,
                body: body@,
            },
            ApiError::Unreachable { base, why } => ApiProblem::Unreachable {
                base: base@,
                why: why@,
            },
            ApiError::FolderWithoutId => ApiProblem::FolderWithoutId,
            ApiError::DeviceWithoutId => ApiProblem::DeviceWithoutId,
        }
    }
}

/// What is told of a problem.
pub open spec fn problem_text(p: ApiProblem) -> Seq<char> {
    match p {
        ApiProblem::BadJson { method, path, why } => "bad JSON from "@ + method_name(method) + " "@
            + path + ": "@ + why,
        ApiProblem::Failed { method, path, code, body } => "Syncthing API "@ + method_name(method)
            + " "@ + path + " failed: "@ + text::decimal(code as nat) + " "@ + body,
        ApiProblem::Unreachable { base, why } => "cannot reach Syncthing at "@ + base
            + " — is the agent started? ("@ + why + ")"@,
        ApiProblem::FolderWithoutId => "folder missing id"@,
        ApiProblem::DeviceWithoutId => "device missing deviceID"@,
    }
}

impl ApiError {
    /// What is told of the error.
    pub fn message(&self) -> (r: String)
        ensures
            r@ == problem_text(self@),
    {
        match self {
            ApiError::BadJson { method, path, why } => {
                let mut s = "bad JSON from ".to_owned();
                s.append(method.name());
                s.append(" ");
                s.append(path.as_str());
                s.append(": ");
                s.append(why.as_str());
                s
            },
            ApiError::Failed { method, path, code, body } => {
                let mut s = "Syncthing API ".to_owned();
                s.append(method.name());
                s.append(" ");
                s.append(path.as_str());
                s.append(" failed: ");
                s.append(text::decimal_text(*code as u128).as_str());
                s.append(" ");
                s.append(body.as_str());
                s
            },
            ApiError::Unreachable { base, why } => {
                let mut s = "cannot reach Syncthing at ".to_owned();
                s.append(base.as_str());
                s.append(" — is the agent started? (");
                s.append(why.as_str());
                s.append(")");
                s
            },
            ApiError::FolderWithoutId => "folder missing id".to_owned(),
            ApiError::DeviceWithoutId => "device missing deviceID".to_owned(),
        }
    }
}

/// What a reply answers, with what its body reads as: that document, null where the body
/// is blank.
pub open spec fn answer_to(
    base: Seq<char>,
    method: Method,
    path: Seq<char>,
    reply: Reply,
    read: Result<Json, Seq<char>>,
) -> Result<Json, ApiProblem> {
    match reply {
        Reply::Done { body } => if text::trimmed(body@).len() == 0 {
            Ok(Json::Null)
        } else {
            match read {
                Ok(doc) => Ok(doc),
                Err(why) => Err(ApiProblem::BadJson { method, path, why }),
            }
        },
        Reply::Status { code, body } => Err(
            ApiProblem::Failed { method, path, code, body: text::trimmed(body@) },
        ),
        Reply::Nothing { why } => Err(ApiProblem::Unreachable { base, why: why@ }),
    }
}

/// What the body of a reply reads as.
pub open spec fn read_body(reply: Reply) -> Result<Json, Seq<char>> {
    match reply {
        Reply::Done { body } => json::json_read(body@),
        _ => Ok(Json::Null),
    }
}

/// What was read, as a document or as the reason why there is none.
pub open spec fn read_view(read: Result<Value, String>) -> Result<Json, Seq<char>> {
    match read {
        Ok(v) => Ok(json::json(v)),
        Err(why) => Err(why@),
    }
}

/// An answer, as a document or as the problem.
pub open spec fn answer_view(r: Result<Value, ApiError>) -> Result<Json, ApiProblem> {
    match r {
        Ok(v) => Ok(json::json(v)),
        Err(e) => Err(e@),
    }
}

/// The path that sets or removes a folder.
pub open spec fn folder_path(id: Seq<char>) -> Seq<char> {
    "/rest/config/folders/"@ + id
}

/// The path of a folder's versions.
pub open spec fn versions_path(id: Seq<char>) -> Seq<char> {
    "/rest/folder/versions?folder="@ + url::urlencoded(id)
}

/// A path with a folder and a device in its query.
pub open spec fn pair_path(path: Seq<char>, folder: Seq<char>, device: Seq<char>) -> Seq<char> {
    path + url::urlencoded(folder) + "&device="@ + url::urlencoded(device)
}

fn pair_path_text(path: &str, folder: &str, device: &str) -> (r: String)
    ensures
        r@ == pair_path(path@, folder@, device@),
{
    let mut s = path.to_owned();
    s.append(url::urlencode(folder).as_str());
    s.append("&device=");
    s.append(url::urlencode(device).as_str());
    s
}

fn bare<'a>(method: Method, path: String) -> (r: Request<'a>)
    ensures
        r.asks(method, path@, None),
{
    Request { method, path, body: None }
}

/// Syncthing's address and the key to it.
#[derive(Debug)]
pub struct Client {
    base: String,
    api_key: String,
}

impl Client {
    /// Where the API is.
    pub closed spec fn base(&self) -> Seq<char> {
        self.base@
    }

    /// The key that it asks for.
    pub closed spec fn key(&self) -> Seq<char> {
        self.api_key@
    }

    pub fn new(gui_address: &str, api_key: &str) -> (r: Client)
        ensures
            r.base() == "http://"@ + gui_address@,
            r.key() == api_key@,
    {
        let mut base = "http://".to_owned();
        base.append(gui_address);
        Client { base, api_key: api_key.to_owned() }
    }

    /// The address that a request goes to.
    pub fn url(&self, request: &Request) -> (r: String)
        ensures
            r@ == self.base() + request.path@,
    {
        let mut s = self.base.clone();
        s.append(request.path.as_str());
        s
    }

    /// The header that authenticates a request.
    pub fn header(&self) -> (r: (&str, &str))
        ensures
            r.0@ == "X-API-Key"@,
            r.1@ == self.key(),
    {
        ("X-API-Key", self.api_key.as_str())
    }

    /// What the reply to a request answers, with what its body was read as.
    pub fn answer(
        &self,
        request: &Request,
        reply: &Reply,
        read: Result<Value, String>,
    ) -> (r: Result<Value, ApiError>)
        ensures
            answer_view(r) == answer_to(
                self.base(),
                request.method,
                request.path@,
                *reply,
                read_view(read),
            ),
    {
        match reply {
            Reply::Done { body } => {
                if text::trim(body.as_str()).as_str().is_empty() {
                    return Ok(json::null_value());
                }
                match read {
                    Ok(v) => Ok(v),
                    Err(why) => Err(
                        ApiError::BadJson {
                            method: request.method,
                            path: request.path.clone(),
                            why,
                        },
                    ),
                }
            },
            Reply::Status { code, body } => Err(
                ApiError::Failed {
                    method: request.method,
                    path: request.path.clone(),
                    code: *code,
                    body: text::trim(body.as_str()),
                },
            ),
            Reply::Nothing { why } => Err(
                ApiError::Unreachable { base: self.base.clone(), why: why.clone() },
            ),
        }
    }

    /// What the reply to a request answers.
    pub fn req(&self, request: &Request, reply: &Reply) -> (r: Result<Value, ApiError>)
        ensures
            answer_view(r) == answer_to(
                self.base(),
                request.method,
                request.path@,
                *reply,
                read_body(*reply),
            ),
    {
        let read = match reply {
            Reply::Done { body } => json::read_json(body.as_str()),
            _ => Ok(json::null_value()),
        };
        self.answer(request, reply, read)
    }

    pub fn ping<'a>(&self) -> (r: Request<'a>)
        ensures
            r.asks(Method::Get, "/rest/system/ping"@, None),
    {
        bare(Method::Get, "/rest/system/ping".to_owned())
    }

    pub fn my_device_id<'a>(&self) -> (r: Request<'a>)
        ensures
            r.asks(Method::Get, "/rest/system/status"@, None),
    {
        bare(Method::Get, "/rest/system/status".to_owned())
    }

    pub fn version<'a>(&self) -> (r: Request<'a>)
        ensures
            r.asks(Method::Get, "/rest/system/version"@, None),
    {
        bare(Method::Get, "/rest/system/version".to_owned())
    }

    pub fn get_options<'a>(&self) -> (r: Request<'a>)
        ensures
            r.asks(Method::Get, "/rest/config/options"@, None),
    {
        bare(Method::Get, "/rest/config/options".to_owned())
    }

    pub fn put_options<'a>(&self, options: &'a Value) -> (r: Request<'a>)
        ensures
            r.asks(Method::Put, "/rest/config/options"@, Some(options)),
    {
        Request { method: Method::Put, path: "/rest/config/options".to_owned(), body: Some(options) }
    }

    pub fn get_folders<'a>(&self) -> (r: Request<'a>)
        ensures
            r.asks(Method::Get, "/rest/config/folders"@, None),
    {
        bare(Method::Get, "/rest/config/folders".to_owned())
    }

    /// The first folder with an id, as it is.
    pub fn get_folder(&self, folders: Vec<Value>, id: &str) -> (r: Option<Value>)
        ensures
            match r {
                Some(f) => exists|i: int|
                    {
                        &&& 0 <= i < folders@.len()
                        &&& f == #[trigger] folders@[i]
                        &&& has_id(f, id@)
                        &&& forall|j: int| 0 <= j < i ==> !has_id(#[trigger] folders@[j], id@)
                    },
                None => forall|j: int| 0 <= j < folders@.len() ==> !has_id(#[trigger] folders@[j], id@),
            },
            r is Some <==> some_has_id(folders@, id@),
    {
        let ghost all = folders@;
        let mut i: usize = 0;
        while i < folders.len()
            invariant
                i <= folders@.len(),
                all == folders@,
                forall|j: int| 0 <= j < i ==> !has_id(#[trigger] folders@[j], id@),
            decreases folders@.len() - i,
        {
            let found = match json::member_text(&folders[i], "id") {
                Some(other) => text::same_text(other, id),
                None => false,
            };
            if found {
                assert(has_id(all[i as int], id@));
                let mut rest = folders;
                return Some(rest.swap_remove(i));
            }
            i += 1;
        }
        None
    }

    /// Sets a folder's configuration to the whole of `folder`.
    pub fn put_folder<'a>(&self, folder: &'a Value) -> (r: Result<Request<'a>, ApiError>)
        ensures
            match (json::json(*folder).member_text("id"@), r) {
                (Some(id), Ok(q)) => q.asks(Method::Put, folder_path(id), Some(folder)),
                (None, Err(e)) => e@ is FolderWithoutId,
                _ => false,
            },
    {
        match json::member_text(folder, "id") {
            Some(id) => {
                let mut path = "/rest/config/folders/".to_owned();
                path.append(id);
                Ok(Request { method: Method::Put, path, body: Some(folder) })
            },
            None => Err(ApiError::FolderWithoutId),
        }
    }

    /// Remove a folder from Syncthing entirely (unregister it on this machine).
    /// Stops all syncing and unshares it from every peer; the directory and its
    /// files on disk are left untouched — Syncthing only drops the folder config.
    pub fn delete_folder<'a>(&self, id: &str) -> (r: Request<'a>)
        ensures
            r.asks(Method::Delete, folder_path(id@), None),
    {
        let mut path = "/rest/config/folders/".to_owned();
        path.append(id);
        bare(Method::Delete, path)
    }

    pub fn folder_status<'a>(&self, id: &str) -> (r: Request<'a>)
        ensures
            r.asks(Method::Get, "/rest/db/status?folder="@ + url::urlencoded(id@), None),
    {
        let mut path = "/rest/db/status?folder=".to_owned();
        path.append(url::urlencode(id).as_str());
        bare(Method::Get, path)
    }

    /// Every archived version Syncthing holds for a folder, as a map of file path
    /// (relative to the folder root, forward-slashed) to the list of versions.
    pub fn folder_versions<'a>(&self, id: &str) -> (r: Request<'a>)
        ensures
            r.asks(Method::Get, versions_path(id@), None),
    {
        let mut path = "/rest/folder/versions?folder=".to_owned();
        path.append(url::urlencode(id).as_str());
        bare(Method::Get, path)
    }

    /// Restore archived versions: `picks` maps each file path to the exact
    /// `versionTime` to bring back.
    pub fn restore_versions<'a>(&self, id: &str, picks: &'a Value) -> (r: Request<'a>)
        ensures
            r.asks(Method::Post, versions_path(id@), Some(picks)),
    {
        let mut path = "/rest/folder/versions?folder=".to_owned();
        path.append(url::urlencode(id).as_str());
        Request { method: Method::Post, path, body: Some(picks) }
    }

    /// How complete our folder is on a specific peer — the check that reveals a
    /// peer connected but not actually sharing the vault back.
    pub fn folder_completion<'a>(&self, folder: &str, device: &str) -> (r: Request<'a>)
        ensures
            r.asks(
                Method::Get,
                pair_path("/rest/db/completion?folder="@, folder@, device@),
                None,
            ),
    {
        bare(Method::Get, pair_path_text("/rest/db/completion?folder=", folder, device))
    }

    pub fn get_devices<'a>(&self) -> (r: Request<'a>)
        ensures
            r.asks(Method::Get, "/rest/config/devices"@, None),
    {
        bare(Method::Get, "/rest/config/devices".to_owned())
    }

    /// Sets a device's configuration to the whole of `device`.
    pub fn put_device<'a>(&self, device: &'a Value) -> (r: Result<Request<'a>, ApiError>)
        ensures
            match (json::json(*device).member_text("deviceID"@), r) {
                (Some(id), Ok(q)) => q.asks(
                    Method::Put,
                    "/rest/config/devices/"@ + id,
                    Some(device),
                ),
                (None, Err(e)) => e@ is DeviceWithoutId,
                _ => false,
            },
    {
        match json::member_text(device, "deviceID") {
            Some(id) => {
                let mut path = "/rest/config/devices/".to_owned();
                path.append(id);
                Ok(Request { method: Method::Put, path, body: Some(device) })
            },
            None => Err(ApiError::DeviceWithoutId),
        }
    }

    pub fn pending_devices<'a>(&self) -> (r: Request<'a>)
        ensures
            r.asks(Method::Get, "/rest/cluster/pending/devices"@, None),
    {
        bare(Method::Get, "/rest/cluster/pending/devices".to_owned())
    }

    /// Dismiss a pending pairing request. Removes the device from Syncthing's pending
    /// list without adding it as a peer.
    pub fn dismiss_pending_device<'a>(&self, device: &str) -> (r: Request<'a>)
        ensures
            r.asks(
                Method::Delete,
                "/rest/cluster/pending/devices?device="@ + url::urlencoded(device@),
                None,
            ),
    {
        let mut path = "/rest/cluster/pending/devices?device=".to_owned();
        path.append(url::urlencode(device).as_str());
        bare(Method::Delete, path)
    }

    /// Folders peers have offered us but that we have not added — the per-folder
    /// half of pairing.
    pub fn pending_folders<'a>(&self) -> (r: Request<'a>)
        ensures
            r.asks(Method::Get, "/rest/cluster/pending/folders"@, None),
    {
        bare(Method::Get, "/rest/cluster/pending/folders".to_owned())
    }

    /// Dismiss one peer's offer of a folder, without adding it. `device` scopes
    /// the dismissal to that peer's announcement — Syncthing would otherwise drop
    /// the offer from *every* device, silently discarding a second peer's
    /// unrelated offer of the same folder id.
    pub fn dismiss_pending_folder<'a>(&self, folder: &str, device: &str) -> (r: Request<'a>)
        ensures
            r.asks(
                Method::Delete,
                pair_path("/rest/cluster/pending/folders?folder="@, folder@, device@),
                None,
            ),
    {
        bare(
            Method::Delete,
            pair_path_text("/rest/cluster/pending/folders?folder=", folder, device),
        )
    }

    pub fn connections<'a>(&self) -> (r: Request<'a>)
        ensures
            r.asks(Method::Get, "/rest/system/connections"@, None),
    {
        bare(Method::Get, "/rest/system/connections".to_owned())
    }
}

/// The configurations in an answer: its items, none where it is no array.
pub open spec fn configs(doc: Json) -> Seq<Json> {
    match doc {
        Json::Array(items) => items,
        _ => seq![],
    }
}

/// The folders or the devices in an answer.
pub fn configs_in(v: Value) -> (r: Vec<Value>)
    ensures
        json::jsons(r@) == configs(json::json(v)),
{
    match json::into_items(v) {
        Some(items) => items,
        None => {
            let none: Vec<Value> = Vec::new();
            assert(json::jsons(none@) =~= Seq::<Json>::empty());
            none
        },
    }
}

/// The folder has the id.
pub open spec fn has_id(folder: Value, id: Seq<char>) -> bool {
    json::json(folder).member_text("id"@) == Some(id)
}

/// Some folder of a list has the id.
pub open spec fn some_has_id(folders: Seq<Value>, id: Seq<char>) -> bool {
    exists|i: int| 0 <= i < folders.len() && has_id(#[trigger] folders[i], id)
}

/// A path with a folder and a device in its query names that pair and no other.
pub proof fn a_query_names_one_pair(
    path: Seq<char>,
    folder: Seq<char>,
    device: Seq<char>,
    other_folder: Seq<char>,
    other_device: Seq<char>,
)
    requires
        pair_path(path, folder, device) == pair_path(path, other_folder, other_device),
    ensures
        folder == other_folder,
        device == other_device,
{
    let a = url::urlencoded(folder);
    let b = url::urlencoded(other_folder);
    let c = url::urlencoded(device);
    let d = url::urlencoded(other_device);
    let mid = "&device="@;
    let x = pair_path(path, folder, device);
    let y = pair_path(path, other_folder, other_device);
    reveal_strlit("&device=");
    url::urlencode_is_plain(folder);
    url::urlencode_is_plain(other_folder);
    let n = path.len() as int;
    if a.len() < b.len() {
        assert(x[n + a.len()] == mid[0]);
        assert(y[n + a.len()] == b[a.len() as int]);
    }
    if b.len() < a.len() {
        assert(y[n + b.len()] == mid[0]);
        assert(x[n + b.len()] == a[b.len() as int]);
    }
    assert(a =~= x.subrange(n, n + a.len()));
    assert(b =~= y.subrange(n, n + b.len()));
    let m = n + a.len() + mid.len();
    assert(c =~= x.skip(m));
    assert(d =~= y.skip(m));
    url::urlencode_is_injective(folder, other_folder);
    url::urlencode_is_injective(device, other_device);
}

} // verus!
