//! Laws on what is asked of Syncthing and on what it answers.

use vstd::prelude::*;

use crate::json;
use crate::json::Json;
use crate::laws::archive;
use crate::laws::documents;
use crate::laws::texts;
use crate::syncthing::rest;
use crate::syncthing::rest::{ApiError, ApiProblem, Client, Method, Reply, Request};
use crate::syncthing::url;
use crate::text;

verus! {

/// A reply of success is what was read of its body, and nothing where the body is empty or
/// white. What could not be read is told with the request that it answers.
pub proof fn a_success_is_what_was_read(
    base: Seq<char>,
    method: Method,
    path: Seq<char>,
    body: String,
    read: Result<Json, Seq<char>>,
)
    ensures
        ({
            let answer = rest::answer_to(base, method, path, Reply::Done { body }, read);
            let is_white = forall|i: int| 0 <= i < body@.len() ==> text::white(#[trigger] body@[i]);
            &&& is_white ==> answer == Ok::<Json, ApiProblem>(Json::Null)
            &&& !is_white ==> (read matches Ok(doc) ==> answer == Ok::<Json, ApiProblem>(doc))
            &&& !is_white ==> (read matches Err(why) ==> answer == Err::<Json, ApiProblem>(
                ApiProblem::BadJson { method, path, why },
            ))
        }),
        rest::read_body(Reply::Done { body }) == json::json_read(body@),
{
    texts::trimming_is_exact(body@);
}

/// A reply of failure is told with the request, the code and the body, without the white
/// space around it; no reply with the address that was tried.
pub proof fn a_failure_is_told_with_its_request(
    base: Seq<char>,
    method: Method,
    path: Seq<char>,
    code: u16,
    body: String,
    read: Result<Json, Seq<char>>,
)
    ensures
        rest::answer_to(base, method, path, Reply::Status { code, body }, read) == Err::<
            Json,
            ApiProblem,
        >(ApiProblem::Failed { method, path, code, body: text::trimmed(body@) }),
        rest::answer_to(base, method, path, Reply::Nothing { why: body }, read) == Err::<
            Json,
            ApiProblem,
        >(ApiProblem::Unreachable { base, why: body@ }),
{
}

/// The message of a problem has all that is known of it.
pub proof fn a_problem_tells_all_that_is_known(
    method: Method,
    path: Seq<char>,
    code: u16,
    more: Seq<char>,
)
    ensures
        ({
            let verb = match method {
                Method::Get => "GET"@,
                Method::Put => "PUT"@,
                Method::Post => "POST"@,
                Method::Delete => "DELETE"@,
            };
            &&& rest::method_name(method) == verb
            &&& rest::problem_text(ApiProblem::BadJson { method, path, why: more })
                == "bad JSON from "@ + verb + " "@ + path + ": "@ + more
            &&& rest::problem_text(ApiProblem::Failed { method, path, code, body: more })
                == "Syncthing API "@ + verb + " "@ + path + " failed: "@ + text::decimal(
                code as nat,
            ) + " "@ + more
            &&& rest::problem_text(ApiProblem::Unreachable { base: path, why: more })
                == "cannot reach Syncthing at "@ + path + " — is the agent started? ("@ + more
                + ")"@
            &&& rest::problem_text(ApiProblem::FolderWithoutId) == "folder missing id"@
            &&& rest::problem_text(ApiProblem::DeviceWithoutId) == "device missing deviceID"@
        }),
{
}

/// A request names its folder and its device, in that order, each encoded; a folder's
/// configuration is found under its id.
pub proof fn a_path_names_what_is_asked_for(
    path: Seq<char>,
    folder: Seq<char>,
    device: Seq<char>,
)
    ensures
        rest::folder_path(folder) == "/rest/config/folders/"@ + folder,
        rest::versions_path(folder) == "/rest/folder/versions?folder="@ + url::urlencoded(folder),
        rest::pair_path(path, folder, device) == path + url::urlencoded(folder) + "&device="@
            + url::urlencoded(device),
{
}

/// A list of configurations is the items of the array, and none where there is no array. A
/// configuration has an id where it has a text under `id`.
pub proof fn the_configurations_are_the_items(doc: Json, folder: serde_json::Value, id: Seq<char>)
    ensures
        rest::configs(doc) == documents::items_of(doc),
        rest::has_id(folder, id) <==> archive::text_at(json::json(folder), "id"@) == Some(id),
{
}

/// A letter, a digit, `-`, `_`, `.` or `~`.
pub open spec fn stands_for_itself(b: u8) -> bool {
    ||| 'A' as int <= b as int <= 'Z' as int
    ||| 'a' as int <= b as int <= 'z' as int
    ||| '0' as int <= b as int <= '9' as int
    ||| b as int == '-' as int
    ||| b as int == '_' as int
    ||| b as int == '.' as int
    ||| b as int == '~' as int
}

/// A byte is encoded as itself, where it is a letter, a digit or one of four marks, and else
/// as a percent sign and its two hexadecimal digits.
pub proof fn a_byte_stands_for_itself_or_is_escaped(b: u8)
    ensures
        stands_for_itself(b) ==> url::encoded_bytes(seq![b]) == seq![b as char],
        !stands_for_itself(b) ==> url::encoded_bytes(seq![b]) == seq![
            '%',
            "0123456789ABCDEF"@[b as int / 16],
            "0123456789ABCDEF"@[b as int % 16],
        ],
{
    assert(seq![b].drop_last() =~= Seq::<u8>::empty());
    assert(url::encoded_bytes(seq![b].drop_last()) =~= Seq::<char>::empty());
    assert(url::encoded_bytes(seq![b]) =~= url::encoded_byte(b));
    lemma_hex(b as int / 16);
    lemma_hex(b as int % 16);
}

proof fn lemma_hex(d: int)
    requires
        0 <= d < 16,
    ensures
        url::hex(d) == "0123456789ABCDEF"@[d],
{
    reveal_strlit("0123456789ABCDEF");
    let all = "0123456789ABCDEF"@;
    assert(all[0] == '0' && all[1] == '1' && all[2] == '2' && all[3] == '3' && all[4] == '4');
    assert(all[5] == '5' && all[6] == '6' && all[7] == '7' && all[8] == '8' && all[9] == '9');
    assert(all[10] == 'A' && all[11] == 'B' && all[12] == 'C' && all[13] == 'D');
    assert(all[14] == 'E' && all[15] == 'F');
}

/// A text is encoded byte by byte, from first to last, in UTF-8.
pub proof fn every_byte_is_encoded(a: Seq<u8>, b: Seq<u8>, s: Seq<char>)
    ensures
        url::urlencoded(s) == url::encoded_bytes(vstd::utf8::encode_utf8(s)),
        url::encoded_bytes(a + b) == url::encoded_bytes(a) + url::encoded_bytes(b),
    decreases b.len(),
{
    if b.len() > 0 {
        every_byte_is_encoded(a, b.drop_last(), s);
        assert((a + b).drop_last() =~= a + b.drop_last());
        assert((a + b).last() == b.last());
        assert(url::encoded_bytes(a + b) =~= url::encoded_bytes(a) + url::encoded_bytes(b));
    } else {
        assert(a + b =~= a);
        assert(url::encoded_bytes(a + b) =~= url::encoded_bytes(a) + url::encoded_bytes(b));
    }
}

/// The request reads what is at the path, and sends nothing along.
pub open spec fn only_reads(r: Request, path: Seq<char>) -> bool {
    &&& r.method == Method::Get
    &&& r.path@ == path
    &&& r.body is None
}

/// The request removes what is at the path, and sends nothing along.
pub open spec fn only_removes(r: Request, path: Seq<char>) -> bool {
    &&& r.method == Method::Delete
    &&& r.path@ == path
    &&& r.body is None
}

/// What is only read is read from its own place, and nothing is sent along.
pub proof fn reading_sends_nothing_along(
    c: &Client,
    ping: Request,
    id: Request,
    version: Request,
    options: Request,
    folders: Request,
    devices: Request,
    connections: Request,
    pending_devices: Request,
    pending_folders: Request,
)
    requires
        call_ensures(Client::ping, (c,), ping),
        call_ensures(Client::my_device_id, (c,), id),
        call_ensures(Client::version, (c,), version),
        call_ensures(Client::get_options, (c,), options),
        call_ensures(Client::get_folders, (c,), folders),
        call_ensures(Client::get_devices, (c,), devices),
        call_ensures(Client::connections, (c,), connections),
        call_ensures(Client::pending_devices, (c,), pending_devices),
        call_ensures(Client::pending_folders, (c,), pending_folders),
    ensures
        only_reads(ping, "/rest/system/ping"@),
        only_reads(id, "/rest/system/status"@),
        only_reads(version, "/rest/system/version"@),
        only_reads(options, "/rest/config/options"@),
        only_reads(folders, "/rest/config/folders"@),
        only_reads(devices, "/rest/config/devices"@),
        only_reads(connections, "/rest/system/connections"@),
        only_reads(pending_devices, "/rest/cluster/pending/devices"@),
        only_reads(pending_folders, "/rest/cluster/pending/folders"@),
{
}

/// What is asked of a folder, and of a folder on a device, names them, encoded.
pub proof fn a_request_names_folder_and_device(
    c: &Client,
    folder: &str,
    device: &str,
    state: Request,
    completion: Request,
    removal: Request,
)
    requires
        call_ensures(Client::folder_status, (c, folder), state),
        call_ensures(Client::folder_completion, (c, folder, device), completion),
        call_ensures(Client::delete_folder, (c, folder), removal),
    ensures
        only_reads(state, "/rest/db/status?folder="@ + url::urlencoded(folder@)),
        only_reads(
            completion,
            "/rest/db/completion?folder="@ + url::urlencoded(folder@) + "&device="@
                + url::urlencoded(device@),
        ),
        only_removes(removal, "/rest/config/folders/"@ + folder@),
{
}

/// A request or an offer is dismissed where it is listed, and names the device and the folder.
pub proof fn what_is_dismissed_is_named(
    c: &Client,
    folder: &str,
    device: &str,
    devices: Request,
    folders: Request,
    request: Request,
    offer: Request,
)
    requires
        call_ensures(Client::pending_devices, (c,), devices),
        call_ensures(Client::pending_folders, (c,), folders),
        call_ensures(Client::dismiss_pending_device, (c, device), request),
        call_ensures(Client::dismiss_pending_folder, (c, folder, device), offer),
    ensures
        only_removes(request, devices.path@ + "?device="@ + url::urlencoded(device@)),
        only_removes(
            offer,
            folders.path@ + "?folder="@ + url::urlencoded(folder@) + "&device="@ + url::urlencoded(
                device@,
            ),
        ),
{
    reveal_strlit("/rest/cluster/pending/devices");
    reveal_strlit("?device=");
    reveal_strlit("/rest/cluster/pending/devices?device=");
    reveal_strlit("/rest/cluster/pending/folders");
    reveal_strlit("?folder=");
    reveal_strlit("/rest/cluster/pending/folders?folder=");
    assert("/rest/cluster/pending/devices"@ + "?device="@
        =~= "/rest/cluster/pending/devices?device="@);
    assert("/rest/cluster/pending/folders"@ + "?folder="@
        =~= "/rest/cluster/pending/folders?folder="@);
}

/// Versions are restored where they are listed, and what is sent along is the picks.
pub proof fn versions_are_restored_where_they_are_listed(
    c: &Client,
    folder: &str,
    picks: &serde_json::Value,
    listing: Request,
    restoring: Request,
)
    requires
        call_ensures(Client::folder_versions, (c, folder), listing),
        call_ensures(Client::restore_versions, (c, folder, picks), restoring),
    ensures
        only_reads(listing, "/rest/folder/versions?folder="@ + url::urlencoded(folder@)),
        restoring.method == Method::Post,
        restoring.path@ == listing.path@,
        restoring.body == Some(picks),
{
}

/// What is set is sent along as it is, to the place that it is read from; a folder and a
/// device to the place of its id, and there is no request for one without an id.
pub proof fn what_is_set_is_sent_along(
    c: &Client,
    value: &serde_json::Value,
    options: Request,
    folder: Result<Request, ApiError>,
    device: Result<Request, ApiError>,
)
    requires
        call_ensures(Client::put_options, (c, value), options),
        call_ensures(Client::put_folder, (c, value), folder),
        call_ensures(Client::put_device, (c, value), device),
    ensures
        options.method == Method::Put,
        options.path@ == "/rest/config/options"@,
        options.body == Some(value),
        archive::text_at(json::json(*value), "id"@) matches Some(id) ==> (folder matches Ok(q) && {
            &&& q.method == Method::Put
            &&& q.path@ == "/rest/config/folders/"@ + id
            &&& q.body == Some(value)
        }),
        archive::text_at(json::json(*value), "id"@) is None ==> (folder matches Err(e) && e@
            is FolderWithoutId),
        archive::text_at(json::json(*value), "deviceID"@) matches Some(id) ==> (device matches Ok(
            q,
        ) && {
            &&& q.method == Method::Put
            &&& q.path@ == "/rest/config/devices/"@ + id
            &&& q.body == Some(value)
        }),
        archive::text_at(json::json(*value), "deviceID"@) is None ==> (device matches Err(e) && e@
            is DeviceWithoutId),
{
}

/// A request goes to the address behind `http://`, with the key in its header.
pub proof fn a_request_goes_to_the_address(
    address: &str,
    key: &str,
    c: &Client,
    request: &Request,
    target: String,
    header: (&str, &str),
)
    requires
        call_ensures(Client::new, (address, key), *c),
        call_ensures(Client::url, (c, request), target),
        call_ensures(Client::header, (c,), header),
    ensures
        target@ == "http://"@ + address@ + request.path@,
        header.0@ == "X-API-Key"@,
        header.1@ == key@,
{
}

/// An answer is what the laws on replies say of the request and the reply, be the body read
/// before or with it.
pub proof fn a_reply_is_answered(
    c: &Client,
    request: &Request,
    reply: &Reply,
    read: Result<serde_json::Value, String>,
    given: Result<serde_json::Value, ApiError>,
    own: Result<serde_json::Value, ApiError>,
)
    requires
        call_ensures(Client::answer, (c, request, reply, read), given),
        call_ensures(Client::req, (c, request, reply), own),
    ensures
        rest::answer_view(given) == rest::answer_to(
            c.base(),
            request.method,
            request.path@,
            *reply,
            match read {
                Ok(v) => Ok(json::json(v)),
                Err(why) => Err(why@),
            },
        ),
        reply matches Reply::Done { body } ==> rest::answer_view(own) == rest::answer_to(
            c.base(),
            request.method,
            request.path@,
            *reply,
            json::json_read(body@),
        ),
        given matches Ok(v) ==> rest::answer_view(given) == Ok::<Json, ApiProblem>(json::json(v)),
        given matches Err(e) ==> rest::answer_view(given) == Err::<Json, ApiProblem>(e@),
{
}

/// The folder with an id is the first that has it, as it is; there is none where none has it.
pub proof fn the_first_folder_with_the_id_is_found(
    c: &Client,
    folders: Vec<serde_json::Value>,
    id: &str,
    r: Option<serde_json::Value>,
    i: int,
)
    requires
        call_ensures(Client::get_folder, (c, folders, id), r),
        0 <= i <= folders@.len(),
        i < folders@.len() ==> archive::text_at(json::json(folders@[i]), "id"@) == Some(id@),
        forall|k: int|
            0 <= k < i ==> archive::text_at(json::json(#[trigger] folders@[k]), "id"@) != Some(id@),
    ensures
        r == (if i < folders@.len() {
            Some(folders@[i])
        } else {
            None
        }),
{
    let all = folders@;
    assert forall|k: int| 0 <= k < all.len() implies rest::has_id(#[trigger] all[k], id@) == (
    archive::text_at(json::json(all[k]), "id"@) == Some(id@)) by {}
    if r is Some {
        let f = r->0;
        assert(exists|j: int| is_first(all, id@, f, j)) by {
            let j = choose|j: int|
                0 <= j < all.len() && f == #[trigger] all[j] && rest::has_id(f, id@) && (forall|
                    k: int,
                |
                    0 <= k < j ==> !rest::has_id(#[trigger] all[k], id@));
            assert(is_first(all, id@, f, j));
        }
        let j = choose|j: int| is_first(all, id@, f, j);
        if i < j {
            assert(!rest::has_id(all[i], id@));
        }
    }
    if i < all.len() {
        assert(rest::has_id(all[i], id@));
        assert(rest::some_has_id(all, id@));
    }
}

spec fn is_first(
    all: Seq<serde_json::Value>,
    id: Seq<char>,
    f: serde_json::Value,
    j: int,
) -> bool {
    &&& 0 <= j < all.len()
    &&& f == all[j]
    &&& rest::has_id(f, id)
    &&& forall|k: int| 0 <= k < j ==> !rest::has_id(#[trigger] all[k], id)
}

/// The configurations in an answer are the items of the array, each in its place.
pub proof fn every_configuration_is_there(v: serde_json::Value, r: Vec<serde_json::Value>)
    requires
        call_ensures(rest::configs_in, (v,), r),
    ensures
        r@.len() == documents::items_of(json::json(v)).len(),
        forall|i: int|
            0 <= i < r@.len() ==> json::json(#[trigger] r@[i]) == documents::items_of(
                json::json(v),
            )[i],
{
    let docs = json::jsons(r@);
    assert(docs.len() == r@.len());
    assert forall|i: int| 0 <= i < r@.len() implies json::json(#[trigger] r@[i]) == docs[i] by {}
}

/// A text is encoded, and a problem is told, as the laws on them say.
pub proof fn texts_are_encoded_and_problems_told(
    s: &str,
    encoded: String,
    e: &ApiError,
    message: String,
)
    requires
        call_ensures(url::urlencode, (s,), encoded),
        call_ensures(ApiError::message, (e,), message),
    ensures
        encoded@ == url::urlencoded(s@),
        message@ == rest::problem_text(e@),
        e matches ApiError::BadJson { method, path, why } ==> e@ == (ApiProblem::BadJson {
            method: *method,
            path: path@,
            why: why@,
        }),
        e matches ApiError::Failed { method, path, code, body } ==> e@ == (ApiProblem::Failed {
            method: *method,
            path: path@,
            code: *code,
            body: body@,
        }),
        e matches ApiError::Unreachable { base, why } ==> e@ == (ApiProblem::Unreachable {
            base: base@,
            why: why@,
        }),
        e is FolderWithoutId ==> e@ is FolderWithoutId,
        e is DeviceWithoutId ==> e@ is DeviceWithoutId,
{
}

} // verus!
