use byteferret::syncthing::rest::{configs_in, ApiError, Client, Method, Reply, Request};
use byteferret::syncthing::url::urlencode;
use serde_json::Value;

fn doc(text: &str) -> Value {
    serde_json::from_str(text).unwrap()
}

fn client() -> Client {
    Client::new("127.0.0.1:8384", "secret")
}

fn bare(r: &Request) -> (Method, String) {
    assert!(r.body.is_none());
    (r.method, r.path.clone())
}

#[test]
fn urlencode_keeps_what_is_unreserved() {
    assert_eq!(urlencode("AZaz09-_.~"), "AZaz09-_.~");
    assert_eq!(urlencode("a b/c&d=e"), "a%20b%2Fc%26d%3De");
    assert_eq!(urlencode("é%"), "%C3%A9%25");
    assert_eq!(urlencode("\u{0}\u{7f}"), "%00%7F");
    assert_eq!(urlencode(""), "");
}

#[test]
fn requests_name_what_they_are_about() {
    let c = client();
    assert_eq!(bare(&c.ping()), (Method::Get, "/rest/system/ping".to_string()));
    assert_eq!(bare(&c.my_device_id()), (Method::Get, "/rest/system/status".to_string()));
    assert_eq!(bare(&c.version()), (Method::Get, "/rest/system/version".to_string()));
    assert_eq!(bare(&c.get_options()), (Method::Get, "/rest/config/options".to_string()));
    assert_eq!(bare(&c.get_folders()), (Method::Get, "/rest/config/folders".to_string()));
    assert_eq!(bare(&c.get_devices()), (Method::Get, "/rest/config/devices".to_string()));
    assert_eq!(
        bare(&c.delete_folder("a b")),
        (Method::Delete, "/rest/config/folders/a b".to_string())
    );
    assert_eq!(
        bare(&c.folder_status("a b")),
        (Method::Get, "/rest/db/status?folder=a%20b".to_string())
    );
    assert_eq!(
        bare(&c.folder_versions("a&b")),
        (Method::Get, "/rest/folder/versions?folder=a%26b".to_string())
    );
    assert_eq!(
        bare(&c.folder_completion("a b", "D=1")),
        (Method::Get, "/rest/db/completion?folder=a%20b&device=D%3D1".to_string())
    );
    assert_eq!(
        bare(&c.pending_devices()),
        (Method::Get, "/rest/cluster/pending/devices".to_string())
    );
    assert_eq!(
        bare(&c.pending_folders()),
        (Method::Get, "/rest/cluster/pending/folders".to_string())
    );
    assert_eq!(
        bare(&c.dismiss_pending_device("D 1")),
        (Method::Delete, "/rest/cluster/pending/devices?device=D%201".to_string())
    );
    assert_eq!(
        bare(&c.dismiss_pending_folder("f 1", "D 1")),
        (Method::Delete, "/rest/cluster/pending/folders?folder=f%201&device=D%201".to_string())
    );
    assert_eq!(bare(&c.connections()), (Method::Get, "/rest/system/connections".to_string()));
}

#[test]
fn documents_are_sent_as_they_are() {
    let c = client();
    let options = doc(r#"{"unknown": {"kept": [1, 2.5, null]}}"#);
    let r = c.put_options(&options);
    assert_eq!((r.method, r.path.as_str()), (Method::Put, "/rest/config/options"));
    assert_eq!(r.body, Some(&options));
    let picks = doc(r#"{"f": "t"}"#);
    let r = c.restore_versions("a/b", &picks);
    assert_eq!((r.method, r.path.as_str()), (Method::Post, "/rest/folder/versions?folder=a%2Fb"));
    assert_eq!(r.body, Some(&picks));
    let folder = doc(r#"{"id": "v-1", "x": true}"#);
    let r = c.put_folder(&folder).unwrap();
    assert_eq!((r.method, r.path.as_str()), (Method::Put, "/rest/config/folders/v-1"));
    assert_eq!(r.body, Some(&folder));
    let device = doc(r#"{"deviceID": "D-1"}"#);
    let r = c.put_device(&device).unwrap();
    assert_eq!((r.method, r.path.as_str()), (Method::Put, "/rest/config/devices/D-1"));
    assert_eq!(r.body, Some(&device));
}

#[test]
fn a_document_without_an_id_is_refused() {
    let c = client();
    for text in ["{}", r#"{"id": 3}"#, "null"] {
        let v = doc(text);
        let e = c.put_folder(&v).unwrap_err();
        assert!(matches!(e, ApiError::FolderWithoutId));
        assert_eq!(e.message(), "folder missing id");
        let e = c.put_device(&v).unwrap_err();
        assert!(matches!(e, ApiError::DeviceWithoutId));
        assert_eq!(e.message(), "device missing deviceID");
    }
}

#[test]
fn the_key_goes_along() {
    let c = client();
    assert_eq!(c.url(&c.ping()), "http://127.0.0.1:8384/rest/system/ping");
    assert_eq!(c.header(), ("X-API-Key", "secret"));
    assert_eq!(Method::Get.name(), "GET");
    assert_eq!(Method::Put.name(), "PUT");
    assert_eq!(Method::Post.name(), "POST");
    assert_eq!(Method::Delete.name(), "DELETE");
}

#[test]
fn a_reply_answers_or_tells_why_not() {
    let c = client();
    let r = c.ping();
    let done = |body: &str| Reply::Done { body: body.to_string() };
    assert_eq!(c.req(&r, &done("")).unwrap(), Value::Null);
    assert_eq!(c.req(&r, &done(" \n\t\u{3000}")).unwrap(), Value::Null);
    assert_eq!(c.req(&r, &done(" {\"ping\": \"pong\"} ")).unwrap(), doc(r#"{"ping": "pong"}"#));
    let e = c.req(&r, &done("oops")).unwrap_err();
    assert!(matches!(e, ApiError::BadJson { .. }));
    assert!(e.message().starts_with("bad JSON from GET /rest/system/ping: expected"));
    let e = c
        .req(&r, &Reply::Status { code: 403, body: " CSRF Error\n".to_string() })
        .unwrap_err();
    assert!(matches!(e, ApiError::Failed { .. }));
    assert_eq!(e.message(), "Syncthing API GET /rest/system/ping failed: 403 CSRF Error");
    let e = c.req(&r, &Reply::Nothing { why: "refused".to_string() }).unwrap_err();
    assert!(matches!(e, ApiError::Unreachable { .. }));
    assert_eq!(
        e.message(),
        "cannot reach Syncthing at http://127.0.0.1:8384 — is the agent started? (refused)"
    );
}

#[test]
fn what_was_read_counts_where_there_is_a_body() {
    let c = client();
    let r = c.version();
    let done = Reply::Done { body: "x".to_string() };
    assert_eq!(c.answer(&r, &done, Ok(doc("[1]"))).unwrap(), doc("[1]"));
    let e = c.answer(&r, &done, Err("odd".to_string())).unwrap_err();
    assert_eq!(e.message(), "bad JSON from GET /rest/system/version: odd");
    let blank = Reply::Done { body: "\n".to_string() };
    assert_eq!(c.answer(&r, &blank, Err("odd".to_string())).unwrap(), Value::Null);
    let status = Reply::Status { code: 500, body: String::new() };
    let e = c.answer(&r, &status, Ok(doc("[1]"))).unwrap_err();
    assert_eq!(e.message(), "Syncthing API GET /rest/system/version failed: 500 ");
}

#[test]
fn folders_are_found_by_id() {
    let c = client();
    let folders = || configs_in(doc(r#"[{"id": "a"}, 3, {"id": "b", "n": 1}, {"id": "b", "n": 2}]"#));
    assert_eq!(folders().len(), 4);
    assert_eq!(c.get_folder(folders(), "b"), Some(doc(r#"{"id": "b", "n": 1}"#)));
    assert_eq!(c.get_folder(folders(), "c"), None);
    assert!(configs_in(doc(r#"{"id": "a"}"#)).is_empty());
    assert!(configs_in(Value::Null).is_empty());
}

#[test]
fn encoded_pairs_stay_apart() {
    let c = client();
    let a = c.folder_completion("x&device=y", "z");
    let b = c.folder_completion("x", "y&device=z");
    assert!(a.path != b.path);
}
