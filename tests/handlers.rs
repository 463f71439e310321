use url_shortener::handlers::{
    extract_url, find_url_parameter, join_path, Method, Request, Response, Status, UrlError,
    UrlShortenerHandler,
};
use url_shortener::storage::persisted::{PersistedKeyValueStore, WriterLog};
use url_shortener::storage::InMemoryKeyValueStore;

const PREFIX: &str = "http://localhost:3000/";

fn new_handler() -> UrlShortenerHandler<InMemoryKeyValueStore> {
    UrlShortenerHandler::new(PREFIX.to_string(), InMemoryKeyValueStore::new())
}

fn form(pairs: &[(&str, &str)]) -> Option<Vec<(String, String)>> {
    Some(pairs.iter().map(|(k, v)| (k.to_string(), v.to_string())).collect())
}

fn get(handler: &mut UrlShortenerHandler<InMemoryKeyValueStore>, path: &[&str]) -> Response {
    let req = Request {
        method: Method::Get,
        path: path.iter().map(|s| s.to_string()).collect(),
        form: None,
    };
    handler.handle(&req)
}

fn post(
    handler: &mut UrlShortenerHandler<InMemoryKeyValueStore>,
    body: Option<Vec<(String, String)>>,
) -> Response {
    let req = Request { method: Method::Post, path: vec![String::new()], form: body };
    handler.handle(&req)
}

/// The path segments of a URL that starts with the handler's prefix.
fn segments_after_prefix(url: &str) -> Vec<String> {
    assert!(url.starts_with(PREFIX));
    url[PREFIX.len()..].split('/').map(|s| s.to_string()).collect()
}

#[test]
fn short_url_not_found() {
    let mut handler = new_handler();
    let response = get(&mut handler, &["hello"]);
    assert_eq!(response.status, Status::NotFound);
}

#[test]
fn short_url_found() {
    let mut handler = new_handler();
    let response = post(&mut handler, form(&[("url", "https://www.helloclue.com")]));
    let short_url = response.location.unwrap();
    let req = Request { method: Method::Get, path: segments_after_prefix(&short_url), form: None };
    let response = handler.handle(&req);
    assert_eq!(response.status, Status::Found);
    assert_eq!(response.location.unwrap(), "https://www.helloclue.com");
}

#[test]
fn post_wrong_contenttype() {
    let mut handler = new_handler();
    let response = post(&mut handler, None);
    assert_eq!(response.status, Status::BadRequest);
    assert_eq!(response.body.unwrap(), "URL encoded body missing");
}

#[test]
fn post_missing_url() {
    let mut handler = new_handler();
    let response = post(&mut handler, form(&[("a", "b")]));
    assert_eq!(response.status, Status::BadRequest);
    assert_eq!(response.body.unwrap(), "Parameter 'url' missing from the URL encoded body");
}

#[test]
fn post_invalid_url() {
    let mut handler = new_handler();
    let response = post(&mut handler, form(&[("url", "invalid/url")]));
    assert_eq!(response.status, Status::BadRequest);
    assert_eq!(response.body.unwrap(), "Parameter 'url' is invalid");
}

#[test]
fn post_creates_short_url_then_redirects() {
    let mut handler = new_handler();
    let response = post(&mut handler, form(&[("url", "https://example.com/")]));
    assert_eq!(response.status, Status::Created);
    assert_eq!(response.status.code(), 201);
    assert!(response.body.is_none());
    let short_url = response.location.unwrap();
    let key = &short_url[PREFIX.len()..];
    assert_eq!(key.len(), 7);
    assert!(key.chars().all(|c| c.is_ascii_alphanumeric()));
    let response = get(&mut handler, &[key]);
    assert_eq!(response.status, Status::Found);
    assert_eq!(response.status.code(), 302);
    assert_eq!(response.location.unwrap(), "https://example.com/");
}

#[test]
fn get_on_empty_store_is_not_found() {
    let mut handler = new_handler();
    let response = get(&mut handler, &["doesnotexist"]);
    assert_eq!(response.status, Status::NotFound);
    assert_eq!(response.status.code(), 404);
    assert!(response.location.is_none());
}

#[test]
fn head_redirects_like_get() {
    let mut handler = new_handler();
    let response = post(&mut handler, form(&[("url", "https://example.com/a b")]));
    let short_url = response.location.unwrap();
    let req = Request {
        method: Method::Head,
        path: segments_after_prefix(&short_url),
        form: None,
    };
    let response = handler.handle_read(&req);
    assert_eq!(response.status, Status::Found);
    assert_eq!(response.location.unwrap(), "https://example.com/a b");
}

#[test]
fn other_methods_are_not_found() {
    let mut handler = new_handler();
    let req = Request {
        method: Method::Other,
        path: vec!["x".to_string()],
        form: form(&[("url", "https://example.com/")]),
    };
    let response = handler.handle(&req);
    assert_eq!(response.status, Status::NotFound);
    assert!(response.location.is_none() && response.body.is_none());
}

#[test]
fn bad_request_code_and_messages() {
    assert_eq!(Status::BadRequest.code(), 400);
    assert_eq!(Status::InternalServerError.code(), 500);
    assert_eq!(UrlError::BodyMissing.message(), "URL encoded body missing");
    assert_eq!(UrlError::UrlInvalid.message(), "Parameter 'url' is invalid");
}

#[test]
fn only_post_writes() {
    assert!(Method::Post.writes());
    assert!(!Method::Get.writes());
    assert!(!Method::Head.writes());
    assert!(!Method::Other.writes());
}

#[test]
fn first_url_field_is_taken() {
    let f = form(&[("a", "b"), ("url", "https://first.example/"), ("url", "https://second.example/")]);
    assert_eq!(find_url_parameter(&f), Ok("https://first.example/".to_string()));
    assert_eq!(extract_url(&f), Ok("https://first.example/".to_string()));
}

#[test]
fn find_url_parameter_errors() {
    assert_eq!(find_url_parameter(&None), Err(UrlError::BodyMissing));
    assert_eq!(find_url_parameter(&form(&[])), Err(UrlError::UrlMissing));
    assert_eq!(find_url_parameter(&form(&[("URL", "x")])), Err(UrlError::UrlMissing));
    // the syntax check is not made here
    assert_eq!(find_url_parameter(&form(&[("url", "invalid/url")])), Ok("invalid/url".to_string()));
}

#[test]
fn extract_url_checks_syntax() {
    assert_eq!(extract_url(&form(&[("url", "invalid/url")])), Err(UrlError::UrlInvalid));
    assert_eq!(extract_url(&form(&[("url", "")])), Err(UrlError::UrlInvalid));
    assert_eq!(
        extract_url(&form(&[("url", "http://localhost:3000/x")])),
        Ok("http://localhost:3000/x".to_string())
    );
}

#[test]
fn post_response_reports_given_error() {
    let mut handler = new_handler();
    let response = handler.post_response(Err(UrlError::UrlMissing));
    assert_eq!(response.status, Status::BadRequest);
    assert_eq!(response.body.unwrap(), "Parameter 'url' missing from the URL encoded body");
    let response = handler.post_response(Ok("anything".to_string()));
    assert_eq!(response.status, Status::Created);
    let short_url = response.location.unwrap();
    assert!(short_url.starts_with(PREFIX));
    assert_eq!(short_url.len(), PREFIX.len() + 7);
}

#[test]
fn join_path_joins_with_slashes() {
    assert_eq!(join_path(&vec![]), "");
    assert_eq!(join_path(&vec!["abc".to_string()]), "abc");
    assert_eq!(join_path(&vec!["a".to_string(), "".to_string(), "c".to_string()]), "a//c");
}

#[test]
fn nested_path_is_one_key() {
    let mut handler = new_handler();
    let response = get(&mut handler, &["a", "b"]);
    assert_eq!(response.status, Status::NotFound);
}

fn refusing_writer(_line: &str) -> bool {
    false
}

#[test]
fn failed_store_write_is_internal_error() {
    let store = PersistedKeyValueStore::new(&Vec::new(), WriterLog::new(refusing_writer));
    let mut handler = UrlShortenerHandler::new(PREFIX.to_string(), store);
    let req = Request {
        method: Method::Post,
        path: vec![String::new()],
        form: form(&[("url", "https://example.com/")]),
    };
    let response = handler.handle(&req);
    assert_eq!(response.status, Status::InternalServerError);
    assert_eq!(response.status.code(), 500);
    assert!(response.location.is_none() && response.body.is_none());
}
