use std::future::Future;
use std::pin::Pin;

use http_routing::error::Error;
use http_routing::handler::RouteHandler;
use http_routing::identifiers::Identifiers;
use http_routing::request::Request;
use http_routing::routing::{Route, Segments};

#[derive(Debug, Clone, Copy)]
struct PlaceholderContext {}

type Response = Result<Vec<u8>, Error>;
type SyncFn = fn(&Request, &Identifiers, &PlaceholderContext) -> Response;
type AsyncFn = fn(&Request, &Identifiers, &PlaceholderContext) -> Pin<Box<dyn Future<Output = Response>>>;
type Handler = RouteHandler<SyncFn, AsyncFn>;

fn thunk(_req: &Request, _path_vals: &Identifiers, _ctx: &PlaceholderContext) -> Response {
    Ok(Vec::new())
}

fn thunk2(_req: &Request, _path_vals: &Identifiers, _ctx: &PlaceholderContext) -> Response {
    Err(Error::HttpMalformedRequest)
}

fn thunk_async(
    _req: &Request,
    _path_vals: &Identifiers,
    _ctx: &PlaceholderContext,
) -> Pin<Box<dyn Future<Output = Response>>> {
    Box::pin(async { Err(Error::HttpMalformedRequest) })
}

fn thunk2_async(
    _req: &Request,
    _path_vals: &Identifiers,
    _ctx: &PlaceholderContext,
) -> Pin<Box<dyn Future<Output = Response>>> {
    Box::pin(async { Ok(Vec::new()) })
}

#[test]
fn segments_literal() {
    let orig = "boop";
    let segment = Segments::new(orig);
    assert!(segment.is_ok());
    let segment = segment.unwrap();
    assert_eq!(segment, Segments::Literal(orig));
}

#[test]
fn segments_capture() {
    let orig = "{capture}";
    let segment = Segments::new(orig);
    assert!(segment.is_ok());
    let segment = segment.unwrap();
    assert_eq!(segment, Segments::Capture("capture"));
}

#[test]
fn segment_panic() {
    let orig = "{}";
    let segment = Segments::new(orig);
    assert!(segment.is_err())
}

#[test]
fn segments_short_and_unbalanced_are_literal() {
    assert!(matches!(Segments::new(""), Ok(Segments::Literal(""))));
    assert!(matches!(Segments::new("{"), Ok(Segments::Literal("{"))));
    assert!(matches!(Segments::new("{id"), Ok(Segments::Literal("{id"))));
    assert!(matches!(Segments::new("id}"), Ok(Segments::Literal("id}"))));
    assert!(matches!(Segments::new("{x}"), Ok(Segments::Capture("x"))));
}

#[test]
fn route_same_if_path_same() {
    let orig = "/some/path/potato";
    let handle: SyncFn = thunk;

    let route = Route::<Handler>::new_sync(orig, handle);
    assert!(route.is_ok());
    let route = route.unwrap();

    let route2 = Route::<Handler>::new_sync(orig, thunk2);
    assert!(route2.is_ok());
    let route2 = route2.unwrap();

    let route3 = Route::<Handler>::new_async2(orig, thunk_async);
    assert!(route3.is_ok());
    let route3 = route3.unwrap();

    let route4 = Route::<Handler>::new_async2(orig, thunk2_async);
    assert!(route4.is_ok());
    let route4 = route4.unwrap();

    assert!(route == route2);
    assert!(route == route3);
    assert!(route == route4);
}

#[test]
fn route_matches() {
    let orig = "/some/path/potato";
    let route = Route::<Handler>::new_sync(orig, thunk);
    assert!(route.is_ok());
    let route = route.unwrap();
    assert!(route.matches(orig).is_some());
}

#[test]
fn route_matches_captures() {
    let orig = "/some/{id}/potato";
    let route = Route::<Handler>::new_sync(orig, thunk);
    assert!(route.is_ok());
    let route = route.unwrap();
    for id in 0..10 {
        let path = format!("/some/{}/potato", id);
        let matches = route.matches(&path);
        assert!(matches.is_some());
        let vals = matches.unwrap();
        let id = id.to_string();
        assert_eq!(vals.get("id").unwrap(), id);
    }
}

#[test]
fn route_matches_captures_multiple() {
    let orig = "/some/{id}/potato/{msg}";
    let route = Route::<Handler>::new_sync(orig, thunk);
    assert!(route.is_ok());
    let route = route.unwrap();
    let id = 1234;
    let msg = "elegant_message";
    let path = format!("/some/{}/potato/{}", id, msg);
    let matches = route.matches(&path);
    assert!(matches.is_some());
    let vals = matches.unwrap();
    let id = id.to_string();
    assert!(vals.get("id").is_some());
    assert!(vals.get("msg").is_some());
    assert_eq!(vals.get("id").unwrap(), id);
    assert_eq!(vals.get("msg").unwrap(), msg);
}

#[test]
fn route_matches_fails() {
    let orig = "/some/{id}/potato";
    let route = Route::<Handler>::new_sync(orig, thunk);
    assert!(route.is_ok());
    let route = route.unwrap();
    let id = 1234;
    let bad_path = format!("/some/potato/{}", id);
    let matches = route.matches(&bad_path);
    assert!(matches.is_none());
}

#[test]
fn route_keys_unique() {
    let orig = "/some/{id}/potato/{id}";
    let route = Route::<Handler>::new_sync(orig, thunk);
    assert!(route.is_err());
}

#[test]
fn route_matches_same_var_twice() {
    let orig = "/some/{id}/potato/{id}";
    let route = Route::<Handler>::new_sync(orig, thunk);
    assert!(route.is_err());
}

#[test]
fn route_errors_name_their_cause() {
    assert_eq!(Route::new("/user/{}", 0u8).err(), Some(Error::CaptureKeyMissing));
    assert_eq!(Route::new("/a/{id}/b/{id}", 0u8).err(), Some(Error::DuplicateCaptureKey));
    // a missing key is reported before a repeated one
    assert_eq!(Route::new("/{id}/{id}/{}", 0u8).err(), Some(Error::CaptureKeyMissing));
}

#[test]
fn route_arity_must_match() {
    let route = Route::new("/user/{id}", 0u8).unwrap();
    assert!(route.matches("/user/42/extra").is_none());
    assert!(route.matches("/user").is_none());
    assert!(route.matches("/user/").unwrap().get("id") == Some(""));
}

#[test]
fn route_handler_kind() {
    let route = Route::<Handler>::new_sync("/", thunk).unwrap();
    assert!(route.handler().is_sync());
    let route = Route::<Handler>::new_async2("/", thunk_async).unwrap();
    assert!(!route.handler().is_sync());
}
