use http_routing::error::Error;
use http_routing::route_table::RouteTable;

#[test]
fn table_literal_wins_over_capture() {
    let mut table = RouteTable::new();
    assert!(table.add_route("/user/dashboard", 1u32).is_ok());
    assert!(table.add_route("/user/{id}", 2u32).is_ok());
    let (handler, ids) = table.match_route("/user/dashboard").unwrap();
    assert_eq!(*handler, 1);
    assert!(ids.is_empty());

    let mut table = RouteTable::new();
    assert!(table.add_route("/user/{id}", 2u32).is_ok());
    assert!(table.add_route("/user/dashboard", 1u32).is_ok());
    let (handler, ids) = table.match_route("/user/dashboard").unwrap();
    assert_eq!(*handler, 1);
    assert!(ids.is_empty());

    let (handler, ids) = table.match_route("/user/1234").unwrap();
    assert_eq!(*handler, 2);
    assert_eq!(ids.get("id"), Some("1234"));
}

#[test]
fn table_capture_value_and_arity() {
    let mut table = RouteTable::new();
    assert!(table.add_route("/user/{id}", 7u32).is_ok());
    let (handler, ids) = table.match_route("/user/42").unwrap();
    assert_eq!(*handler, 7);
    assert_eq!(ids.get("id"), Some("42"));
    assert!(!ids.is_empty());
    assert!(table.match_route("/user/42/extra").is_none());
    assert!(table.match_route("/user").is_none());
}

#[test]
fn table_rejects_duplicates() {
    let mut table = RouteTable::new();
    assert_eq!(table.add_route("/some/{id}/potato/{id}", 0u32), Err(Error::DuplicateCaptureKey));
    assert!(table.add_route("/user/dashboard", 0u32).is_ok());
    assert_eq!(table.add_route("/user/dashboard", 1u32), Err(Error::DuplicateRoute));
    assert!(table.add_route("/user/{id}", 0u32).is_ok());
    assert_eq!(table.add_route("/user/{msg}", 1u32), Err(Error::DuplicateRoute));
    assert_eq!(table.add_route("/user/{}", 1u32), Err(Error::CaptureKeyMissing));
    assert_eq!(table.len(), 2);
}

#[test]
fn table_literals_distinguish_trailing_slash() {
    let mut table = RouteTable::new();
    assert!(table.add_route("/", 1u32).is_ok());
    assert!(table.add_route("/user", 2u32).is_ok());
    assert!(table.add_route("/user/", 3u32).is_ok());
    assert_eq!(*table.match_route("/").unwrap().0, 1);
    assert_eq!(*table.match_route("/user").unwrap().0, 2);
    assert_eq!(*table.match_route("/user/").unwrap().0, 3);
    assert!(table.match_route("/users").is_none());
}

#[test]
fn table_earliest_literal_position_wins() {
    let mut table = RouteTable::new();
    assert!(table.add_route("/{a}/x", 1u32).is_ok());
    assert!(table.add_route("/y/{b}", 2u32).is_ok());
    let (handler, ids) = table.match_route("/y/x").unwrap();
    assert_eq!(*handler, 2);
    assert_eq!(ids.get("b"), Some("x"));
    assert_eq!(ids.get("a"), None);
}

#[test]
fn table_empty_matches_nothing() {
    let table: RouteTable<u32> = RouteTable::new();
    assert!(table.match_route("/").is_none());
}
