use tc_ir::{parse_route_path, Dir, ErrorKind, Id, Link, LibraryModule, LibrarySchema, StaticLibrary};

struct HelloHandler;

impl HelloHandler {
    fn get(&self, request: &str) -> String {
        format!("hello {request}")
    }
}

struct Greeter;

impl Greeter {
    fn get(&self, name: &str) -> String {
        format!("Hello, {name}!")
    }
}

fn segment(name: &str) -> Id {
    Id::parse(name).expect("path segment")
}

fn library_routes<H>(routes: Vec<(&str, H)>) -> Result<Dir<H>, tc_ir::Error> {
    let mut parsed = Vec::new();
    for (path, handler) in routes {
        parsed.push((parse_route_path(path)?, handler));
    }
    Dir::from_routes(parsed)
}

#[test]
fn dir_routes_nested_handler() {
    let path = vec![segment("library"), segment("status")];
    let dir = Dir::from_routes(vec![(path.clone(), HelloHandler)]).expect("dir");

    let handler = dir.route(&path).expect("handler resolved");
    assert_eq!(handler.get("tinychain"), "hello tinychain");
}

#[test]
fn dir_detects_conflicts() {
    let path = vec![segment("library"), segment("status")];

    match Dir::from_routes(vec![(path.clone(), HelloHandler), (path.clone(), HelloHandler)]) {
        Ok(_) => panic!("expected conflict inserting duplicate handler"),
        Err(err) => assert!(err.message().contains("already mounted")),
    }
}

#[test]
fn macro_builds_routes() {
    let dir = library_routes(vec![("/lib/status", HelloHandler)]).expect("macro routes");

    let path = [segment("lib"), segment("status")];
    let handler = dir.route(&path).expect("handler");
    assert_eq!(handler.get("macro"), "hello macro");
}

#[test]
fn static_library_wraps_schema_and_routes() {
    let schema = LibrarySchema::new(Link::parse("/lib/service").unwrap(), "1.0.0".to_string(), vec![]);
    let routes = library_routes(vec![("/lib/status", HelloHandler)]).expect("routes");

    let same = LibrarySchema::new(Link::parse("/lib/service").unwrap(), "1.0.0".to_string(), vec![]);
    let lib: StaticLibrary<HelloHandler> = StaticLibrary::new(schema, routes);
    assert_eq!(lib.schema(), &same);
    let path = [segment("lib"), segment("status")];
    assert!(lib.routes().route(&path).is_some());
}

#[test]
fn hello_get_scenario() {
    let routes = library_routes(vec![("/hello", Greeter)]).expect("routes");
    let schema = LibrarySchema::new(Link::parse("/lib/examples/hello").unwrap(), "0.1.0".to_string(), vec![]);
    let library = LibraryModule::new(schema, routes);
    let path = parse_route_path("/hello").expect("path");
    assert_eq!(path.len(), 1);
    let handler = library.routes().route(&path).expect("handler registered at /hello");
    assert_eq!(handler.get("TinyChain"), "Hello, TinyChain!");
}

#[test]
fn duplicate_mount_is_bad_request() {
    let err = library_routes(vec![("/a/b", 1u8), ("/a/b", 2u8)]).err().expect("conflict");
    assert_eq!(err.kind(), ErrorKind::BadRequest);
    assert!(err.message().contains("already mounted"));
}

#[test]
fn no_partial_matches() {
    let dir = library_routes(vec![("/a/b", 7u8)]).expect("routes");
    assert!(dir.route(&[segment("a")]).is_none());
    assert!(dir.route(&[segment("a"), segment("b"), segment("c")]).is_none());
    assert_eq!(dir.route(&[segment("a"), segment("b")]), Some(&7u8));
    assert!(dir.route(&[]).is_none());
    assert!(dir.route(&[segment("b")]).is_none());
}

#[test]
fn mount_below_handler_fails() {
    let err = library_routes(vec![("/a", 1u8), ("/a/b", 2u8)]).err().expect("conflict");
    assert_eq!(err.kind(), ErrorKind::BadRequest);
    assert!(err.message().contains("below a leaf handler"));
    let err = library_routes(vec![("/a/b", 1u8), ("/a", 2u8)]).err().expect("conflict");
    assert!(err.message().contains("already mounted"));
}

#[test]
fn empty_route_path_is_refused() {
    let err = Dir::from_routes(vec![(Vec::<Id>::new(), 1u8)]).err().expect("root mount");
    assert_eq!(err.kind(), ErrorKind::BadRequest);
}

#[test]
fn routing_does_not_depend_on_order() {
    let a = library_routes(vec![("/x/y", 1u8), ("/x/z", 2u8), ("/w", 3u8)]).expect("a");
    let b = library_routes(vec![("/w", 3u8), ("/x/z", 2u8), ("/x/y", 1u8)]).expect("b");
    for p in ["/x/y", "/x/z", "/w", "/x"] {
        let path = parse_route_path(p).expect("path");
        assert_eq!(a.route(&path), b.route(&path));
    }
    let bad1 = library_routes(vec![("/x", 1u8), ("/x/z", 2u8)]).is_err();
    let bad2 = library_routes(vec![("/x/z", 2u8), ("/x", 1u8)]).is_err();
    assert!(bad1 && bad2);
}

#[test]
fn parse_route_path_forms() {
    let p = parse_route_path("/lib/status").expect("path");
    assert_eq!(p.len(), 2);
    assert_eq!(p[0].as_str(), "lib");
    assert_eq!(p[1].as_str(), "status");
    let q = parse_route_path("  lib/status ").expect("trimmed path");
    assert_eq!(q, p);
    assert!(parse_route_path("").is_err());
    assert!(parse_route_path("   ").is_err());
    assert!(parse_route_path("/").is_err());
    assert!(parse_route_path("/a/").is_err());
    assert!(parse_route_path("/a//b").is_err());
    assert_eq!(parse_route_path("/a b").err().map(|e| e.kind()), Some(ErrorKind::BadRequest));
}

#[test]
fn mount_error_messages_name_the_full_path() {
    let err = library_routes(vec![("/a/b", 1u8), ("/a/b", 2u8)]).err().expect("conflict");
    assert_eq!(err.message(), "handler already mounted at path /a/b");
    let err = library_routes(vec![("/a", 1u8), ("/a/b/c", 2u8)]).err().expect("conflict");
    assert_eq!(err.message(), "cannot mount handler below a leaf handler at /a/b/c");
    let err = library_routes(vec![("/a/b/c", 1u8), ("/a", 2u8)]).err().expect("conflict");
    assert_eq!(err.message(), "handler already mounted at path /a");
    let err = Dir::from_routes(vec![(Vec::<Id>::new(), 1u8)]).err().expect("root");
    assert_eq!(err.message(), "cannot mount handler at root");
}

#[test]
fn siblings_are_ordered_by_segment() {
    let dir = library_routes(vec![("/c", 1u8), ("/a", 2u8), ("/b", 3u8)]).expect("routes");
    let text = format!("{dir:?}");
    let a = text.find("\"a\"").or_else(|| text.find("inner: \"a\"")).expect("a");
    let b = text.find("\"b\"").or_else(|| text.find("inner: \"b\"")).expect("b");
    let c = text.find("\"c\"").or_else(|| text.find("inner: \"c\"")).expect("c");
    assert!(a < b && b < c);
}
