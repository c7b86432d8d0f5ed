use axum_demo::path::{bytes_eq, copy_bytes, render_segments, split_segments};
use axum_demo::routing::{
    capture_params, concat_patterns, parse_pattern, pattern_matches, pattern_more_specific,
    patterns_same_shape, segment_is_param, DispatchError, Method, RouteError, Router,
};
use axum_demo::schema::{Schema, Shape};

fn schema(operation: &str) -> Schema {
    Schema::new(operation, Shape::Nothing).reply(200, Shape::Text)
}

fn segs(parts: &[&str]) -> Vec<Vec<u8>> {
    parts.iter().map(|p| p.as_bytes().to_vec()).collect()
}

#[test]
fn paths_split_into_their_segments() {
    assert_eq!(split_segments(b"/"), segs(&[]));
    assert_eq!(split_segments(b""), segs(&[]));
    assert_eq!(split_segments(b"/note"), segs(&["note"]));
    assert_eq!(split_segments(b"/note/"), segs(&["note"]));
    assert_eq!(split_segments(b"//note"), segs(&["note"]));
    assert_eq!(split_segments(b"note"), segs(&["note"]));
    assert_eq!(split_segments(b"/a/:id/b"), segs(&["a", ":id", "b"]));
    assert_eq!(split_segments(b"/a//b///c"), segs(&["a", "b", "c"]));
}

#[test]
fn segments_are_rendered_in_the_shortest_spelling() {
    assert_eq!(render_segments(&segs(&[])), b"/".to_vec());
    assert_eq!(render_segments(&segs(&["note"])), b"/note".to_vec());
    assert_eq!(render_segments(&segs(&["a", ":id", "b"])), b"/a/:id/b".to_vec());
}

#[test]
fn rendering_then_splitting_gives_the_segments_back() {
    for parts in [segs(&[]), segs(&["a"]), segs(&["a", ":id"]), segs(&["x", "y", "z"])] {
        assert_eq!(split_segments(&render_segments(&parts)), parts);
    }
}

#[test]
fn joined_paths_have_the_segments_of_both() {
    let prefix = "/api/v1";
    let sub = "/note/:id";
    let joined = format!("{}{}", prefix, sub);
    let mut expected = split_segments(prefix.as_bytes());
    expected.extend(split_segments(sub.as_bytes()));
    assert_eq!(split_segments(joined.as_bytes()), expected);
    assert_eq!(concat_patterns(&segs(&["api", "v1"]), &segs(&["note", ":id"])), expected);
}

#[test]
fn bytes_are_compared_and_copied() {
    assert!(bytes_eq(b"abc", b"abc"));
    assert!(!bytes_eq(b"abc", b"abd"));
    assert!(!bytes_eq(b"abc", b"ab"));
    assert!(bytes_eq(b"", b""));
    assert_eq!(copy_bytes(b"note"), b"note".to_vec());
}

#[test]
fn patterns_are_checked_when_they_are_parsed() {
    assert_eq!(parse_pattern(b"/a/:id"), Some(segs(&["a", ":id"])));
    assert_eq!(parse_pattern(b"/"), Some(segs(&[])));
    assert_eq!(parse_pattern(b""), None);
    assert_eq!(parse_pattern(b"a"), None);
    assert_eq!(parse_pattern(b"/a/:"), None);
    assert_eq!(parse_pattern(b"/:/a"), None);
}

#[test]
fn parameters_match_any_one_segment() {
    assert!(segment_is_param(&b":id".to_vec()));
    assert!(!segment_is_param(&b"id".to_vec()));
    assert!(!segment_is_param(&b"".to_vec()));
    assert!(pattern_matches(&segs(&["a", ":id"]), &segs(&["a", "7"])));
    assert!(pattern_matches(&segs(&["a", ":id"]), &segs(&["a", "b"])));
    assert!(!pattern_matches(&segs(&["a", ":id"]), &segs(&["a"])));
    assert!(!pattern_matches(&segs(&["a", ":id"]), &segs(&["b", "7"])));
    assert!(!pattern_matches(&segs(&["a"]), &segs(&["a", "b"])));
    assert!(pattern_matches(&segs(&[]), &segs(&[])));
}

#[test]
fn shapes_and_specificity_of_patterns() {
    assert!(patterns_same_shape(&segs(&["a", ":id"]), &segs(&["a", ":name"])));
    assert!(patterns_same_shape(&segs(&["a"]), &segs(&["a"])));
    assert!(!patterns_same_shape(&segs(&["a", ":id"]), &segs(&["a", "b"])));
    assert!(!patterns_same_shape(&segs(&["a"]), &segs(&["a", "b"])));
    assert!(pattern_more_specific(&segs(&["a", "b"]), &segs(&["a", ":id"])));
    assert!(!pattern_more_specific(&segs(&["a", ":id"]), &segs(&["a", "b"])));
    assert!(!pattern_more_specific(&segs(&["a", "b"]), &segs(&["a", "b"])));
    assert!(pattern_more_specific(&segs(&["x", ":c"]), &segs(&[":a", "b"])));
    assert!(!pattern_more_specific(&segs(&[":a", "b"]), &segs(&["x", ":c"])));
}

#[test]
fn captured_parameters_come_in_the_order_of_the_path() {
    assert_eq!(
        capture_params(&segs(&["a", ":x", "b", ":y"]), &segs(&["a", "1", "b", "2"])),
        segs(&["1", "2"])
    );
    assert_eq!(capture_params(&segs(&["a"]), &segs(&["a"])), segs(&[]));
    assert_eq!(capture_params(&segs(&[":x"]), &segs(&["a", "b"])), segs(&[]));
}

#[test]
fn literal_route_wins_over_parameter_route() {
    let mut router: Router<u8> = Router::new();
    assert_eq!(router.register(Method::Get, "/a/:id", 2, schema("one")), Ok(()));
    assert_eq!(router.register(Method::Get, "/a", 1, schema("all")), Ok(()));
    assert_eq!(router.register(Method::Get, "/:x", 3, schema("any")), Ok(()));
    let found = router.dispatch(Method::Get, "/a").unwrap();
    assert_eq!(found.handler, 1);
    assert_eq!(found.index, 1);
    assert_eq!(found.params, segs(&[]));
    let found = router.dispatch(Method::Get, "/a/7").unwrap();
    assert_eq!(found.handler, 2);
    assert_eq!(found.params, segs(&["7"]));
    let found = router.dispatch(Method::Get, "/b").unwrap();
    assert_eq!(found.handler, 3);
    assert_eq!(found.params, segs(&["b"]));
}

#[test]
fn literal_at_the_earlier_place_wins() {
    let mut router: Router<u8> = Router::new();
    assert_eq!(router.register(Method::Get, "/:a/b", 1, schema("first")), Ok(()));
    assert_eq!(router.register(Method::Get, "/x/:c", 2, schema("second")), Ok(()));
    assert_eq!(router.register(Method::Get, "/x/b", 3, schema("third")), Ok(()));
    assert_eq!(router.dispatch(Method::Get, "/x/b").unwrap().handler, 3);
    assert_eq!(router.dispatch(Method::Get, "/x/y").unwrap().handler, 2);
    assert_eq!(router.dispatch(Method::Get, "/y/b").unwrap().handler, 1);
    assert!(matches!(router.dispatch(Method::Get, "/y/y"), Err(DispatchError::PathNotFound)));
}

#[test]
fn other_method_is_not_allowed_rather_than_not_found() {
    let mut router: Router<u8> = Router::new();
    assert_eq!(router.register(Method::Post, "/a", 1, schema("make")), Ok(()));
    assert!(matches!(router.dispatch(Method::Get, "/a"), Err(DispatchError::MethodNotAllowed)));
    assert!(matches!(router.dispatch(Method::Get, "/b"), Err(DispatchError::PathNotFound)));
    assert!(matches!(router.dispatch(Method::Post, "/b"), Err(DispatchError::PathNotFound)));
    assert_eq!(router.dispatch(Method::Post, "/a").unwrap().handler, 1);
}

#[test]
fn same_path_takes_several_methods() {
    let mut router: Router<u8> = Router::new();
    assert_eq!(router.register(Method::Get, "/note", 1, schema("list")), Ok(()));
    assert_eq!(router.register(Method::Post, "/note", 2, schema("make")), Ok(()));
    assert_eq!(router.dispatch(Method::Get, "/note").unwrap().handler, 1);
    assert_eq!(router.dispatch(Method::Post, "/note").unwrap().handler, 2);
    assert_eq!(router.dispatch(Method::Get, "/note/").unwrap().handler, 1);
    assert_eq!(router.len(), 2);
}

#[test]
fn duplicate_registration_fails_and_changes_nothing() {
    let mut router: Router<u8> = Router::new();
    assert_eq!(router.register(Method::Get, "/a/:id", 1, schema("one")), Ok(()));
    assert_eq!(
        router.register(Method::Get, "/a/:id", 2, schema("two")),
        Err(RouteError::Duplicate)
    );
    assert_eq!(
        router.register(Method::Get, "/a/:name", 3, schema("three")),
        Err(RouteError::Duplicate)
    );
    assert_eq!(
        router.register(Method::Get, "/a/:id/", 4, schema("four")),
        Err(RouteError::Duplicate)
    );
    assert_eq!(router.len(), 1);
    assert_eq!(router.dispatch(Method::Get, "/a/5").unwrap().handler, 1);
}

#[test]
fn invalid_patterns_are_refused() {
    let mut router: Router<u8> = Router::new();
    assert_eq!(router.register(Method::Get, "a", 1, schema("x")), Err(RouteError::InvalidPath));
    assert_eq!(router.register(Method::Get, "", 1, schema("x")), Err(RouteError::InvalidPath));
    assert_eq!(router.register(Method::Get, "/a/:", 1, schema("x")), Err(RouteError::InvalidPath));
    assert_eq!(router.len(), 0);
    let sub: Router<u8> = Router::new();
    assert_eq!(router.mount("api", &sub), Err(RouteError::InvalidPath));
}

#[test]
fn mounted_routes_stand_under_the_prefix() {
    let mut notes: Router<u8> = Router::new();
    assert_eq!(notes.register(Method::Get, "/", 1, schema("list")), Ok(()));
    assert_eq!(notes.register(Method::Post, "/", 2, schema("make")), Ok(()));
    assert_eq!(notes.register(Method::Get, "/:id", 3, schema("one")), Ok(()));
    let mut top: Router<u8> = Router::new();
    assert_eq!(top.register(Method::Get, "/", 0, schema("root")), Ok(()));
    assert_eq!(top.mount("/note", &notes), Ok(()));
    assert_eq!(top.mount("/memo", &notes), Ok(()));
    assert_eq!(top.len(), 7);
    assert_eq!(top.dispatch(Method::Get, "/note").unwrap().handler, 1);
    assert_eq!(top.dispatch(Method::Post, "/note").unwrap().handler, 2);
    let one = top.dispatch(Method::Get, "/memo/12").unwrap();
    assert_eq!(one.handler, 3);
    assert_eq!(one.params, segs(&["12"]));
    assert_eq!(top.dispatch(Method::Get, "/").unwrap().handler, 0);
    assert_eq!(top.route(3).segments, segs(&["note", ":id"]));
    assert!(matches!(top.dispatch(Method::Get, "/other"), Err(DispatchError::PathNotFound)));
    assert_eq!(notes.len(), 3);
}

#[test]
fn mounting_is_transitive() {
    let mut inner: Router<u8> = Router::new();
    assert_eq!(inner.register(Method::Get, "/c", 1, schema("c")), Ok(()));
    let mut middle: Router<u8> = Router::new();
    assert_eq!(middle.mount("/b", &inner), Ok(()));
    let mut outer: Router<u8> = Router::new();
    assert_eq!(outer.mount("/a", &middle), Ok(()));
    let mut direct: Router<u8> = Router::new();
    assert_eq!(direct.mount("/a/b", &inner), Ok(()));
    assert_eq!(outer.route(0).segments, segs(&["a", "b", "c"]));
    assert_eq!(outer.route(0).segments, direct.route(0).segments);
    assert_eq!(outer.dispatch(Method::Get, "/a/b/c").unwrap().handler, 1);
    assert!(matches!(outer.dispatch(Method::Get, "/b/c"), Err(DispatchError::PathNotFound)));
}

#[test]
fn mount_that_conflicts_fails_and_changes_nothing() {
    let mut sub: Router<u8> = Router::new();
    assert_eq!(sub.register(Method::Get, "/x", 1, schema("x")), Ok(()));
    assert_eq!(sub.register(Method::Get, "/y", 2, schema("y")), Ok(()));
    let mut top: Router<u8> = Router::new();
    assert_eq!(top.register(Method::Get, "/api/y", 9, schema("taken")), Ok(()));
    assert_eq!(top.mount("/api", &sub), Err(RouteError::Duplicate));
    assert_eq!(top.len(), 1);
    assert!(matches!(top.dispatch(Method::Get, "/api/x"), Err(DispatchError::PathNotFound)));
    assert!(!top.has_conflict(Method::Get, &segs(&["api", "x"])));
    assert!(top.has_conflict(Method::Get, &segs(&["api", "y"])));
    assert!(!top.has_conflict(Method::Post, &segs(&["api", "y"])));
}

#[test]
fn methods_have_names() {
    let methods = [
        (Method::Get, "GET"),
        (Method::Post, "POST"),
        (Method::Put, "PUT"),
        (Method::Patch, "PATCH"),
        (Method::Delete, "DELETE"),
        (Method::Head, "HEAD"),
        (Method::Options, "OPTIONS"),
    ];
    for (method, name) in methods {
        assert_eq!(method.name(), name);
        assert_eq!(Method::parse(name), Some(method));
        assert_eq!(Method::parse(method.name()), Some(method));
    }
    assert_eq!(Method::parse("get"), None);
    assert_eq!(Method::parse("TRACE"), None);
    assert_eq!(Method::parse(""), None);
    assert_eq!(Method::parse("GET "), None);
}
