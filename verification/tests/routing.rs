use minnow::method::Method;
use minnow::router::{RouteError, Router};

#[test]
fn it_works() {
    let result = 2 + 2;
    assert_eq!(result, 4);
}

#[test]
fn literal_route_is_found_with_empty_params() {
    let mut router: Router<u32> = Router::new();
    router.get("/health", 1).unwrap();
    router.get("/users/all", 2).unwrap();
    let m = router.find("/health", &Method::Get).expect("registered literal path must match");
    assert_eq!(*m.handler, 1);
    assert!(m.params.is_empty());
    let m2 = router.find("/users/all", &Method::Get).expect("registered literal path must match");
    assert_eq!(*m2.handler, 2);
    assert_eq!(m2.params.len(), 0);
}

#[test]
fn param_route_binds_segment() {
    let mut router: Router<u32> = Router::new();
    router.get("/users/:id", 7).unwrap();
    let m = router.find("/users/42", &Method::Get).expect("pattern must match");
    assert_eq!(*m.handler, 7);
    assert_eq!(m.params.len(), 1);
    assert_eq!(m.params.find("id"), Some(&"42".to_string()));
}

#[test]
fn unregistered_path_is_no_match() {
    let mut router: Router<u32> = Router::new();
    router.get("/users/:id", 7).unwrap();
    assert!(router.find("/orders/42", &Method::Get).is_none());
    assert!(router.find("/users", &Method::Get).is_none());
    assert!(router.find("/users/42/posts", &Method::Get).is_none());
}

#[test]
fn unregistered_method_is_no_match() {
    let mut router: Router<u32> = Router::new();
    router.get("/users/:id", 7).unwrap();
    assert!(router.find("/users/42", &Method::Post).is_none());
    assert!(router.find("/users/42", &Method::Delete).is_none());
}

#[test]
fn empty_router_matches_nothing() {
    let router: Router<u32> = Router::new();
    assert!(router.find("/", &Method::Get).is_none());
    assert!(router.find("", &Method::Get).is_none());
}

#[test]
fn more_literal_pattern_wins() {
    let mut router: Router<u32> = Router::new();
    router.get("/users/:id", 1).unwrap();
    router.get("/users/me", 2).unwrap();
    let m = router.find("/users/me", &Method::Get).unwrap();
    assert_eq!(*m.handler, 2);
    assert!(m.params.is_empty());
    let m2 = router.find("/users/77", &Method::Get).unwrap();
    assert_eq!(*m2.handler, 1);
    assert_eq!(m2.params.find("id"), Some(&"77".to_string()));
}

#[test]
fn duplicate_pattern_is_a_conflict() {
    let mut router: Router<u32> = Router::new();
    router.get("/users/:id", 1).unwrap();
    assert_eq!(router.get("/users/:id", 2), Err(RouteError::Conflict));
    assert_eq!(router.get("/users/:name", 3), Err(RouteError::Conflict));
}

#[test]
fn ambiguous_patterns_are_a_conflict() {
    let mut router: Router<u32> = Router::new();
    router.get("/a/:x", 1).unwrap();
    // "/a/b" would match both with one literal each: no winner could exist.
    assert_eq!(router.get("/:y/b", 2), Err(RouteError::Conflict));
    // A different method is a separate table, so the same pattern is fine.
    router.post("/:y/b", 3).unwrap();
    let m = router.find("/a/b", &Method::Get).unwrap();
    assert_eq!(*m.handler, 1);
}

#[test]
fn methods_partition_routes() {
    let mut router: Router<u32> = Router::new();
    router.get("/thing", 1).unwrap();
    router.post("/thing", 2).unwrap();
    router.route(Method::Delete, "/thing", 3).unwrap();
    assert_eq!(*router.find("/thing", &Method::Get).unwrap().handler, 1);
    assert_eq!(*router.find("/thing", &Method::Post).unwrap().handler, 2);
    assert_eq!(*router.find("/thing", &Method::Delete).unwrap().handler, 3);
    assert!(router.find("/thing", &Method::Put).is_none());
}

#[test]
fn slashes_normalize_segmentation() {
    let mut router: Router<u32> = Router::new();
    router.get("/a/b", 1).unwrap();
    assert_eq!(*router.find("/a/b/", &Method::Get).unwrap().handler, 1);
    assert_eq!(*router.find("//a///b", &Method::Get).unwrap().handler, 1);
    assert_eq!(*router.find("a/b", &Method::Get).unwrap().handler, 1);
}

#[test]
fn root_pattern_matches_root_path() {
    let mut router: Router<u32> = Router::new();
    router.get("/", 9).unwrap();
    let m = router.find("/", &Method::Get).unwrap();
    assert_eq!(*m.handler, 9);
    assert!(m.params.is_empty());
    assert!(router.find("/anything", &Method::Get).is_none());
}

#[test]
fn param_requires_nonempty_segment() {
    let mut router: Router<u32> = Router::new();
    router.get("/users/:id", 1).unwrap();
    // "/users/" has a single segment: the parameter has nothing to bind.
    assert!(router.find("/users/", &Method::Get).is_none());
}

#[test]
fn duplicate_param_names_bind_leftmost_first() {
    let mut router: Router<u32> = Router::new();
    router.get("/pair/:v/:v", 6).unwrap();
    let m = router.find("/pair/a/b", &Method::Get).unwrap();
    assert_eq!(m.params.len(), 2);
    assert_eq!(m.params.find("v"), Some(&"a".to_string()));
}

#[test]
fn several_params_bind_in_declaration_order() {
    let mut router: Router<u32> = Router::new();
    router.get("/repos/:owner/:name", 4).unwrap();
    let m = router.find("/repos/alice/widget", &Method::Get).unwrap();
    assert_eq!(m.params.len(), 2);
    assert_eq!(m.params.find("owner"), Some(&"alice".to_string()));
    assert_eq!(m.params.find("name"), Some(&"widget".to_string()));
    assert_eq!(m.params.find("missing"), None);
}
