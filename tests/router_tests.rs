use xpress::request::Request;
use xpress::response::Response;
use xpress::router::Router;
use xpress::XpressError;

type Handler = Box<dyn Fn(&Request, &mut Response) -> Result<(), XpressError> + Send + Sync>;

fn dummy_handler() -> Handler {
    Box::new(|_req: &Request, _res: &mut Response| Ok(()))
}

fn handler_with_id(id: &'static str) -> Handler {
    Box::new(move |_req: &Request, res: &mut Response| {
        let current = std::mem::replace(res, Response::new());
        *res = current.body(id);
        Ok(())
    })
}

fn body_of(handler: &Handler) -> Vec<u8> {
    let mut res = Response::new();
    handler(&Request::default(), &mut res).unwrap();
    res.body
}

#[test]
fn test_register_static_route() {
    let mut router: Router<Handler> = Router::new();
    let result = router.register_route("GET /users".to_string(), dummy_handler());
    assert!(result.is_ok());
}

#[test]
fn test_register_dynamic_route() {
    let mut router: Router<Handler> = Router::new();
    let result = router.register_route("GET /users/:id".to_string(), dummy_handler());
    assert!(result.is_ok());
}

#[test]
fn test_register_nested_route() {
    let mut router: Router<Handler> = Router::new();
    let result = router.register_route(
        "GET /api/users/:id/posts/:post_id".to_string(),
        dummy_handler(),
    );
    assert!(result.is_ok());
}

#[test]
fn test_register_multiple_methods() {
    let mut router: Router<Handler> = Router::new();
    router
        .register_route("GET /users".to_string(), dummy_handler())
        .unwrap();
    router
        .register_route("POST /users".to_string(), dummy_handler())
        .unwrap();
    router
        .register_route("DELETE /users".to_string(), dummy_handler())
        .unwrap();

    assert_eq!(router.method_count(), 3);
}

#[test]
fn test_resolve_static_route() {
    let mut router: Router<Handler> = Router::new();
    router
        .register_route("GET /users".to_string(), dummy_handler())
        .unwrap();

    let result = router.resolve("GET".to_string(), "/users".to_string());
    assert!(result.is_some());

    let (_, params) = result.unwrap();
    assert!(params.is_empty());
}

#[test]
fn test_resolve_dynamic_route() {
    let mut router: Router<Handler> = Router::new();
    router
        .register_route("GET /users/:id".to_string(), dummy_handler())
        .unwrap();

    let result = router.resolve("GET".to_string(), "/users/123".to_string());
    assert!(result.is_some());

    let (_, params) = result.unwrap();
    assert_eq!(params.get("id"), Some(&"123".to_string()));
}

#[test]
fn test_resolve_multiple_dynamic_params() {
    let mut router: Router<Handler> = Router::new();
    router
        .register_route(
            "GET /users/:user_id/posts/:post_id".to_string(),
            dummy_handler(),
        )
        .unwrap();

    let result = router.resolve("GET".to_string(), "/users/42/posts/99".to_string());
    assert!(result.is_some());

    let (_, params) = result.unwrap();
    assert_eq!(params.get("user_id"), Some(&"42".to_string()));
    assert_eq!(params.get("post_id"), Some(&"99".to_string()));
}

#[test]
fn test_static_route_priority_over_dynamic() {
    let mut router: Router<Handler> = Router::new();
    router
        .register_route("GET /users/:id".to_string(), handler_with_id("dynamic"))
        .unwrap();
    router
        .register_route("GET /users/new".to_string(), handler_with_id("static"))
        .unwrap();

    // Static route should match first
    let result = router.resolve("GET".to_string(), "/users/new".to_string());
    assert!(result.is_some());

    let (handler, params) = result.unwrap();
    assert!(params.is_empty()); // No dynamic params captured
    assert_eq!(body_of(handler), b"static".to_vec());

    // Dynamic route should still work for other values
    let result = router.resolve("GET".to_string(), "/users/123".to_string());
    assert!(result.is_some());

    let (handler, params) = result.unwrap();
    assert_eq!(params.get("id"), Some(&"123".to_string()));
    assert_eq!(body_of(handler), b"dynamic".to_vec());
}

#[test]
fn test_resolve_nonexistent_route() {
    let mut router: Router<Handler> = Router::new();
    router
        .register_route("GET /users".to_string(), dummy_handler())
        .unwrap();

    let result = router.resolve("GET".to_string(), "/posts".to_string());
    assert!(result.is_none());
}

#[test]
fn test_resolve_wrong_method() {
    let mut router: Router<Handler> = Router::new();
    router
        .register_route("GET /users".to_string(), dummy_handler())
        .unwrap();

    let result = router.resolve("POST".to_string(), "/users".to_string());
    assert!(result.is_none());
}

#[test]
fn test_resolve_incomplete_path() {
    let mut router: Router<Handler> = Router::new();
    router
        .register_route("GET /users/:id/posts".to_string(), dummy_handler())
        .unwrap();

    // Path is incomplete - stops at /users/123 instead of going to /posts
    let result = router.resolve("GET".to_string(), "/users/123".to_string());
    assert!(result.is_none()); // Should be None because it's not a leaf
}

#[test]
fn test_resolve_extra_path_segments() {
    let mut router: Router<Handler> = Router::new();
    router
        .register_route("GET /users".to_string(), dummy_handler())
        .unwrap();

    // Extra segments that don't exist in route
    let result = router.resolve("GET".to_string(), "/users/extra".to_string());
    assert!(result.is_none());
}

#[test]
fn test_multiple_routes_same_prefix() {
    let mut router: Router<Handler> = Router::new();
    router
        .register_route("GET /api/users".to_string(), dummy_handler())
        .unwrap();
    router
        .register_route("GET /api/posts".to_string(), dummy_handler())
        .unwrap();
    router
        .register_route("GET /api/comments".to_string(), dummy_handler())
        .unwrap();

    assert!(router
        .resolve("GET".to_string(), "/api/users".to_string())
        .is_some());
    assert!(router
        .resolve("GET".to_string(), "/api/posts".to_string())
        .is_some());
    assert!(router
        .resolve("GET".to_string(), "/api/comments".to_string())
        .is_some());
}

#[test]
fn test_root_route() {
    let mut router: Router<Handler> = Router::new();
    router
        .register_route("GET /".to_string(), dummy_handler())
        .unwrap();

    let result = router.resolve("GET".to_string(), "/".to_string());
    assert!(result.is_some());
}

#[test]
fn test_empty_path_segments() {
    let mut router: Router<Handler> = Router::new();
    router
        .register_route("GET /users".to_string(), dummy_handler())
        .unwrap();

    // Path with trailing slash creates empty segment
    let segments: Vec<&str> = "/users/"[1..].split('/').collect();
    assert_eq!(segments, vec!["users", ""]);
    // The router drops that empty segment
    assert!(router
        .resolve("GET".to_string(), "/users/".to_string())
        .is_some());
}

#[test]
fn test_complex_routing_tree() {
    let mut router: Router<Handler> = Router::new();

    // Register multiple routes forming a complex tree
    router
        .register_route("GET /".to_string(), dummy_handler())
        .unwrap();
    router
        .register_route("GET /users".to_string(), dummy_handler())
        .unwrap();
    router
        .register_route("GET /users/:id".to_string(), dummy_handler())
        .unwrap();
    router
        .register_route("GET /users/:id/profile".to_string(), dummy_handler())
        .unwrap();
    router
        .register_route("POST /users".to_string(), dummy_handler())
        .unwrap();
    router
        .register_route("DELETE /users/:id".to_string(), dummy_handler())
        .unwrap();

    // Test all routes resolve correctly
    assert!(router.resolve("GET".to_string(), "/".to_string()).is_some());
    assert!(router
        .resolve("GET".to_string(), "/users".to_string())
        .is_some());
    assert!(router
        .resolve("GET".to_string(), "/users/123".to_string())
        .is_some());
    assert!(router
        .resolve("GET".to_string(), "/users/123/profile".to_string())
        .is_some());
    assert!(router
        .resolve("POST".to_string(), "/users".to_string())
        .is_some());
    assert!(router
        .resolve("DELETE".to_string(), "/users/456".to_string())
        .is_some());
}

#[test]
fn test_dynamic_param_names_preserved() {
    let mut router: Router<Handler> = Router::new();
    router
        .register_route(
            "GET /articles/:article_id/comments/:comment_id".to_string(),
            dummy_handler(),
        )
        .unwrap();

    let result = router.resolve(
        "GET".to_string(),
        "/articles/my-article/comments/my-comment".to_string(),
    );
    assert!(result.is_some());

    let (_, params) = result.unwrap();
    assert_eq!(params.get("article_id"), Some(&"my-article".to_string()));
    assert_eq!(params.get("comment_id"), Some(&"my-comment".to_string()));
}
