use sherut::routes::{
    normalize_path, parse_route_spec, parse_routes, route_spec_with_method, RouteError,
};

#[test]
fn test_parse_route_spec_with_method() {
    let (method, path) = parse_route_spec("GET /hello");
    assert_eq!(method, "GET");
    assert_eq!(path, "/hello");
}

#[test]
fn test_parse_route_spec_post() {
    let (method, path) = parse_route_spec("POST /users");
    assert_eq!(method, "POST");
    assert_eq!(path, "/users");
}

#[test]
fn test_parse_route_spec_lowercase_method() {
    let (method, path) = parse_route_spec("get /hello");
    assert_eq!(method, "GET");
    assert_eq!(path, "/hello");
}

#[test]
fn test_parse_route_spec_without_method() {
    let (method, path) = parse_route_spec("/hello/:name");
    assert_eq!(method, "ANY");
    assert_eq!(path, "/hello/:name");
}

#[test]
fn test_parse_route_spec_any_method() {
    let (method, path) = parse_route_spec("ANY /api");
    assert_eq!(method, "ANY");
    assert_eq!(path, "/api");
}

#[test]
fn test_parse_route_spec_invalid_method_becomes_any() {
    let (method, path) = parse_route_spec("INVALID /path");
    assert_eq!(method, "ANY");
    assert_eq!(path, "INVALID /path");
}

#[test]
fn test_parse_route_spec_all_methods() {
    for method in ["GET", "POST", "PUT", "DELETE", "PATCH", "HEAD", "OPTIONS"] {
        let spec = format!("{} /test", method);
        let (parsed_method, _) = parse_route_spec(&spec);
        assert_eq!(parsed_method, method);
    }
}

#[test]
fn test_parse_route_spec_trims_whitespace() {
    let (method, path) = parse_route_spec("  GET /hello  ");
    assert_eq!(method, "GET");
    assert_eq!(path, "/hello");
}

#[test]
fn test_parse_routes_normalizes_params() {
    let raw = vec!["GET /user/:id".to_string(), "echo :id".to_string()];
    let routes = parse_routes(&raw).unwrap();

    assert_eq!(routes.len(), 1);
    assert_eq!(routes[0].method, "GET");
    assert_eq!(routes[0].path, "/user/{id}");
    assert_eq!(routes[0].command, "echo :id");
}

#[test]
fn test_parse_routes_multiple() {
    let raw = vec![
        "GET /hello".to_string(),
        "echo hello".to_string(),
        "POST /data".to_string(),
        "cat".to_string(),
    ];
    let routes = parse_routes(&raw).unwrap();

    assert_eq!(routes.len(), 2);
    assert_eq!(routes[0].method, "GET");
    assert_eq!(routes[0].path, "/hello");
    assert_eq!(routes[1].method, "POST");
    assert_eq!(routes[1].path, "/data");
}

#[test]
fn test_parse_routes_multiple_params() {
    let raw = vec![
        "/users/:user_id/posts/:post_id".to_string(),
        "echo :user_id :post_id".to_string(),
    ];
    let routes = parse_routes(&raw).unwrap();

    assert_eq!(routes.len(), 1);
    assert_eq!(routes[0].path, "/users/{user_id}/posts/{post_id}");
}

#[test]
fn test_parse_routes_empty() {
    let raw: Vec<String> = vec![];
    let routes = parse_routes(&raw).unwrap();
    assert!(routes.is_empty());
}

#[test]
fn parse_routes_refuses_blank_command() {
    let raw = vec![
        "GET /ok".to_string(),
        "echo ok".to_string(),
        "GET /bad".to_string(),
        "  \t ".to_string(),
        "GET /worse".to_string(),
        "".to_string(),
    ];
    match parse_routes(&raw) {
        Err(RouteError::EmptyCommand { spec }) => assert_eq!(spec, "GET /bad"),
        Ok(_) => panic!("a blank command must be refused"),
    }
}

#[test]
fn parse_routes_ignores_unpaired_tail() {
    let raw = vec!["GET /a".to_string(), "echo a".to_string(), "GET /b".to_string()];
    let routes = parse_routes(&raw).unwrap();
    assert_eq!(routes.len(), 1);
    assert_eq!(routes[0].path, "/a");
}

#[test]
fn normalize_path_rewrites_every_token() {
    assert_eq!(normalize_path("/user/:id"), "/user/{id}");
    assert_eq!(normalize_path("/a/:x/b/:y_2/c"), "/a/{x}/b/{y_2}/c");
    assert_eq!(normalize_path("/a:b:c"), "/a{b}{c}");
}

#[test]
fn normalize_path_keeps_other_text() {
    assert_eq!(normalize_path("/plain/path"), "/plain/path");
    assert_eq!(normalize_path("/time/:/x"), "/time/:/x");
    assert_eq!(normalize_path("/x/:-y"), "/x/:-y");
    assert_eq!(normalize_path(""), "");
    assert_eq!(normalize_path("/é/:nom"), "/é/{nom}");
}

#[test]
fn route_spec_with_method_uses_given_upper_case() {
    let (m, p) = route_spec_with_method(" get /hello ", "GET");
    assert_eq!(m, "GET");
    assert_eq!(p, "/hello");
    let (m, p) = route_spec_with_method("fetch /x", "FETCH");
    assert_eq!(m, "ANY");
    assert_eq!(p, "fetch /x");
    let (m, p) = route_spec_with_method("/only", "/ONLY");
    assert_eq!(m, "ANY");
    assert_eq!(p, "/only");
}

#[test]
fn parse_route_spec_splits_at_first_space_only() {
    let (m, p) = parse_route_spec("delete /a b");
    assert_eq!(m, "DELETE");
    assert_eq!(p, "/a b");
}
