use broker::{Guard, Param, Route, WebSocketRoute};

fn guard(name: &str) -> Guard {
    Guard::new(name.to_string())
}

fn names(guards: Vec<Guard>) -> Vec<String> {
    guards.into_iter().map(|g| g.name).collect()
}

#[test]
fn param_guards_keep_only_dynamic_parameters() {
    let route = Route {
        path_params: vec![
            Param::Static("users".to_string()),
            Param::Guarded(guard("id")),
            Param::Static("posts".to_string()),
            Param::Guarded(guard("post")),
        ],
        query_params: vec![],
        request_guards: vec![],
    };
    assert_eq!(names(route.param_guards()), vec!["id", "post"]);
    assert_eq!(names(route.query_guards()), Vec::<String>::new());
}

#[test]
fn guards_chain_path_query_then_request() {
    let route = Route {
        path_params: vec![Param::Guarded(guard("p"))],
        query_params: vec![Param::Static("v=1".to_string()), Param::Guarded(guard("q"))],
        request_guards: vec![guard("auth"), guard("db")],
    };
    assert_eq!(names(route.guards()), vec!["p", "q", "auth", "db"]);
}

#[test]
fn guards_of_a_fully_static_route_are_empty() {
    let route = Route {
        path_params: vec![Param::Static("health".to_string())],
        query_params: vec![Param::Static("v=1".to_string())],
        request_guards: vec![],
    };
    assert_eq!(names(route.guards()), Vec::<String>::new());
}

#[test]
fn websocket_guards_chain_the_same_way() {
    let route = WebSocketRoute {
        path_params: vec![Param::Guarded(guard("room"))],
        query_params: vec![Param::Guarded(guard("token"))],
        request_guards: vec![guard("user")],
    };
    assert_eq!(names(route.param_guards()), vec!["room"]);
    assert_eq!(names(route.query_guards()), vec!["token"]);
    assert_eq!(names(route.guards()), vec!["room", "token", "user"]);
}

#[test]
fn a_parameter_exposes_its_guard() {
    let p = Param::Guarded(guard("id"));
    assert_eq!(p.guard().map(|g| g.name.clone()), Some("id".to_string()));
    let s = Param::Static("users".to_string());
    assert!(s.guard().is_none());
}
