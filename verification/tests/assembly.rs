use blueprint_di::bindings::assign_bindings;
use blueprint_di::dispatch::ArgWiring;
use blueprint_di::pipeline::{build_application, Blueprint, BuildFailure, Registration};
use blueprint_di::registry::{BlueprintError, Callable, Registry, Scope, TypeInfo};
use blueprint_di::resolve::{resolve_graph, ResolutionError};
use blueprint_di::router::{assign_ids, Route};

fn ti(name: &str) -> TypeInfo {
    TypeInfo { origin: 0, name: name.to_string(), generics: vec![] }
}

fn ctor(name: &str, inputs: Vec<usize>, output: usize) -> Callable {
    Callable { path: name.to_string(), origin: 0, inputs, output }
}

fn route(path: &str, inputs: Vec<usize>, output: usize) -> Route {
    Route { path: path.to_string(), handler: ctor(path, inputs, output) }
}

/// Distinct paths receive dense, stable ids in registration order, and the
/// mapping answers both directions.
#[test]
fn route_ids_dense_and_bidirectional() {
    let routes = vec![route("/users", vec![], 0), route("/posts", vec![], 0)];
    let table = assign_ids(&routes).unwrap();
    assert_eq!(table.len(), 2);
    assert_eq!(table.id_of(&"/users".to_string()), Some(0));
    assert_eq!(table.id_of(&"/posts".to_string()), Some(1));
    assert_eq!(table.path_of(0).unwrap(), "/users");
    assert_eq!(table.path_of(1).unwrap(), "/posts");
    assert_eq!(table.path_of(2), None);
    assert_eq!(table.id_of(&"/missing".to_string()), None);
}

/// Two routes with the identical path string fail assembly naming that path.
#[test]
fn duplicate_route_rejected() {
    let routes = vec![route("/users", vec![], 0), route("/users", vec![], 0)];
    match assign_ids(&routes) {
        Err(BlueprintError::DuplicateRoute { path }) => assert_eq!(path, "/users"),
        _ => panic!("expected a duplicate route error"),
    }
}

/// Binding stems are the type names; a second singleton with the same name
/// gets a disambiguating index.
#[test]
fn binding_names_disambiguated() {
    let mut reg = Registry::new(vec![ti("Db"), ti("Db"), ti("Cache")]);
    reg.register(0, ctor("new_db0", vec![], 0), Scope::Singleton).unwrap();
    reg.register(1, ctor("new_db1", vec![], 1), Scope::Singleton).unwrap();
    reg.register(2, ctor("new_cache", vec![], 2), Scope::Singleton).unwrap();
    let g = resolve_graph(&reg, &vec![false; 3], &vec![0, 1, 2]).unwrap();
    let names = assign_bindings(&reg, &g.order);
    assert_eq!(names.len(), 3);
    assert_eq!(names[0].stem, "Db");
    assert_eq!(names[0].disambiguator, None);
    assert_eq!(names[1].stem, "Db");
    assert_eq!(names[1].disambiguator, Some(1));
    assert_eq!(names[2].stem, "Cache");
    assert_eq!(names[2].disambiguator, None);
}

fn demo_blueprint() -> Blueprint {
    // Types: 0 Request (framework), 1 Db (singleton), 2 Session
    // (request-scoped, needs Request and Db), 3/4 handler outputs.
    Blueprint {
        types: vec![ti("Request"), ti("Db"), ti("Session"), ti("UsersOut"), ti("HealthOut")],
        constructors: vec![
            Registration { ty: 1, callable: ctor("new_db", vec![], 1), scope: Scope::Singleton },
            Registration {
                ty: 2,
                callable: ctor("new_session", vec![0, 1], 2),
                scope: Scope::RequestScoped,
            },
        ],
        routes: vec![route("/users", vec![2, 1], 3), route("/health", vec![0], 4)],
        framework_inputs: vec![0],
    }
}

/// The whole pass: singletons collected from the handlers, the state graph
/// built once, handlers borrowing it, route ids and dispatch wiring pinned.
#[test]
fn whole_blueprint_resolves() {
    let app = build_application(demo_blueprint()).unwrap();
    assert_eq!(app.state_graph.targets, vec![1]);
    assert_eq!(app.state_graph.order, vec![1]);
    assert_eq!(app.state_bindings.len(), 1);
    assert_eq!(app.state_bindings[0].ty, 1);
    assert_eq!(app.state_bindings[0].stem, "Db");
    assert_eq!(app.state_bindings[0].disambiguator, None);
    assert_eq!(app.handler_graphs.len(), 2);
    // /users builds its session fresh, borrowing Db and the request.
    assert_eq!(app.handler_graphs[0].order, vec![2]);
    assert_eq!(app.handler_graphs[0].ext_inputs, vec![0, 1]);
    // /health needs only the request.
    assert_eq!(app.handler_graphs[1].order, Vec::<usize>::new());
    assert_eq!(app.handler_graphs[1].ext_inputs, vec![0]);
    // Route ids are dense and bidirectional with the dispatch entries.
    assert_eq!(app.route_table.len(), 2);
    assert_eq!(app.route_table.id_of(&"/users".to_string()), Some(0));
    assert_eq!(app.route_table.id_of(&"/health".to_string()), Some(1));
    assert_eq!(app.dispatch_table.entries.len(), 2);
    assert_eq!(app.dispatch_table.entries[0].route_id, 0);
    assert_eq!(app.dispatch_table.entries[1].route_id, 1);
    // /users: session threaded from the request graph, Db from the binding.
    match app.dispatch_table.entries[0].args[0] {
        ArgWiring::RequestScoped { ty } => assert_eq!(ty, 2),
        _ => panic!("session is built per request"),
    }
    match app.dispatch_table.entries[0].args[1] {
        ArgWiring::SingletonBinding { binding } => assert_eq!(binding, 0),
        _ => panic!("the database is a singleton binding"),
    }
}

/// Resolving the same blueprint twice gives identical structure and names.
#[test]
fn resolution_is_idempotent() {
    let a = build_application(demo_blueprint()).unwrap();
    let b = build_application(demo_blueprint()).unwrap();
    assert_eq!(a.state_graph.order, b.state_graph.order);
    assert_eq!(a.state_graph.ext_inputs, b.state_graph.ext_inputs);
    assert_eq!(a.handler_graphs.len(), b.handler_graphs.len());
    for h in 0..a.handler_graphs.len() {
        assert_eq!(a.handler_graphs[h].order, b.handler_graphs[h].order);
        assert_eq!(a.handler_graphs[h].ext_inputs, b.handler_graphs[h].ext_inputs);
    }
    assert_eq!(a.state_bindings.len(), b.state_bindings.len());
    for i in 0..a.state_bindings.len() {
        assert_eq!(a.state_bindings[i].ty, b.state_bindings[i].ty);
        assert_eq!(a.state_bindings[i].stem, b.state_bindings[i].stem);
        assert_eq!(a.state_bindings[i].disambiguator, b.state_bindings[i].disambiguator);
    }
    for i in 0..2u32 {
        assert_eq!(a.route_table.path_of(i), b.route_table.path_of(i));
        assert_eq!(a.dispatch_table.entries[i as usize].route_id,
            b.dispatch_table.entries[i as usize].route_id);
    }
}

/// A broken handler is reported with its route and exact error; the healthy
/// handler of the same blueprint does not fail the others.
#[test]
fn failures_collected_per_target() {
    let bp = Blueprint {
        types: vec![ti("Request"), ti("Missing"), ti("Out")],
        constructors: vec![],
        routes: vec![route("/broken", vec![1], 2), route("/fine", vec![0], 2)],
        framework_inputs: vec![0],
    };
    match build_application(bp) {
        Err(errs) => {
            assert_eq!(errs.len(), 1);
            match &errs[0] {
                BuildFailure::Handler { route, error } => {
                    assert_eq!(*route, 0);
                    match error {
                        ResolutionError::UnresolvedType { ty, requested_by } => {
                            assert_eq!(*ty, 1);
                            assert_eq!(*requested_by, None);
                        },
                        _ => panic!("expected an unresolved type"),
                    }
                },
                _ => panic!("expected a handler failure"),
            }
        },
        Ok(_) => panic!("the blueprint has a broken handler"),
    }
}

/// A singleton leaning on request-scoped state fails the whole pass with a
/// scope violation naming the offending edge.
#[test]
fn scope_violation_fails_assembly() {
    let bp = Blueprint {
        types: vec![ti("Request"), ti("Evil"), ti("PerRequest"), ti("Out")],
        constructors: vec![
            Registration {
                ty: 1,
                callable: ctor("new_evil", vec![2], 1),
                scope: Scope::Singleton,
            },
            Registration {
                ty: 2,
                callable: ctor("new_per_request", vec![], 2),
                scope: Scope::RequestScoped,
            },
        ],
        routes: vec![route("/r", vec![1], 3)],
        framework_inputs: vec![0],
    };
    match build_application(bp) {
        Err(errs) => {
            assert_eq!(errs.len(), 1);
            match &errs[0] {
                BuildFailure::Scope { error } => {
                    let blueprint_di::scope::ScopeError::ScopeViolation { ty, dependency } =
                        error;
                    assert_eq!(*ty, 1);
                    assert_eq!(*dependency, 2);
                },
                _ => panic!("expected a scope failure"),
            }
        },
        Ok(_) => panic!("the blueprint violates the scope rule"),
    }
}

/// Two routes with one path fail the whole pass as a blueprint error.
#[test]
fn duplicate_route_fails_assembly() {
    let bp = Blueprint {
        types: vec![ti("Request"), ti("Out")],
        constructors: vec![],
        routes: vec![route("/same", vec![0], 1), route("/same", vec![0], 1)],
        framework_inputs: vec![0],
    };
    match build_application(bp) {
        Err(errs) => {
            assert_eq!(errs.len(), 1);
            match &errs[0] {
                BuildFailure::Blueprint { error: BlueprintError::DuplicateRoute { path } } => {
                    assert_eq!(path, "/same");
                }
                _ => panic!("expected a duplicate route error"),
            }
        }
        Ok(_) => panic!("the blueprint has a duplicate route"),
    }
}

/// Every broken handler is reported in one run, not only the first.
#[test]
fn all_broken_handlers_reported() {
    let bp = Blueprint {
        types: vec![ti("Request"), ti("MissingA"), ti("MissingB"), ti("Out")],
        constructors: vec![],
        routes: vec![
            route("/a", vec![1], 3),
            route("/b", vec![2], 3),
            route("/fine", vec![0], 3),
        ],
        framework_inputs: vec![0],
    };
    match build_application(bp) {
        Err(errs) => {
            assert_eq!(errs.len(), 2);
            let mut reported = Vec::new();
            for f in &errs {
                match f {
                    BuildFailure::Handler { route, .. } => reported.push(*route),
                    _ => panic!("expected handler failures"),
                }
            }
            assert_eq!(reported, vec![0, 1]);
        }
        Ok(_) => panic!("the blueprint has two broken handlers"),
    }
}
