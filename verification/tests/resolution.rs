use blueprint_di::registry::{BlueprintError, Callable, Registry, Scope, TypeInfo};
use blueprint_di::resolve::{resolve_graph, ResolutionError};
use blueprint_di::scope::{check_scopes, ScopeError};

fn ti(name: &str) -> TypeInfo {
    TypeInfo { origin: 0, name: name.to_string(), generics: vec![] }
}

fn ctor(name: &str, inputs: Vec<usize>, output: usize) -> Callable {
    Callable { path: name.to_string(), origin: 0, inputs, output }
}

fn no_pre(n: usize) -> Vec<bool> {
    vec![false; n]
}

/// B requires A, C requires B: resolving C yields exactly one invocation per
/// type, linearized A before B before C.
#[test]
fn chain_resolves_in_order() {
    let mut reg = Registry::new(vec![ti("A"), ti("B"), ti("C")]);
    reg.register(0, ctor("new_a", vec![], 0), Scope::Transient).unwrap();
    reg.register(1, ctor("new_b", vec![0], 1), Scope::Transient).unwrap();
    reg.register(2, ctor("new_c", vec![1], 2), Scope::Transient).unwrap();
    let g = resolve_graph(&reg, &no_pre(3), &vec![2]).unwrap();
    assert_eq!(g.order, vec![0, 1, 2]);
    assert_eq!(g.ext_inputs, Vec::<usize>::new());
    assert_eq!(g.targets, vec![2]);
}

/// A type demanded twice is resolved once: the diamond D -> {B, C} -> A has
/// one node for A.
#[test]
fn shared_dependency_resolved_once() {
    let mut reg = Registry::new(vec![ti("A"), ti("B"), ti("C"), ti("D")]);
    reg.register(0, ctor("new_a", vec![], 0), Scope::Transient).unwrap();
    reg.register(1, ctor("new_b", vec![0], 1), Scope::Transient).unwrap();
    reg.register(2, ctor("new_c", vec![0], 2), Scope::Transient).unwrap();
    reg.register(3, ctor("new_d", vec![1, 2], 3), Scope::Transient).unwrap();
    let g = resolve_graph(&reg, &no_pre(4), &vec![3]).unwrap();
    assert_eq!(g.order, vec![0, 1, 2, 3]);
}

/// A cycle A -> B -> A fails any target demanding A or B, and the reported
/// path holds both types.
#[test]
fn cycle_detected_with_path() {
    let mut reg = Registry::new(vec![ti("A"), ti("B")]);
    reg.register(0, ctor("new_a", vec![1], 0), Scope::Transient).unwrap();
    reg.register(1, ctor("new_b", vec![0], 1), Scope::Transient).unwrap();
    match resolve_graph(&reg, &no_pre(2), &vec![0]) {
        Err(ResolutionError::DependencyCycle { path }) => {
            assert_eq!(path, vec![0, 1, 0]);
            assert!(path.contains(&0) && path.contains(&1));
        },
        _ => panic!("expected a dependency cycle"),
    }
    match resolve_graph(&reg, &no_pre(2), &vec![1]) {
        Err(ResolutionError::DependencyCycle { path }) => {
            assert_eq!(path, vec![1, 0, 1]);
        },
        _ => panic!("expected a dependency cycle"),
    }
}

/// A missing constructor names the exact type and its requester; an
/// independent target of the same registry still resolves.
#[test]
fn unresolved_type_named() {
    let mut reg = Registry::new(vec![ti("Missing"), ti("Needs"), ti("Fine")]);
    reg.register(1, ctor("new_needs", vec![0], 1), Scope::Transient).unwrap();
    reg.register(2, ctor("new_fine", vec![], 2), Scope::Transient).unwrap();
    match resolve_graph(&reg, &no_pre(3), &vec![1]) {
        Err(ResolutionError::UnresolvedType { ty, requested_by }) => {
            assert_eq!(ty, 0);
            assert_eq!(requested_by, Some(1));
        },
        _ => panic!("expected an unresolved type"),
    }
    match resolve_graph(&reg, &no_pre(3), &vec![0]) {
        Err(ResolutionError::UnresolvedType { ty, requested_by }) => {
            assert_eq!(ty, 0);
            assert_eq!(requested_by, None);
        },
        _ => panic!("expected an unresolved type"),
    }
    let g = resolve_graph(&reg, &no_pre(3), &vec![2]).unwrap();
    assert_eq!(g.order, vec![2]);
}

/// A second constructor for the same type is a duplicate-constructor error.
#[test]
fn duplicate_constructor_rejected() {
    let mut reg = Registry::new(vec![ti("A")]);
    reg.register(0, ctor("new_a", vec![], 0), Scope::Singleton).unwrap();
    match reg.register(0, ctor("other_a", vec![], 0), Scope::Transient) {
        Err(BlueprintError::DuplicateConstructor { ty }) => assert_eq!(ty, 0),
        _ => panic!("expected a duplicate constructor error"),
    }
}

/// A pre-supplied type is borrowed as an external input, not reconstructed.
#[test]
fn presupplied_type_becomes_external_input() {
    let mut reg = Registry::new(vec![ti("Db"), ti("Handler")]);
    reg.register(0, ctor("new_db", vec![], 0), Scope::Singleton).unwrap();
    reg.register(1, ctor("handler", vec![0], 1), Scope::RequestScoped).unwrap();
    let mut pre = no_pre(2);
    pre[0] = true;
    let g = resolve_graph(&reg, &pre, &vec![1]).unwrap();
    assert_eq!(g.order, vec![1]);
    assert_eq!(g.ext_inputs, vec![0]);
}

/// A singleton depending on a request-scoped value is a scope violation; the
/// swapped direction is fine.
#[test]
fn scope_violation_direction() {
    let mut up = Registry::new(vec![ti("S"), ti("R")]);
    up.register(0, ctor("new_s", vec![1], 0), Scope::Singleton).unwrap();
    up.register(1, ctor("new_r", vec![], 1), Scope::RequestScoped).unwrap();
    let g = resolve_graph(&up, &no_pre(2), &vec![0]).unwrap();
    match check_scopes(&up, &g) {
        Err(ScopeError::ScopeViolation { ty, dependency }) => {
            assert_eq!(ty, 0);
            assert_eq!(dependency, 1);
        },
        _ => panic!("expected a scope violation"),
    }

    let mut down = Registry::new(vec![ti("R"), ti("S")]);
    down.register(0, ctor("new_r", vec![1], 0), Scope::RequestScoped).unwrap();
    down.register(1, ctor("new_s", vec![], 1), Scope::Singleton).unwrap();
    let g2 = resolve_graph(&down, &no_pre(2), &vec![0]).unwrap();
    assert!(check_scopes(&down, &g2).is_ok());
}

/// A singleton reaching request-scoped state through another singleton is
/// still a violation: the rule is transitive over the graph's edges.
#[test]
fn scope_violation_transitive() {
    let mut reg = Registry::new(vec![ti("S"), ti("Mid"), ti("R")]);
    reg.register(0, ctor("new_s", vec![1], 0), Scope::Singleton).unwrap();
    reg.register(1, ctor("new_mid", vec![2], 1), Scope::Singleton).unwrap();
    reg.register(2, ctor("new_r", vec![], 2), Scope::RequestScoped).unwrap();
    let g = resolve_graph(&reg, &no_pre(3), &vec![0]).unwrap();
    match check_scopes(&reg, &g) {
        Err(ScopeError::ScopeViolation { ty, dependency }) => {
            assert_eq!(ty, 1);
            assert_eq!(dependency, 2);
        },
        _ => panic!("expected a scope violation"),
    }
}
