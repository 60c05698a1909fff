use scg_core::{ServiceGraph, ServiceSpec};

#[test]
fn sorts_services_in_dependency_order() {
    let graph = ServiceGraph::new(vec![
        ServiceSpec::new("api", ["core"]),
        ServiceSpec::new("core", [] as [&str; 0]),
        ServiceSpec::new("events", ["core"]),
    ])
    .unwrap();

    assert_eq!(graph.start_order()[0].id, "core");
    assert_eq!(graph.start_order().len(), 3);
}

#[test]
fn rejects_cycles_and_missing_dependencies() {
    assert!(ServiceGraph::new(vec![
        ServiceSpec::new("a", ["b"]),
        ServiceSpec::new("b", ["a"]),
    ])
    .is_err());
    assert!(ServiceGraph::new(vec![ServiceSpec::new("a", ["missing"])]).is_err());
}

fn order(services: Vec<ServiceSpec>) -> Vec<String> {
    let graph = ServiceGraph::new(services).unwrap();
    graph.start_order().iter().map(|service| service.id.clone()).collect()
}

fn fault(services: Vec<ServiceSpec>) -> String {
    ServiceGraph::new(services).unwrap_err().to_string()
}

#[test]
fn services_start_in_waves_by_identifier() {
    assert_eq!(
        order(vec![
            ServiceSpec::new("d", ["a"]),
            ServiceSpec::new("c", [] as [&str; 0]),
            ServiceSpec::new("b", ["a", "c"]),
            ServiceSpec::new("a", [] as [&str; 0]),
        ]),
        ["a", "c", "d", "b"]
    );
}

#[test]
fn the_listing_does_not_change_the_start_order() {
    let first = order(vec![
        ServiceSpec::new("x", ["z"]),
        ServiceSpec::new("y", ["z"]),
        ServiceSpec::new("z", [] as [&str; 0]),
    ]);
    let second = order(vec![
        ServiceSpec::new("z", [] as [&str; 0]),
        ServiceSpec::new("y", ["z"]),
        ServiceSpec::new("x", ["z"]),
    ]);
    assert_eq!(first, second);
    assert_eq!(first, ["z", "x", "y"]);
}

#[test]
fn the_control_plane_starts_and_stops_in_order() {
    let graph = ServiceGraph::control_plane();
    let started: Vec<&str> = graph.start_order().iter().map(|service| service.id.as_str()).collect();
    assert_eq!(started, ["ingress", "policy", "telemetry", "workers", "projection"]);
    let stopped: Vec<&str> = graph.stop_order().iter().map(|service| service.id.as_str()).collect();
    assert_eq!(stopped, ["projection", "workers", "telemetry", "policy", "ingress"]);
    let copy = graph.clone();
    assert_eq!(copy.start_order(), graph.start_order());
}

#[test]
fn services_keep_their_dependencies() {
    let service = ServiceSpec::new("a", ["b", "c"]);
    assert_eq!(service.id, "a");
    assert_eq!(service.dependencies, ["b", "c"]);
    assert_eq!(service.clone(), service);
}

#[test]
fn graphs_need_services_with_distinct_identifiers() {
    assert_eq!(fault(vec![]), "invalid service graph: at least one service is required");
    let empty = "invalid service graph: service identifiers cannot be empty";
    for id in ["", " ", "\t\n", "\u{a0}", "\u{2003}\u{3000}", "\u{85}"] {
        assert_eq!(fault(vec![ServiceSpec::new(id, [] as [&str; 0])]), empty);
    }
    let unique = "invalid service graph: service identifiers must be unique";
    assert_eq!(
        fault(vec![
            ServiceSpec::new("a", [] as [&str; 0]),
            ServiceSpec::new("a", ["missing"]),
            ServiceSpec::new("", [] as [&str; 0]),
        ]),
        unique
    );
    assert_eq!(
        fault(vec![
            ServiceSpec::new("", [] as [&str; 0]),
            ServiceSpec::new("a", [] as [&str; 0]),
            ServiceSpec::new("a", [] as [&str; 0]),
        ]),
        empty
    );
}

#[test]
fn white_space_is_what_unicode_says() {
    for code in 0..=0x10ffffu32 {
        if let Some(c) = char::from_u32(code) {
            if code < 0x3100 || code % 4093 == 0 {
                let id = c.to_string();
                let refused = ServiceGraph::new(vec![ServiceSpec::new(&id, [] as [&str; 0])]).is_err();
                assert_eq!(refused, id.trim().is_empty(), "{}", code);
            }
        }
    }
}

#[test]
fn the_first_missing_dependency_is_told() {
    assert_eq!(
        fault(vec![
            ServiceSpec::new("b", ["nowhere"]),
            ServiceSpec::new("a", ["b", "gone", "lost"]),
        ]),
        "invalid service graph: service 'a' depends on missing service 'gone'"
    );
}

#[test]
fn cycles_and_repeated_dependencies_are_refused() {
    let cycle = "invalid service graph: service dependencies contain a cycle";
    assert_eq!(fault(vec![ServiceSpec::new("a", ["a"])]), cycle);
    assert_eq!(
        fault(vec![
            ServiceSpec::new("a", [] as [&str; 0]),
            ServiceSpec::new("b", ["a", "a"]),
        ]),
        cycle
    );
    assert_eq!(
        fault(vec![
            ServiceSpec::new("a", ["c"]),
            ServiceSpec::new("b", ["a"]),
            ServiceSpec::new("c", ["b"]),
            ServiceSpec::new("d", [] as [&str; 0]),
        ]),
        cycle
    );
}
