use sept::graph::{AssemblyError, Construction, Graph, Instance};
use sept::recipe::Registry;

const ALPHA: u64 = 10;
const BETA: u64 = 20;
const GAMMA: u64 = 30;

fn constructed(built: &Vec<Construction>) -> Vec<u64> {
    built.iter().map(|c| c.token).collect()
}

#[test]
fn new_graph_is_empty() {
    let g = Graph::new();
    assert_eq!(g.get_node(ALPHA), None);
}

#[test]
fn provide_then_get_node() {
    let mut g = Graph::new();
    g.provide(ALPHA, Instance::Given(7));
    assert_eq!(g.get_node(ALPHA), Some(Instance::Given(7)));
    assert_eq!(g.get_node(BETA), None);
}

#[test]
fn provide_replaces_silently() {
    let mut g = Graph::new();
    g.provide(ALPHA, Instance::Given(7));
    g.provide(ALPHA, Instance::Given(8));
    assert_eq!(g.get_node(ALPHA), Some(Instance::Given(8)));
}

#[test]
fn filter_by_keeps_only_marked_tokens() {
    let mut g = Graph::new();
    g.provide(ALPHA, Instance::Given(1));
    g.provide(BETA, Instance::Given(2));
    let visible = g.filter_by(&vec![BETA, GAMMA, BETA]);
    assert_eq!(visible.get_node(ALPHA), None);
    assert_eq!(visible.get_node(BETA), Some(Instance::Given(2)));
    assert_eq!(visible.get_node(GAMMA), None);
    assert_eq!(g.get_node(ALPHA), Some(Instance::Given(1)));
}

#[test]
fn filter_by_nothing_is_empty() {
    let mut g = Graph::new();
    g.provide(ALPHA, Instance::Given(1));
    let visible = g.filter_by(&Vec::new());
    assert_eq!(visible.get_node(ALPHA), None);
}

#[test]
fn lookup_takes_the_first_holder() {
    let mut first = Graph::new();
    first.provide(ALPHA, Instance::Given(1));
    let mut second = Graph::new();
    second.provide(ALPHA, Instance::Given(2));
    second.provide(BETA, Instance::Given(3));
    let search = vec![&first, &second];
    assert_eq!(Graph::lookup(&search, ALPHA), Some(Instance::Given(1)));
    assert_eq!(Graph::lookup(&search, BETA), Some(Instance::Given(3)));
    assert_eq!(Graph::lookup(&search, GAMMA), None);
}

#[test]
fn registry_find_takes_the_first_recipe() {
    let registry = Registry::new()
        .declare(ALPHA, vec![])
        .declare(BETA, vec![ALPHA])
        .declare(ALPHA, vec![BETA]);
    assert_eq!(registry.find(ALPHA), Some(0));
    assert_eq!(registry.find(BETA), Some(1));
    assert_eq!(registry.find(GAMMA), None);
    assert_eq!(registry.recipes[1].needs, vec![ALPHA]);
}

#[test]
fn resolve_constructs_needs_first() {
    let registry = Registry::new()
        .declare(ALPHA, vec![BETA, GAMMA])
        .declare(BETA, vec![GAMMA])
        .declare(GAMMA, vec![]);
    let mut g = Graph::new();
    let mut built = Vec::new();
    let got = g.resolve(ALPHA, &Vec::new(), &registry, &mut built);
    assert_eq!(got, Ok(Instance::Built(2)));
    assert_eq!(
        built,
        vec![
            Construction { token: GAMMA, parts: vec![] },
            Construction { token: BETA, parts: vec![Instance::Built(0)] },
            Construction { token: ALPHA, parts: vec![Instance::Built(1), Instance::Built(0)] },
        ]
    );
    assert_eq!(g.get_node(GAMMA), Some(Instance::Built(0)));
    assert_eq!(g.get_node(BETA), Some(Instance::Built(1)));
    assert_eq!(g.get_node(ALPHA), Some(Instance::Built(2)));
}

#[test]
fn resolve_twice_yields_the_same_instance() {
    let registry = Registry::new().declare(ALPHA, vec![BETA]).declare(BETA, vec![]);
    let mut g = Graph::new();
    let mut built = Vec::new();
    let first = g.resolve(ALPHA, &Vec::new(), &registry, &mut built);
    let other = g.resolve(BETA, &Vec::new(), &registry, &mut built);
    let second = g.resolve(ALPHA, &Vec::new(), &registry, &mut built);
    assert_eq!(first, Ok(Instance::Built(1)));
    assert_eq!(other, Ok(Instance::Built(0)));
    assert_eq!(second, first);
    assert_eq!(constructed(&built), vec![BETA, ALPHA]);
}

#[test]
fn resolve_prefers_own_graph_then_search_order() {
    let registry = Registry::new().declare(ALPHA, vec![]).declare(BETA, vec![]);
    let mut global = Graph::new();
    global.provide(BETA, Instance::Given(1));
    let mut imported = Graph::new();
    imported.provide(ALPHA, Instance::Given(2));
    imported.provide(BETA, Instance::Given(3));
    let search = vec![&global, &imported];

    let mut own = Graph::new();
    own.provide(ALPHA, Instance::Given(4));
    let mut built = Vec::new();
    assert_eq!(own.resolve(ALPHA, &search, &registry, &mut built), Ok(Instance::Given(4)));
    assert_eq!(own.resolve(BETA, &search, &registry, &mut built), Ok(Instance::Given(1)));
    assert_eq!(own.get_node(BETA), Some(Instance::Given(1)));

    let mut fresh = Graph::new();
    assert_eq!(fresh.resolve(ALPHA, &search, &registry, &mut built), Ok(Instance::Given(2)));
    assert_eq!(constructed(&built), Vec::<u64>::new());
}

#[test]
fn resolve_reports_the_missing_need() {
    let registry = Registry::new().declare(ALPHA, vec![BETA]);
    let mut g = Graph::new();
    let mut built = Vec::new();
    let got = g.resolve(ALPHA, &Vec::new(), &registry, &mut built);
    assert_eq!(got, Err(AssemblyError::UnresolvedCapability(BETA)));
    assert_eq!(g.get_node(ALPHA), None);
    assert_eq!(constructed(&built), Vec::<u64>::new());
}

#[test]
fn resolve_reports_a_cycle() {
    let registry = Registry::new().declare(ALPHA, vec![BETA]).declare(BETA, vec![ALPHA]);
    let mut g = Graph::new();
    let mut built = Vec::new();
    let got = g.resolve(ALPHA, &Vec::new(), &registry, &mut built);
    assert_eq!(got, Err(AssemblyError::CyclicDependency(ALPHA)));
    let own = Registry::new().declare(GAMMA, vec![GAMMA]);
    let got = g.resolve(GAMMA, &Vec::new(), &own, &mut built);
    assert_eq!(got, Err(AssemblyError::CyclicDependency(GAMMA)));
}

#[test]
fn resolve_shares_a_need_between_dependents() {
    let registry = Registry::new()
        .declare(ALPHA, vec![GAMMA])
        .declare(BETA, vec![GAMMA])
        .declare(GAMMA, vec![]);
    let mut g = Graph::new();
    let mut built = Vec::new();
    let got = g.resolve_all(&vec![ALPHA, BETA], &Vec::new(), &registry, &mut built);
    assert_eq!(got, Ok(vec![Instance::Built(1), Instance::Built(2)]));
    assert_eq!(constructed(&built), vec![GAMMA, ALPHA, BETA]);
}

#[test]
fn resolve_all_stops_at_the_first_failure() {
    let registry = Registry::new().declare(ALPHA, vec![]).declare(GAMMA, vec![]);
    let mut g = Graph::new();
    let mut built = Vec::new();
    let got = g.resolve_all(&vec![ALPHA, BETA, GAMMA], &Vec::new(), &registry, &mut built);
    assert_eq!(got, Err(AssemblyError::UnresolvedCapability(BETA)));
    assert_eq!(constructed(&built), vec![ALPHA]);
    assert_eq!(g.get_node(GAMMA), None);
}
