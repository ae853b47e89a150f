//! What holds of resolution and of the build protocol on every input.

use vstd::prelude::*;
use crate::assembly::{
    attach_imports, build_module, finish_module, import_graphs, install_values, obtain_module,
    search_graphs, Attached,
};
use crate::graph::{first_holder, AssemblyError, Instance};
use crate::module::{catalog_index, Assembly, Declaration, Resolved};
use crate::recipe::recipe_index;
use crate::resolve::{
    count_idle, idle, lemma_mark_busy, resolve_needs, resolve_token, Resolution,
};

verus! {

/// `later` holds every entry of `earlier`, with the same instance.
pub open spec fn keeps<V>(earlier: Map<u64, V>, later: Map<u64, V>) -> bool {
    forall|t: u64| #[trigger]
        earlier.contains_key(t) ==> later.contains_key(t) && later[t] == earlier[t]
}

/// A resolution never replaces or drops an entry of the graph, and only
/// appends to the construction log.
pub proof fn lemma_resolution_keeps_entries(
    recipes: Seq<(u64, Seq<u64>)>,
    search: Seq<Map<u64, Instance>>,
    graph: Map<u64, Instance>,
    built: Seq<(u64, Seq<Instance>)>,
    busy: Seq<bool>,
    token: u64,
)
    ensures
        keeps(graph, resolve_token(recipes, search, graph, built, busy, token).graph),
        built.is_prefix_of(resolve_token(recipes, search, graph, built, busy, token).built),
    decreases count_idle(busy), 0nat, 0nat,
{
    if !graph.contains_key(token) && first_holder(search, token, 0) is None {
        match recipe_index(recipes, token, 0) {
            None => {},
            Some(k) => {
                if 0 <= k < busy.len() && !busy[k] {
                    lemma_mark_busy(busy, k);
                    lemma_needs_keep_entries(
                        recipes,
                        search,
                        graph,
                        built,
                        busy.update(k, true),
                        recipes[k].1,
                        0,
                        Seq::empty(),
                    );
                }
            },
        }
    }
}

/// Resolving a list of tokens never replaces or drops an entry of the graph,
/// and only appends to the construction log.
pub proof fn lemma_needs_keep_entries(
    recipes: Seq<(u64, Seq<u64>)>,
    search: Seq<Map<u64, Instance>>,
    graph: Map<u64, Instance>,
    built: Seq<(u64, Seq<Instance>)>,
    busy: Seq<bool>,
    needs: Seq<u64>,
    from: int,
    got: Seq<Instance>,
)
    ensures
        keeps(graph, resolve_needs(recipes, search, graph, built, busy, needs, from, got).graph),
        built.is_prefix_of(
            resolve_needs(recipes, search, graph, built, busy, needs, from, got).built,
        ),
    decreases count_idle(busy), 1nat, needs.len() - from,
{
    if 0 <= from < needs.len() {
        lemma_resolution_keeps_entries(recipes, search, graph, built, busy, needs[from]);
        let r = resolve_token(recipes, search, graph, built, busy, needs[from]);
        match r.result {
            Err(e) => {},
            Ok(instance) => {
                lemma_needs_keep_entries(
                    recipes,
                    search,
                    r.graph,
                    r.built,
                    busy,
                    needs,
                    from + 1,
                    got.push(instance),
                );
            },
        }
    }
}

/// A token resolves to one instance per graph: once a resolution has
/// yielded an instance, then after any further resolutions against that
/// graph, whatever they consult and whether or not they succeed, resolving
/// the token again yields the same instance, constructs nothing and leaves
/// the graph as it is.
pub proof fn law_singleton_per_graph(
    recipes: Seq<(u64, Seq<u64>)>,
    search: Seq<Map<u64, Instance>>,
    graph: Map<u64, Instance>,
    built: Seq<(u64, Seq<Instance>)>,
    busy: Seq<bool>,
    token: u64,
    between_search: Seq<Map<u64, Instance>>,
    between_busy: Seq<bool>,
    between: Seq<u64>,
    again_search: Seq<Map<u64, Instance>>,
    again_busy: Seq<bool>,
)
    requires
        resolve_token(recipes, search, graph, built, busy, token).result is Ok,
    ensures
        ({
            let first = resolve_token(recipes, search, graph, built, busy, token);
            let mid = resolve_needs(
                recipes,
                between_search,
                first.graph,
                first.built,
                between_busy,
                between,
                0,
                Seq::empty(),
            );
            resolve_token(recipes, again_search, mid.graph, mid.built, again_busy, token) == (
            Resolution { graph: mid.graph, built: mid.built, result: first.result })
        }),
{
    let first = resolve_token(recipes, search, graph, built, busy, token);
    assert(first.graph.contains_key(token) && Ok::<Instance, AssemblyError>(
        first.graph[token],
    ) == first.result);
    lemma_needs_keep_entries(
        recipes,
        between_search,
        first.graph,
        first.built,
        between_busy,
        between,
        0,
        Seq::empty(),
    );
}

/// A successful resolution of a list yields, for each token of the list, the
/// instance that the graph holds for it afterwards. (The accumulator `got`
/// is assumed to hold this of the tokens before `from`.)
pub proof fn lemma_needs_yield_graph_instances(
    recipes: Seq<(u64, Seq<u64>)>,
    search: Seq<Map<u64, Instance>>,
    graph: Map<u64, Instance>,
    built: Seq<(u64, Seq<Instance>)>,
    busy: Seq<bool>,
    needs: Seq<u64>,
    from: int,
    got: Seq<Instance>,
)
    requires
        0 <= from <= needs.len(),
        got.len() == from,
        forall|j: int|
            0 <= j < from ==> graph.contains_key(#[trigger] needs[j]) && graph[needs[j]] == got[j],
    ensures
        ({
            let p = resolve_needs(recipes, search, graph, built, busy, needs, from, got);
            p.failure is None ==> {
                &&& p.got.len() == needs.len()
                &&& forall|j: int|
                    0 <= j < needs.len() ==> p.graph.contains_key(#[trigger] needs[j])
                        && p.graph[needs[j]] == p.got[j]
            }
        }),
    decreases needs.len() - from,
{
    if from < needs.len() {
        let r = resolve_token(recipes, search, graph, built, busy, needs[from]);
        lemma_resolution_keeps_entries(recipes, search, graph, built, busy, needs[from]);
        match r.result {
            Err(e) => {},
            Ok(instance) => {
                assert(r.graph.contains_key(needs[from]) && r.graph[needs[from]] == instance);
                let next = got.push(instance);
                assert forall|j: int| 0 <= j < from + 1 implies r.graph.contains_key(
                    #[trigger] needs[j],
                ) && r.graph[needs[j]] == next[j] by {
                    if j < from {
                        assert(graph.contains_key(needs[j]));
                    }
                }
                lemma_needs_yield_graph_instances(
                    recipes,
                    search,
                    r.graph,
                    r.built,
                    busy,
                    needs,
                    from + 1,
                    next,
                );
            },
        }
    }
}

/// A built module's clients are, in declaration order, the instances that
/// its own graph holds for the tokens declared as clients; and the module
/// imports what was declared.
pub proof fn law_clients_are_graph_instances(
    catalog: Seq<(u64, Declaration)>,
    recipes: Seq<(u64, Seq<u64>)>,
    ctx: Assembly,
    busy: Seq<bool>,
    decl: Declaration,
)
    requires
        build_module(catalog, recipes, ctx, busy, decl).result is Ok,
    ensures
        ({
            let m = build_module(catalog, recipes, ctx, busy, decl).result->Ok_0;
            &&& m.imports == decl.imports
            &&& m.clients.len() == decl.clients.len()
            &&& forall|j: int|
                0 <= j < decl.clients.len() ==> m.graph.contains_key(#[trigger] decl.clients[j])
                    && m.graph[decl.clients[j]] == m.clients[j]
        }),
{
    let a = attach_imports(catalog, recipes, ctx, busy, decl.imports, 0);
    let search = search_graphs(a.ctx, decl.imports);
    let seeded = install_values(Map::empty(), decl.provider_vals, 0);
    let p = resolve_needs(
        recipes,
        search,
        seeded,
        a.ctx.built,
        idle(recipes.len()),
        decl.providers,
        0,
        Seq::empty(),
    );
    lemma_needs_yield_graph_instances(
        recipes,
        search,
        p.graph,
        p.built,
        idle(recipes.len()),
        decl.clients,
        0,
        Seq::empty(),
    );
}

/// Every constructed instance that `graph` holds stands in the log at its
/// own number, as a construction of the token it is held under.
pub open spec fn logged(graph: Map<u64, Instance>, built: Seq<(u64, Seq<Instance>)>) -> bool {
    forall|t: u64| #[trigger]
        graph.contains_key(t) ==> match graph[t] {
            Instance::Built(n) => n < built.len() && built[n as int].0 == t,
            Instance::Given(_) => true,
        }
}

/// Every graph of `search` is logged.
pub open spec fn all_logged(
    search: Seq<Map<u64, Instance>>,
    built: Seq<(u64, Seq<Instance>)>,
) -> bool {
    forall|i: int| 0 <= i < search.len() ==> logged(#[trigger] search[i], built)
}

/// Resolution keeps graphs and log consistent: where the graph and the
/// consulted graphs were logged, the resulting graph is logged in the
/// resulting log. (The log's length is assumed to fit the machine's
/// `usize`, as that of every log in memory does.)
pub proof fn law_resolution_keeps_log(
    recipes: Seq<(u64, Seq<u64>)>,
    search: Seq<Map<u64, Instance>>,
    graph: Map<u64, Instance>,
    built: Seq<(u64, Seq<Instance>)>,
    busy: Seq<bool>,
    token: u64,
)
    requires
        logged(graph, built),
        all_logged(search, built),
        resolve_token(recipes, search, graph, built, busy, token).built.len() <= usize::MAX,
    ensures
        logged(
            resolve_token(recipes, search, graph, built, busy, token).graph,
            resolve_token(recipes, search, graph, built, busy, token).built,
        ),
    decreases count_idle(busy), 0nat, 0nat,
{
    if !graph.contains_key(token) {
        match first_holder(search, token, 0) {
            Some(i) => {
                lemma_first_holder_holds(search, token, 0);
                assert(logged(search[i], built));
                assert(search[i].contains_key(token));
            },
            None => {
                match recipe_index(recipes, token, 0) {
                    None => {},
                    Some(k) => {
                        if 0 <= k < busy.len() && !busy[k] {
                            lemma_mark_busy(busy, k);
                            lemma_needs_keep_log(
                                recipes,
                                search,
                                graph,
                                built,
                                busy.update(k, true),
                                recipes[k].1,
                                0,
                                Seq::empty(),
                            );
                        }
                    },
                }
            },
        }
    }
}

/// Resolving a list keeps graphs and log consistent.
pub proof fn lemma_needs_keep_log(
    recipes: Seq<(u64, Seq<u64>)>,
    search: Seq<Map<u64, Instance>>,
    graph: Map<u64, Instance>,
    built: Seq<(u64, Seq<Instance>)>,
    busy: Seq<bool>,
    needs: Seq<u64>,
    from: int,
    got: Seq<Instance>,
)
    requires
        logged(graph, built),
        all_logged(search, built),
        resolve_needs(recipes, search, graph, built, busy, needs, from, got).built.len()
            <= usize::MAX,
    ensures
        logged(
            resolve_needs(recipes, search, graph, built, busy, needs, from, got).graph,
            resolve_needs(recipes, search, graph, built, busy, needs, from, got).built,
        ),
    decreases count_idle(busy), 1nat, needs.len() - from,
{
    if 0 <= from < needs.len() {
        let r = resolve_token(recipes, search, graph, built, busy, needs[from]);
        lemma_resolution_keeps_entries(recipes, search, graph, built, busy, needs[from]);
        match r.result {
            Err(e) => {
                law_resolution_keeps_log(recipes, search, graph, built, busy, needs[from]);
            },
            Ok(instance) => {
                lemma_needs_keep_entries(
                    recipes,
                    search,
                    r.graph,
                    r.built,
                    busy,
                    needs,
                    from + 1,
                    got.push(instance),
                );
                law_resolution_keeps_log(recipes, search, graph, built, busy, needs[from]);
                assert forall|i: int| 0 <= i < search.len() implies logged(
                    #[trigger] search[i],
                    r.built,
                ) by {
                    assert(logged(search[i], built));
                }
                lemma_needs_keep_log(
                    recipes,
                    search,
                    r.graph,
                    r.built,
                    busy,
                    needs,
                    from + 1,
                    got.push(instance),
                );
            },
        }
    }
}

/// The first holder, where there is one, is a position of `search` whose
/// graph holds the token.
pub proof fn lemma_first_holder_holds(search: Seq<Map<u64, Instance>>, token: u64, from: int)
    ensures
        match first_holder(search, token, from) {
            Some(i) => from <= i < search.len() && search[i].contains_key(token),
            None => true,
        },
    decreases search.len() - from,
{
    if 0 <= from < search.len() && !search[from].contains_key(token) {
        lemma_first_holder_holds(search, token, from + 1);
    }
}

/// What a resolution's failure says of the token it names: the token has no
/// instance in the graph or in any consulted graph; an unresolved token has
/// no recipe either, a cyclic one has a recipe. A resolution fails in no
/// other way.
pub open spec fn blames(
    recipes: Seq<(u64, Seq<u64>)>,
    search: Seq<Map<u64, Instance>>,
    graph: Map<u64, Instance>,
    e: AssemblyError,
) -> bool {
    match e {
        AssemblyError::UnresolvedCapability(t) => {
            &&& !graph.contains_key(t)
            &&& first_holder(search, t, 0) is None
            &&& recipe_index(recipes, t, 0) is None
        },
        AssemblyError::CyclicDependency(t) => {
            &&& !graph.contains_key(t)
            &&& first_holder(search, t, 0) is None
            &&& recipe_index(recipes, t, 0) is Some
        },
        _ => false,
    }
}

/// A failed resolution names the token that could not be had, which need
/// not be the token asked for: see `blames`.
pub proof fn law_failure_names_the_culprit(
    recipes: Seq<(u64, Seq<u64>)>,
    search: Seq<Map<u64, Instance>>,
    graph: Map<u64, Instance>,
    built: Seq<(u64, Seq<Instance>)>,
    busy: Seq<bool>,
    token: u64,
)
    ensures
        match resolve_token(recipes, search, graph, built, busy, token).result {
            Ok(_) => true,
            Err(e) => blames(recipes, search, graph, e),
        },
    decreases count_idle(busy), 0nat, 0nat,
{
    if !graph.contains_key(token) && first_holder(search, token, 0) is None {
        match recipe_index(recipes, token, 0) {
            None => {},
            Some(k) => {
                if 0 <= k < busy.len() && !busy[k] {
                    lemma_mark_busy(busy, k);
                    lemma_needs_failure_names_the_culprit(
                        recipes,
                        search,
                        graph,
                        built,
                        busy.update(k, true),
                        recipes[k].1,
                        0,
                        Seq::empty(),
                    );
                }
            },
        }
    }
}

/// A failed resolution of a list names the token that could not be had.
pub proof fn lemma_needs_failure_names_the_culprit(
    recipes: Seq<(u64, Seq<u64>)>,
    search: Seq<Map<u64, Instance>>,
    graph: Map<u64, Instance>,
    built: Seq<(u64, Seq<Instance>)>,
    busy: Seq<bool>,
    needs: Seq<u64>,
    from: int,
    got: Seq<Instance>,
)
    ensures
        match resolve_needs(recipes, search, graph, built, busy, needs, from, got).failure {
            None => true,
            Some(e) => blames(recipes, search, graph, e),
        },
    decreases count_idle(busy), 1nat, needs.len() - from,
{
    if 0 <= from < needs.len() {
        law_failure_names_the_culprit(recipes, search, graph, built, busy, needs[from]);
        lemma_resolution_keeps_entries(recipes, search, graph, built, busy, needs[from]);
        let r = resolve_token(recipes, search, graph, built, busy, needs[from]);
        match r.result {
            Err(e) => {},
            Ok(instance) => {
                lemma_needs_failure_names_the_culprit(
                    recipes,
                    search,
                    r.graph,
                    r.built,
                    busy,
                    needs,
                    from + 1,
                    got.push(instance),
                );
            },
        }
    }
}

/// Resolving a list of tokens that the graph already holds changes nothing
/// and yields the graph's instances, in the order of the list.
pub proof fn lemma_present_needs(
    recipes: Seq<(u64, Seq<u64>)>,
    search: Seq<Map<u64, Instance>>,
    graph: Map<u64, Instance>,
    built: Seq<(u64, Seq<Instance>)>,
    busy: Seq<bool>,
    needs: Seq<u64>,
    from: int,
    got: Seq<Instance>,
)
    requires
        0 <= from <= needs.len(),
        got.len() == from,
        forall|j: int| 0 <= j < needs.len() ==> graph.contains_key(#[trigger] needs[j]),
    ensures
        ({
            let p = resolve_needs(recipes, search, graph, built, busy, needs, from, got);
            &&& p.failure is None
            &&& p.graph == graph
            &&& p.built == built
            &&& p.got.len() == needs.len()
            &&& forall|j: int| 0 <= j < from ==> p.got[j] == got[j]
            &&& forall|j: int| from <= j < needs.len() ==> p.got[j] == graph[needs[j]]
        }),
    decreases needs.len() - from,
{
    if from < needs.len() {
        assert(graph.contains_key(needs[from]));
        let next = got.push(graph[needs[from]]);
        lemma_present_needs(recipes, search, graph, built, busy, needs, from + 1, next);
        let r = resolve_token(recipes, search, graph, built, busy, needs[from]);
        assert(r == (Resolution { graph, built, result: Ok(graph[needs[from]]) }));
        let p = resolve_needs(recipes, search, graph, built, busy, needs, from, got);
        assert(p == resolve_needs(recipes, search, graph, built, busy, needs, from + 1, next));
        assert forall|j: int| 0 <= j < from implies p.got[j] == got[j] by {
            assert(next[j] == got[j]);
        }
        assert forall|j: int| from <= j < needs.len() implies p.got[j] == graph[needs[j]] by {
            if j == from {
                assert(p.got[from] == next[from]);
            }
        }
    }
}

/// What a construction is: a token that no consulted graph holds, whose
/// recipe is not under construction and whose needs the graph already holds,
/// resolves to a new instance, numbered by the log's length; the log grows
/// by this one construction, which received the graph's instances of the
/// needs in the recipe's order; and the graph gains the new instance under
/// the token and nothing else.
pub proof fn law_construction(
    recipes: Seq<(u64, Seq<u64>)>,
    search: Seq<Map<u64, Instance>>,
    graph: Map<u64, Instance>,
    built: Seq<(u64, Seq<Instance>)>,
    busy: Seq<bool>,
    token: u64,
    k: int,
)
    requires
        !graph.contains_key(token),
        first_holder(search, token, 0) is None,
        recipe_index(recipes, token, 0) == Some(k),
        0 <= k < busy.len(),
        !busy[k],
        forall|j: int| 0 <= j < recipes[k].1.len() ==> graph.contains_key(#[trigger] recipes[k].1[j]),
    ensures
        ({
            let r = resolve_token(recipes, search, graph, built, busy, token);
            let made = Instance::Built(built.len() as usize);
            &&& r.result == Ok::<Instance, AssemblyError>(made)
            &&& r.graph == graph.insert(token, made)
            &&& r.built.len() == built.len() + 1
            &&& r.built.drop_last() == built
            &&& r.built.last().0 == token
            &&& r.built.last().1.len() == recipes[k].1.len()
            &&& forall|j: int|
                0 <= j < recipes[k].1.len() ==> r.built.last().1[j] == graph[recipes[k].1[j]]
        }),
{
    lemma_present_needs(
        recipes,
        search,
        graph,
        built,
        busy.update(k, true),
        recipes[k].1,
        0,
        Seq::empty(),
    );
    let r = resolve_token(recipes, search, graph, built, busy, token);
    assert(r.built.drop_last() =~= built);
}

/// Where no graph before position `at` holds the token and the one at `at`
/// does, `at` is the first holder.
pub proof fn lemma_first_holder(search: Seq<Map<u64, Instance>>, token: u64, from: int, at: int)
    requires
        0 <= from <= at < search.len(),
        search[at].contains_key(token),
        forall|j: int| from <= j < at ==> !(#[trigger] search[j]).contains_key(token),
    ensures
        first_holder(search, token, from) == Some(at),
    decreases at - from,
{
    if from < at {
        lemma_first_holder(search, token, from + 1, at);
    }
}

/// Search order: the graph's own instance wins; failing that, the instance
/// in the earliest consulted graph that holds the token wins, is recorded in
/// the graph, and nothing is constructed.
pub proof fn law_search_order(
    recipes: Seq<(u64, Seq<u64>)>,
    search: Seq<Map<u64, Instance>>,
    graph: Map<u64, Instance>,
    built: Seq<(u64, Seq<Instance>)>,
    busy: Seq<bool>,
    token: u64,
    at: int,
)
    requires
        0 <= at < search.len(),
        search[at].contains_key(token),
        forall|j: int| 0 <= j < at ==> !(#[trigger] search[j]).contains_key(token),
    ensures
        resolve_token(recipes, search, graph, built, busy, token) == (if graph.contains_key(token) {
            Resolution { graph, built, result: Ok(graph[token]) }
        } else {
            Resolution {
                graph: graph.insert(token, search[at][token]),
                built,
                result: Ok(search[at][token]),
            }
        }),
{
    lemma_first_holder(search, token, 0, at);
}

/// With every import in the memo, `import_graphs` appends to `acc` the
/// exported graph of each import from `from` on, in order.
pub proof fn lemma_import_graphs(
    modules: Map<u64, Resolved>,
    imports: Seq<u64>,
    from: int,
    acc: Seq<Map<u64, Instance>>,
)
    requires
        0 <= from <= imports.len(),
        forall|j: int| 0 <= j < imports.len() ==> modules.contains_key(#[trigger] imports[j]),
    ensures
        import_graphs(modules, imports, from, acc).len() == acc.len() + imports.len() - from,
        forall|j: int|
            0 <= j < acc.len() ==> (#[trigger] import_graphs(modules, imports, from, acc)[j])
                == acc[j],
        forall|j: int|
            from <= j < imports.len() ==> (#[trigger] import_graphs(
                modules,
                imports,
                from,
                acc,
            )[acc.len() + j - from]) == modules[imports[j]].exports,
    decreases imports.len() - from,
{
    if from < imports.len() {
        let next = acc.push(modules[imports[from]].exports);
        lemma_import_graphs(modules, imports, from + 1, next);
        let all = import_graphs(modules, imports, from, acc);
        assert(all == import_graphs(modules, imports, from + 1, next));
        assert forall|j: int| 0 <= j < acc.len() implies (#[trigger] all[j]) == acc[j] by {
            assert(next[j] == acc[j]);
        }
        assert forall|j: int| from <= j < imports.len() implies (#[trigger] all[acc.len() + j
            - from]) == modules[imports[j]].exports by {
            if j == from {
                assert(all[acc.len() as int] == next[acc.len() as int]);
            } else {
                assert(all[next.len() + j - (from + 1)] == modules[imports[j]].exports);
            }
        }
    }
}

/// A module whose imports are all in the memo consults, after its own
/// graph, the global graph first and then each import's exported graph, in
/// the order the imports were declared.
pub proof fn law_module_search_order(ctx: Assembly, imports: Seq<u64>)
    requires
        forall|j: int| 0 <= j < imports.len() ==> ctx.modules.contains_key(#[trigger] imports[j]),
    ensures
        search_graphs(ctx, imports).len() == imports.len() + 1,
        search_graphs(ctx, imports)[0] == ctx.global,
        forall|j: int|
            0 <= j < imports.len() ==> (#[trigger] search_graphs(ctx, imports)[j + 1])
                == ctx.modules[imports[j]].exports,
{
    lemma_import_graphs(ctx.modules, imports, 0, seq![ctx.global]);
    let all = search_graphs(ctx, imports);
    assert(all[0] == seq![ctx.global][0]);
    assert forall|j: int| 0 <= j < imports.len() implies (#[trigger] all[j + 1])
        == ctx.modules[imports[j]].exports by {
        assert(all[seq![ctx.global].len() + j - 0] == ctx.modules[imports[j]].exports);
    }
}

/// Export visibility: a built module's exported graph holds a token exactly
/// when the module's own graph holds it and the module marked it for export,
/// and then with the same instance.
pub proof fn law_export_visibility(
    catalog: Seq<(u64, Declaration)>,
    recipes: Seq<(u64, Seq<u64>)>,
    ctx: Assembly,
    busy: Seq<bool>,
    decl: Declaration,
    token: u64,
)
    requires
        build_module(catalog, recipes, ctx, busy, decl).result is Ok,
    ensures
        ({
            let m = build_module(catalog, recipes, ctx, busy, decl).result->Ok_0;
            &&& m.exports.contains_key(token) <==> (m.graph.contains_key(token)
                && decl.exports.contains(token))
            &&& m.exports.contains_key(token) ==> m.exports[token] == m.graph[token]
        }),
{
    let a = attach_imports(catalog, recipes, ctx, busy, decl.imports, 0);
    let b = finish_module(recipes, a.ctx, decl);
    assert(build_module(catalog, recipes, ctx, busy, decl) == b);
}

/// Obtaining modules and building never replaces or drops a module of the
/// memo, never touches the global graph, and only appends to the
/// construction log.
pub open spec fn extends(earlier: Assembly, later: Assembly) -> bool {
    &&& later.global == earlier.global
    &&& keeps(earlier.modules, later.modules)
    &&& earlier.built.is_prefix_of(later.built)
}

/// Obtaining a module extends the assembly state.
pub proof fn lemma_obtain_extends(
    catalog: Seq<(u64, Declaration)>,
    recipes: Seq<(u64, Seq<u64>)>,
    ctx: Assembly,
    busy: Seq<bool>,
    id: u64,
)
    ensures
        extends(ctx, obtain_module(catalog, recipes, ctx, busy, id).ctx),
    decreases count_idle(busy), 0nat, 0nat,
{
    if !ctx.modules.contains_key(id) {
        match catalog_index(catalog, id, 0) {
            None => {},
            Some(k) => {
                if 0 <= k < busy.len() && !busy[k] {
                    lemma_mark_busy(busy, k);
                    lemma_build_extends(catalog, recipes, ctx, busy.update(k, true), catalog[k].1);
                }
            },
        }
    }
}

/// Obtaining a list of modules extends the assembly state.
pub proof fn lemma_attach_extends(
    catalog: Seq<(u64, Declaration)>,
    recipes: Seq<(u64, Seq<u64>)>,
    ctx: Assembly,
    busy: Seq<bool>,
    imports: Seq<u64>,
    from: int,
)
    ensures
        extends(ctx, attach_imports(catalog, recipes, ctx, busy, imports, from).ctx),
    decreases count_idle(busy), 1nat, imports.len() - from,
{
    if 0 <= from < imports.len() {
        lemma_obtain_extends(catalog, recipes, ctx, busy, imports[from]);
        let a = obtain_module(catalog, recipes, ctx, busy, imports[from]);
        if a.failure is None {
            lemma_attach_extends(catalog, recipes, a.ctx, busy, imports, from + 1);
        }
    }
}

/// Building a module extends the assembly state.
pub proof fn lemma_build_extends(
    catalog: Seq<(u64, Declaration)>,
    recipes: Seq<(u64, Seq<u64>)>,
    ctx: Assembly,
    busy: Seq<bool>,
    decl: Declaration,
)
    ensures
        extends(ctx, build_module(catalog, recipes, ctx, busy, decl).ctx),
    decreases count_idle(busy), 2nat, 0nat,
{
    lemma_attach_extends(catalog, recipes, ctx, busy, decl.imports, 0);
    let a = attach_imports(catalog, recipes, ctx, busy, decl.imports, 0);
    if a.failure is None {
        let search = search_graphs(a.ctx, decl.imports);
        let seeded = install_values(Map::empty(), decl.provider_vals, 0);
        let none_busy = idle(recipes.len());
        lemma_needs_keep_entries(
            recipes,
            search,
            seeded,
            a.ctx.built,
            none_busy,
            decl.providers,
            0,
            Seq::empty(),
        );
        let p = resolve_needs(
            recipes,
            search,
            seeded,
            a.ctx.built,
            none_busy,
            decl.providers,
            0,
            Seq::empty(),
        );
        if p.failure is None {
            lemma_needs_keep_entries(
                recipes,
                search,
                p.graph,
                p.built,
                none_busy,
                decl.clients,
                0,
                Seq::empty(),
            );
        }
    }
}

/// What a build's failure says of what it names: a failed resolution blames
/// a token as `blames` says, against some graphs; an unknown module has no
/// declaration; a module named as an import cycle has one.
pub open spec fn build_blames(
    catalog: Seq<(u64, Declaration)>,
    recipes: Seq<(u64, Seq<u64>)>,
    e: AssemblyError,
) -> bool {
    match e {
        AssemblyError::UnresolvedCapability(t) => recipe_index(recipes, t, 0) is None,
        AssemblyError::CyclicDependency(t) => recipe_index(recipes, t, 0) is Some,
        AssemblyError::UnknownModule(id) => catalog_index(catalog, id, 0) is None,
        AssemblyError::ModuleImportCycle(id) => catalog_index(catalog, id, 0) is Some,
    }
}

/// A failure to obtain a module names what could not be had: see
/// `build_blames`.
pub proof fn lemma_obtain_failure_names_the_culprit(
    catalog: Seq<(u64, Declaration)>,
    recipes: Seq<(u64, Seq<u64>)>,
    ctx: Assembly,
    busy: Seq<bool>,
    id: u64,
)
    ensures
        match obtain_module(catalog, recipes, ctx, busy, id).failure {
            None => true,
            Some(e) => build_blames(catalog, recipes, e),
        },
    decreases count_idle(busy), 0nat, 0nat,
{
    if !ctx.modules.contains_key(id) {
        match catalog_index(catalog, id, 0) {
            None => {},
            Some(k) => {
                if 0 <= k < busy.len() && !busy[k] {
                    lemma_mark_busy(busy, k);
                    law_build_failure_names_the_culprit(
                        catalog,
                        recipes,
                        ctx,
                        busy.update(k, true),
                        catalog[k].1,
                    );
                }
            },
        }
    }
}

/// A failure to obtain a list of modules names what could not be had.
pub proof fn lemma_attach_failure_names_the_culprit(
    catalog: Seq<(u64, Declaration)>,
    recipes: Seq<(u64, Seq<u64>)>,
    ctx: Assembly,
    busy: Seq<bool>,
    imports: Seq<u64>,
    from: int,
)
    ensures
        match attach_imports(catalog, recipes, ctx, busy, imports, from).failure {
            None => true,
            Some(e) => build_blames(catalog, recipes, e),
        },
    decreases count_idle(busy), 1nat, imports.len() - from,
{
    if 0 <= from < imports.len() {
        lemma_obtain_failure_names_the_culprit(catalog, recipes, ctx, busy, imports[from]);
        let a = obtain_module(catalog, recipes, ctx, busy, imports[from]);
        if a.failure is None {
            lemma_attach_failure_names_the_culprit(catalog, recipes, a.ctx, busy, imports, from + 1);
        }
    }
}

/// A failed build names what could not be had, which need not be what was
/// asked for: see `build_blames`.
pub proof fn law_build_failure_names_the_culprit(
    catalog: Seq<(u64, Declaration)>,
    recipes: Seq<(u64, Seq<u64>)>,
    ctx: Assembly,
    busy: Seq<bool>,
    decl: Declaration,
)
    ensures
        match build_module(catalog, recipes, ctx, busy, decl).result {
            Ok(_) => true,
            Err(e) => build_blames(catalog, recipes, e),
        },
    decreases count_idle(busy), 2nat, 0nat,
{
    lemma_attach_failure_names_the_culprit(catalog, recipes, ctx, busy, decl.imports, 0);
    let a = attach_imports(catalog, recipes, ctx, busy, decl.imports, 0);
    if a.failure is None {
        let search = search_graphs(a.ctx, decl.imports);
        let seeded = install_values(Map::empty(), decl.provider_vals, 0);
        let none_busy = idle(recipes.len());
        lemma_needs_failure_names_the_culprit(
            recipes,
            search,
            seeded,
            a.ctx.built,
            none_busy,
            decl.providers,
            0,
            Seq::empty(),
        );
        let p = resolve_needs(
            recipes,
            search,
            seeded,
            a.ctx.built,
            none_busy,
            decl.providers,
            0,
            Seq::empty(),
        );
        if p.failure is None {
            lemma_needs_failure_names_the_culprit(
                recipes,
                search,
                p.graph,
                p.built,
                none_busy,
                decl.clients,
                0,
                Seq::empty(),
            );
        }
    }
}

/// Import dedup: once a module has been obtained, then after any further
/// modules were obtained in the same pass, whether or not that succeeded,
/// obtaining it again changes nothing: nothing is constructed, and the memo
/// still holds the module that the first importer saw.
pub proof fn law_module_built_once(
    catalog: Seq<(u64, Declaration)>,
    recipes: Seq<(u64, Seq<u64>)>,
    ctx: Assembly,
    busy: Seq<bool>,
    id: u64,
    between_busy: Seq<bool>,
    between: Seq<u64>,
    again_busy: Seq<bool>,
)
    requires
        obtain_module(catalog, recipes, ctx, busy, id).failure is None,
    ensures
        ({
            let first = obtain_module(catalog, recipes, ctx, busy, id);
            let mid = attach_imports(catalog, recipes, first.ctx, between_busy, between, 0);
            &&& first.ctx.modules.contains_key(id)
            &&& mid.ctx.modules.contains_key(id)
            &&& mid.ctx.modules[id] == first.ctx.modules[id]
            &&& obtain_module(catalog, recipes, mid.ctx, again_busy, id) == (Attached {
                ctx: mid.ctx,
                failure: None,
            })
        }),
{
    let first = obtain_module(catalog, recipes, ctx, busy, id);
    assert(first.ctx.modules.contains_key(id));
    lemma_attach_extends(catalog, recipes, first.ctx, between_busy, between, 0);
}

} // verus!
