//! Recursive, memoizing resolution of capability tokens.

use vstd::prelude::*;
use crate::graph::{
    first_holder, log_view, search_view, AssemblyError, Construction, Graph, Instance,
};
use crate::recipe::{recipe_index, Registry};

verus! {

/// What one resolution leaves behind: the graph, the construction log, and
/// the instance or the failure.
pub struct Resolution {
    pub graph: Map<u64, Instance>,
    pub built: Seq<(u64, Seq<Instance>)>,
    pub result: Result<Instance, AssemblyError>,
}

/// What resolving a list of tokens leaves behind: the graph, the construction
/// log, the instances obtained so far, and the failure that stopped it, if any.
pub struct Progress {
    pub graph: Map<u64, Instance>,
    pub built: Seq<(u64, Seq<Instance>)>,
    pub got: Seq<Instance>,
    pub failure: Option<AssemblyError>,
}

/// How many recipes are not under construction.
pub open spec fn count_idle(busy: Seq<bool>) -> nat
    decreases busy.len(),
{
    if busy.len() == 0 {
        0
    } else {
        count_idle(busy.drop_last()) + if busy.last() {
            0nat
        } else {
            1nat
        }
    }
}

/// Marks for `n` recipes, none under construction.
pub open spec fn idle(n: nat) -> Seq<bool> {
    Seq::new(n, |i: int| false)
}

/// Putting one idle recipe under construction leaves one fewer idle.
pub proof fn lemma_mark_busy(busy: Seq<bool>, k: int)
    requires
        0 <= k < busy.len(),
        !busy[k],
    ensures
        count_idle(busy.update(k, true)) + 1 == count_idle(busy),
    decreases busy.len(),
{
    let marked = busy.update(k, true);
    if k == busy.len() - 1 {
        assert(marked.drop_last() =~= busy.drop_last());
    } else {
        assert(marked.drop_last() =~= busy.drop_last().update(k, true));
        lemma_mark_busy(busy.drop_last(), k);
    }
}

/// The instance for `token` and the state that producing it leaves.
///
/// The graph itself is consulted first, then the graphs of `search` in
/// order. A token found nowhere is constructed from its recipe: its needs are
/// resolved in order, the construction is appended to the log, and the new
/// instance is recorded in the graph. A token with neither instance nor
/// recipe is unresolved; a token whose recipe is already under construction
/// is cyclic.
pub open spec fn resolve_token(
    recipes: Seq<(u64, Seq<u64>)>,
    search: Seq<Map<u64, Instance>>,
    graph: Map<u64, Instance>,
    built: Seq<(u64, Seq<Instance>)>,
    busy: Seq<bool>,
    token: u64,
) -> Resolution
    decreases count_idle(busy), 0nat, 0nat,
{
    if graph.contains_key(token) {
        Resolution { graph, built, result: Ok(graph[token]) }
    } else {
        match first_holder(search, token, 0) {
            Some(i) => Resolution {
                graph: graph.insert(token, search[i][token]),
                built,
                result: Ok(search[i][token]),
            },
            None => match recipe_index(recipes, token, 0) {
                None => Resolution {
                    graph,
                    built,
                    result: Err(AssemblyError::UnresolvedCapability(token)),
                },
                Some(k) => if !(0 <= k < busy.len()) || busy[k] {
                    Resolution { graph, built, result: Err(AssemblyError::CyclicDependency(token)) }
                } else {
                    proof {
                        lemma_mark_busy(busy, k);
                    }
                    let p = resolve_needs(
                        recipes,
                        search,
                        graph,
                        built,
                        busy.update(k, true),
                        recipes[k].1,
                        0,
                        Seq::empty(),
                    );
                    match p.failure {
                        Some(e) => Resolution { graph: p.graph, built: p.built, result: Err(e) },
                        None => {
                            let made = Instance::Built(p.built.len() as usize);
                            Resolution {
                                graph: p.graph.insert(token, made),
                                built: p.built.push((token, p.got)),
                                result: Ok(made),
                            }
                        },
                    }
                },
            },
        }
    }
}

/// Resolves `needs[from..]` in order, each against the state the one before
/// left, and stops at the first failure.
pub open spec fn resolve_needs(
    recipes: Seq<(u64, Seq<u64>)>,
    search: Seq<Map<u64, Instance>>,
    graph: Map<u64, Instance>,
    built: Seq<(u64, Seq<Instance>)>,
    busy: Seq<bool>,
    needs: Seq<u64>,
    from: int,
    got: Seq<Instance>,
) -> Progress
    decreases count_idle(busy), 1nat, needs.len() - from,
{
    if from < 0 || from >= needs.len() {
        Progress { graph, built, got, failure: None }
    } else {
        let r = resolve_token(recipes, search, graph, built, busy, needs[from]);
        match r.result {
            Err(e) => Progress { graph: r.graph, built: r.built, got, failure: Some(e) },
            Ok(instance) => resolve_needs(
                recipes,
                search,
                r.graph,
                r.built,
                busy,
                needs,
                from + 1,
                got.push(instance),
            ),
        }
    }
}

/// Resolves `token` while the recipes marked in `busy` are under
/// construction; the marks are as before on return.
fn resolve_marked(
    graph: &mut Graph,
    token: u64,
    search: &Vec<&Graph>,
    registry: &Registry,
    built: &mut Vec<Construction>,
    busy: &mut Vec<bool>,
) -> (result: Result<Instance, AssemblyError>)
    requires
        old(busy)@.len() == registry@.len(),
    ensures
        final(busy)@ == old(busy)@,
        (Resolution { graph: final(graph)@, built: log_view(final(built)@), result }) == resolve_token(
            registry@,
            search_view(search@),
            old(graph)@,
            log_view(old(built)@),
            old(busy)@,
            token,
        ),
    decreases count_idle(old(busy)@),
{
    match graph.get_node(token) {
        Some(instance) => {
            return Ok(instance);
        },
        None => {},
    }
    match Graph::lookup(search, token) {
        Some(instance) => {
            graph.provide(token, instance);
            return Ok(instance);
        },
        None => {},
    }
    let k: usize = match registry.find(token) {
        None => {
            return Err(AssemblyError::UnresolvedCapability(token));
        },
        Some(k) => k,
    };
    if busy[k] {
        return Err(AssemblyError::CyclicDependency(token));
    }
    let ghost idle_before = busy@;
    let ghost graph_before = graph@;
    let ghost built_before = log_view(built@);
    busy.set(k, true);
    proof {
        lemma_mark_busy(idle_before, k as int);
    }
    let ghost marked = busy@;
    let mut parts: Vec<Instance> = Vec::new();
    let needs = &registry.recipes[k].needs;
    assert(registry@[k as int].1 == needs@);
    let mut i: usize = 0;
    while i < needs.len()
        invariant
            i <= needs.len(),
            busy@ == marked,
            idle_before == old(busy)@,
            graph_before == old(graph)@,
            built_before == log_view(old(built)@),
            k < idle_before.len(),
            !idle_before[k as int],
            !graph_before.contains_key(token),
            first_holder(search_view(search@), token, 0) is None,
            recipe_index(registry@, token, 0) == Some(k as int),
            registry@[k as int].1 == needs@,
            marked == idle_before.update(k as int, true),
            marked.len() == registry@.len(),
            count_idle(marked) < count_idle(idle_before),
            resolve_needs(
                registry@,
                search_view(search@),
                graph_before,
                built_before,
                marked,
                needs@,
                0,
                Seq::empty(),
            ) == resolve_needs(
                registry@,
                search_view(search@),
                graph@,
                log_view(built@),
                marked,
                needs@,
                i as int,
                parts@,
            ),
        decreases needs.len() - i,
    {
        match resolve_marked(graph, needs[i], search, registry, built, busy) {
            Ok(instance) => {
                parts.push(instance);
            },
            Err(e) => {
                busy.set(k, false);
                assert(busy@ =~= idle_before);
                return Err(e);
            },
        }
        i = i + 1;
    }
    busy.set(k, false);
    assert(busy@ =~= idle_before);
    let made = Instance::Built(built.len());
    let ghost log_before = log_view(built@);
    built.push(Construction { token, parts });
    assert(log_view(built@) =~= log_before.push((token, parts@)));
    graph.provide(token, made);
    Ok(made)
}

/// `n` marks, none set.
pub(crate) fn idle_marks(n: usize) -> (busy: Vec<bool>)
    ensures
        busy@ == idle(n as nat),
{
    let mut busy: Vec<bool> = Vec::new();
    let mut i: usize = 0;
    while i < n
        invariant
            i <= n,
            busy@ == idle(i as nat),
        decreases n - i,
    {
        busy.push(false);
        i = i + 1;
        assert(busy@ =~= idle(i as nat));
    }
    busy
}

impl Graph {
    /// Returns the shared instance for `token`, constructing and recording
    /// it, with everything it needs, where no consulted graph holds it.
    pub fn resolve(
        &mut self,
        token: u64,
        search: &Vec<&Graph>,
        registry: &Registry,
        built: &mut Vec<Construction>,
    ) -> (result: Result<Instance, AssemblyError>)
        ensures
            (Resolution { graph: final(self)@, built: log_view(final(built)@), result }) == resolve_token(
                registry@,
                search_view(search@),
                old(self)@,
                log_view(old(built)@),
                idle(registry@.len()),
                token,
            ),
    {
        let mut busy = idle_marks(registry.recipes.len());
        resolve_marked(self, token, search, registry, built, &mut busy)
    }

    /// Resolves `tokens` in order and returns their instances in that order,
    /// or the first failure.
    pub fn resolve_all(
        &mut self,
        tokens: &Vec<u64>,
        search: &Vec<&Graph>,
        registry: &Registry,
        built: &mut Vec<Construction>,
    ) -> (result: Result<Vec<Instance>, AssemblyError>)
        ensures
            ({
                let p = resolve_needs(
                    registry@,
                    search_view(search@),
                    old(self)@,
                    log_view(old(built)@),
                    idle(registry@.len()),
                    tokens@,
                    0,
                    Seq::empty(),
                );
                &&& final(self)@ == p.graph
                &&& log_view(final(built)@) == p.built
                &&& match result {
                    Ok(instances) => p.failure is None && instances@ == p.got,
                    Err(e) => p.failure == Some(e),
                }
            }),
    {
        let mut busy = idle_marks(registry.recipes.len());
        let mut instances: Vec<Instance> = Vec::new();
        let mut i: usize = 0;
        while i < tokens.len()
            invariant
                i <= tokens.len(),
                busy@ == idle(registry@.len()),
                resolve_needs(
                    registry@,
                    search_view(search@),
                    old(self)@,
                    log_view(old(built)@),
                    idle(registry@.len()),
                    tokens@,
                    0,
                    Seq::empty(),
                ) == resolve_needs(
                    registry@,
                    search_view(search@),
                    self@,
                    log_view(built@),
                    idle(registry@.len()),
                    tokens@,
                    i as int,
                    instances@,
                ),
            decreases tokens.len() - i,
        {
            match resolve_marked(self, tokens[i], search, registry, built, &mut busy) {
                Ok(instance) => {
                    instances.push(instance);
                },
                Err(e) => {
                    return Err(e);
                },
            }
            i = i + 1;
        }
        Ok(instances)
    }
}

} // verus!
