//! The store of resolved capabilities: tokens, shared instances, graphs.

use vstd::prelude::*;
use std::collections::HashMap;

verus! {

broadcast use vstd::std_specs::hash::group_hash_axioms;

/// A handle to one shared capability instance. Two handles denote the same
/// instance exactly when they are equal.
#[derive(Clone, Copy, Debug, PartialEq, Eq, Structural)]
pub enum Instance {
    /// A value that was handed in ready-made, under the caller's own handle.
    Given(u64),
    /// The product of the construction at this position of the assembly's
    /// construction log.
    Built(usize),
}

/// Why an assembly pass failed.
#[derive(Clone, Copy, Debug, PartialEq, Eq, Structural)]
pub enum AssemblyError {
    /// The token has no instance in any consulted graph and no recipe.
    UnresolvedCapability(u64),
    /// Constructing the token requires the token itself.
    CyclicDependency(u64),
    /// Building the module with this identity requires that same module.
    ModuleImportCycle(u64),
    /// An import names a module identity that was never declared.
    UnknownModule(u64),
}

/// One run of a token's constructor: the token, and the instances that were
/// handed to it, in the order of the recipe's needs.
#[derive(Debug, PartialEq, Eq)]
pub struct Construction {
    pub token: u64,
    pub parts: Vec<Instance>,
}

/// A construction log as plain values, oldest first.
pub open spec fn log_view(built: Seq<Construction>) -> Seq<(u64, Seq<Instance>)> {
    Seq::new(built.len(), |i: int| (built[i].token, built[i].parts@))
}

/// A mapping from capability tokens to shared instances. A token has at most
/// one instance in a graph.
pub struct Graph {
    nodes: HashMap<u64, Instance>,
}

impl View for Graph {
    type V = Map<u64, Instance>;

    closed spec fn view(&self) -> Map<u64, Instance> {
        self.nodes@
    }
}

/// The first position at or after `from` whose graph holds `token`.
pub open spec fn first_holder(search: Seq<Map<u64, Instance>>, token: u64, from: int) -> Option<int>
    decreases search.len() - from,
{
    if from < 0 || from >= search.len() {
        None
    } else if search[from].contains_key(token) {
        Some(from)
    } else {
        first_holder(search, token, from + 1)
    }
}

/// The contents of a list of graphs, in order.
pub open spec fn search_view(search: Seq<&Graph>) -> Seq<Map<u64, Instance>> {
    Seq::new(search.len(), |i: int| search[i]@)
}

impl Graph {
    pub fn new() -> (g: Graph)
        ensures
            g@ == Map::<u64, Instance>::empty(),
    {
        Graph { nodes: HashMap::new() }
    }

    /// Installs `instance` under `token`; an earlier instance under the same
    /// token is replaced.
    pub fn provide(&mut self, token: u64, instance: Instance)
        ensures
            final(self)@ == old(self)@.insert(token, instance),
    {
        self.nodes.insert(token, instance);
    }

    /// Probes for `token` without constructing anything.
    pub fn get_node(&self, token: u64) -> (found: Option<Instance>)
        ensures
            found == (if self@.contains_key(token) {
                Some(self@[token])
            } else {
                None
            }),
    {
        match self.nodes.get(&token) {
            Some(instance) => Some(*instance),
            None => None,
        }
    }

    /// The restricted view that holds exactly the entries whose token occurs
    /// in `export_set`, with the same instances.
    pub fn filter_by(&self, export_set: &Vec<u64>) -> (visible: Graph)
        ensures
            visible@ == self@.restrict(export_set@.to_set()),
    {
        let mut visible = Graph::new();
        let mut i: usize = 0;
        while i < export_set.len()
            invariant
                i <= export_set.len(),
                visible@ == self@.restrict(export_set@.take(i as int).to_set()),
            decreases export_set.len() - i,
        {
            let token: u64 = export_set[i];
            proof {
                let before = export_set@.take(i as int);
                let after = export_set@.take(i as int + 1);
                assert(after == before.push(token));
                assert(forall|t: u64| after.contains(t) <==> (before.contains(t) || t == token)) by {
                    assert forall|t: u64| after.contains(t) implies (before.contains(t) || t == token) by {
                        let j = choose|j: int| 0 <= j < after.len() && after[j] == t;
                        if j < before.len() {
                            assert(before[j] == t);
                        }
                    }
                    assert forall|t: u64| (before.contains(t) || t == token) implies after.contains(t) by {
                        if before.contains(t) {
                            let j = choose|j: int| 0 <= j < before.len() && before[j] == t;
                            assert(after[j] == t);
                        } else {
                            assert(after[before.len() as int] == t);
                        }
                    }
                }
            }
            match self.get_node(token) {
                Some(instance) => {
                    visible.provide(token, instance);
                },
                None => {},
            }
            i = i + 1;
            assert(visible@ =~= self@.restrict(export_set@.take(i as int).to_set()));
        }
        assert(export_set@.take(export_set.len() as int) == export_set@);
        visible
    }

    /// Looks `token` up in the graphs of `search`, in order; the first graph
    /// that holds it decides.
    pub fn lookup(search: &Vec<&Graph>, token: u64) -> (found: Option<Instance>)
        ensures
            found == (match first_holder(search_view(search@), token, 0) {
                Some(i) => Some(search_view(search@)[i][token]),
                None => None,
            }),
    {
        let mut i: usize = 0;
        while i < search.len()
            invariant
                i <= search.len(),
                first_holder(search_view(search@), token, 0) == first_holder(
                    search_view(search@),
                    token,
                    i as int,
                ),
            decreases search.len() - i,
        {
            match search[i].get_node(token) {
                Some(instance) => {
                    return Some(instance);
                },
                None => {},
            }
            i = i + 1;
        }
        None
    }
}

} // verus!
