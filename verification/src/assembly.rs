//! The build protocol: imports first, then provided values, then providers,
//! then clients, then the exported view.

use vstd::prelude::*;
use std::collections::HashMap;
use crate::graph::{log_view, search_view, AssemblyError, Construction, Graph, Instance};
use crate::module::{
    catalog_index, memo_view, ApplicationContext, Assembly, Catalog, Declaration, Module,
    Resolved, ResolvedModule,
};
use crate::recipe::Registry;
use crate::resolve::{count_idle, idle, idle_marks, lemma_mark_busy, resolve_needs};

verus! {

broadcast use vstd::std_specs::hash::group_hash_axioms;

/// The state an attempt to obtain modules leaves, and the failure that
/// stopped it, if any.
pub struct Attached {
    pub ctx: Assembly,
    pub failure: Option<AssemblyError>,
}

/// The state a build leaves, and the module or the failure.
pub struct Built {
    pub ctx: Assembly,
    pub result: Result<Resolved, AssemblyError>,
}

/// `graph` after the values `vals[from..]` were installed in order, each
/// under its token; a later value replaces an earlier one for the same token.
pub open spec fn install_values(graph: Map<u64, Instance>, vals: Seq<(u64, u64)>, from: int) -> Map<
    u64,
    Instance,
>
    decreases vals.len() - from,
{
    if from < 0 || from >= vals.len() {
        graph
    } else {
        install_values(graph.insert(vals[from].0, Instance::Given(vals[from].1)), vals, from + 1)
    }
}

/// `acc`, followed by the exported graph of each module of `imports[from..]`
/// that the memo holds, in order.
pub open spec fn import_graphs(
    modules: Map<u64, Resolved>,
    imports: Seq<u64>,
    from: int,
    acc: Seq<Map<u64, Instance>>,
) -> Seq<Map<u64, Instance>>
    decreases imports.len() - from,
{
    if from < 0 || from >= imports.len() {
        acc
    } else if modules.contains_key(imports[from]) {
        import_graphs(modules, imports, from + 1, acc.push(modules[imports[from]].exports))
    } else {
        import_graphs(modules, imports, from + 1, acc)
    }
}

/// The graphs that a module with these imports consults after its own: the
/// global one, then each import's exported graph in declaration order.
pub open spec fn search_graphs(ctx: Assembly, imports: Seq<u64>) -> Seq<Map<u64, Instance>> {
    import_graphs(ctx.modules, imports, 0, seq![ctx.global])
}

/// What building `decl` yields once its imports are in the memo: provided
/// values are installed into an empty graph, then the providers are resolved
/// in order, then the clients; the exported graph is the module's graph
/// restricted to the export marks.
pub open spec fn finish_module(recipes: Seq<(u64, Seq<u64>)>, ctx: Assembly, decl: Declaration) -> Built {
    let search = search_graphs(ctx, decl.imports);
    let seeded = install_values(Map::empty(), decl.provider_vals, 0);
    let p = resolve_needs(
        recipes,
        search,
        seeded,
        ctx.built,
        idle(recipes.len()),
        decl.providers,
        0,
        Seq::empty(),
    );
    match p.failure {
        Some(e) => Built {
            ctx: Assembly { global: ctx.global, modules: ctx.modules, built: p.built },
            result: Err(e),
        },
        None => {
            let c = resolve_needs(
                recipes,
                search,
                p.graph,
                p.built,
                idle(recipes.len()),
                decl.clients,
                0,
                Seq::empty(),
            );
            match c.failure {
                Some(e) => Built {
                    ctx: Assembly { global: ctx.global, modules: ctx.modules, built: c.built },
                    result: Err(e),
                },
                None => Built {
                    ctx: Assembly { global: ctx.global, modules: ctx.modules, built: c.built },
                    result: Ok(
                        Resolved {
                            graph: c.graph,
                            imports: decl.imports,
                            exports: c.graph.restrict(decl.exports.to_set()),
                            clients: c.got,
                        },
                    ),
                },
            }
        },
    }
}

/// The state after the module `id` was obtained: unchanged where the memo
/// holds it; else its declaration is built and the result is recorded in the
/// memo. An undeclared identity is unknown; one whose build is already under
/// way is an import cycle.
pub open spec fn obtain_module(
    catalog: Seq<(u64, Declaration)>,
    recipes: Seq<(u64, Seq<u64>)>,
    ctx: Assembly,
    busy: Seq<bool>,
    id: u64,
) -> Attached
    decreases count_idle(busy), 0nat, 0nat,
{
    if ctx.modules.contains_key(id) {
        Attached { ctx, failure: None }
    } else {
        match catalog_index(catalog, id, 0) {
            None => Attached { ctx, failure: Some(AssemblyError::UnknownModule(id)) },
            Some(k) => if !(0 <= k < busy.len()) || busy[k] {
                Attached { ctx, failure: Some(AssemblyError::ModuleImportCycle(id)) }
            } else {
                proof {
                    lemma_mark_busy(busy, k);
                }
                let b = build_module(catalog, recipes, ctx, busy.update(k, true), catalog[k].1);
                match b.result {
                    Err(e) => Attached { ctx: b.ctx, failure: Some(e) },
                    Ok(m) => Attached {
                        ctx: Assembly {
                            global: b.ctx.global,
                            modules: b.ctx.modules.insert(id, m),
                            built: b.ctx.built,
                        },
                        failure: None,
                    },
                }
            },
        }
    }
}

/// Obtains the modules `imports[from..]` in order and stops at the first
/// failure.
pub open spec fn attach_imports(
    catalog: Seq<(u64, Declaration)>,
    recipes: Seq<(u64, Seq<u64>)>,
    ctx: Assembly,
    busy: Seq<bool>,
    imports: Seq<u64>,
    from: int,
) -> Attached
    decreases count_idle(busy), 1nat, imports.len() - from,
{
    if from < 0 || from >= imports.len() {
        Attached { ctx, failure: None }
    } else {
        let a = obtain_module(catalog, recipes, ctx, busy, imports[from]);
        match a.failure {
            Some(e) => a,
            None => attach_imports(catalog, recipes, a.ctx, busy, imports, from + 1),
        }
    }
}

/// What building `decl` yields: its imports are obtained in order, then the
/// module is finished against the state that leaves.
pub open spec fn build_module(
    catalog: Seq<(u64, Declaration)>,
    recipes: Seq<(u64, Seq<u64>)>,
    ctx: Assembly,
    busy: Seq<bool>,
    decl: Declaration,
) -> Built
    decreases count_idle(busy), 2nat, 0nat,
{
    let a = attach_imports(catalog, recipes, ctx, busy, decl.imports, 0);
    match a.failure {
        Some(e) => Built { ctx: a.ctx, result: Err(e) },
        None => finish_module(recipes, a.ctx, decl),
    }
}

/// A build result as plain values.
pub open spec fn result_view(result: Result<ResolvedModule, AssemblyError>) -> Result<
    Resolved,
    AssemblyError,
> {
    match result {
        Ok(m) => Ok(m@),
        Err(e) => Err(e),
    }
}

/// A copy of `tokens`.
fn copy_tokens(tokens: &Vec<u64>) -> (copy: Vec<u64>)
    ensures
        copy@ == tokens@,
{
    let mut copy: Vec<u64> = Vec::new();
    let mut i: usize = 0;
    while i < tokens.len()
        invariant
            i <= tokens.len(),
            copy@ == tokens@.take(i as int),
        decreases tokens.len() - i,
    {
        copy.push(tokens[i]);
        i = i + 1;
        assert(copy@ =~= tokens@.take(i as int));
    }
    assert(tokens@.take(tokens.len() as int) =~= tokens@);
    copy
}

impl Module {
    /// Finishes a module whose imports the memo `modules` holds: installs its
    /// provided values, resolves its providers and then its clients against
    /// its own graph, `global` and its imports' exported graphs, and computes
    /// its exported graph.
    pub fn assemble(
        &self,
        global: &Graph,
        modules: &HashMap<u64, ResolvedModule>,
        registry: &Registry,
        built: &mut Vec<Construction>,
    ) -> (result: Result<ResolvedModule, AssemblyError>)
        ensures
            ({
                let before = Assembly {
                    global: global@,
                    modules: memo_view(modules@),
                    built: log_view(old(built)@),
                };
                let b = finish_module(registry@, before, self@);
                &&& log_view(final(built)@) == b.ctx.built
                &&& result_view(result) == b.result
            }),
    {
        let ghost memo = memo_view(modules@);
        let mut search: Vec<&Graph> = Vec::new();
        search.push(global);
        assert(search_view(search@) =~= seq![global@]);
        let mut i: usize = 0;
        while i < self.imports.len()
            invariant
                i <= self.imports.len(),
                memo == memo_view(modules@),
                import_graphs(memo, self.imports@, 0, seq![global@]) == import_graphs(
                    memo,
                    self.imports@,
                    i as int,
                    search_view(search@),
                ),
            decreases self.imports.len() - i,
        {
            let ghost before = search_view(search@);
            match modules.get(&self.imports[i]) {
                Some(m) => {
                    search.push(&m.graphed_exports);
                    assert(search_view(search@) =~= before.push(m.graphed_exports@));
                },
                None => {},
            }
            i = i + 1;
        }
        let mut graph = Graph::new();
        let mut j: usize = 0;
        while j < self.provider_vals.len()
            invariant
                j <= self.provider_vals.len(),
                install_values(Map::empty(), self.provider_vals@, 0) == install_values(
                    graph@,
                    self.provider_vals@,
                    j as int,
                ),
            decreases self.provider_vals.len() - j,
        {
            let (token, value) = self.provider_vals[j];
            graph.provide(token, Instance::Given(value));
            j = j + 1;
        }
        match graph.resolve_all(&self.providers, &search, registry, built) {
            Err(e) => {
                return Err(e);
            },
            Ok(_) => {},
        }
        let clients = match graph.resolve_all(&self.clients, &search, registry, built) {
            Err(e) => {
                return Err(e);
            },
            Ok(clients) => clients,
        };
        let graphed_exports = graph.filter_by(&self.exports);
        Ok(ResolvedModule { graph, imports: copy_tokens(&self.imports), graphed_exports, clients })
    }
}

/// An attempt's outcome as the failure that stopped it, if any.
pub open spec fn failure_of(result: Result<(), AssemblyError>) -> Option<AssemblyError> {
    match result {
        Ok(_) => None,
        Err(e) => Some(e),
    }
}

/// Makes sure the memo holds the module `id` while the declarations marked
/// in `busy` are being built; the marks are as before on return.
fn obtain_marked(
    ctx: &mut ApplicationContext,
    id: u64,
    catalog: &Catalog,
    registry: &Registry,
    busy: &mut Vec<bool>,
) -> (result: Result<(), AssemblyError>)
    requires
        old(busy)@.len() == catalog@.len(),
    ensures
        final(busy)@ == old(busy)@,
        (Attached { ctx: final(ctx)@, failure: failure_of(result) }) == obtain_module(
            catalog@,
            registry@,
            old(ctx)@,
            old(busy)@,
            id,
        ),
    decreases count_idle(old(busy)@), 0nat,
{
    if ctx.modules.contains_key(&id) {
        return Ok(());
    }
    let k: usize = match catalog.find(id) {
        None => {
            return Err(AssemblyError::UnknownModule(id));
        },
        Some(k) => k,
    };
    if busy[k] {
        return Err(AssemblyError::ModuleImportCycle(id));
    }
    let ghost idle_before = busy@;
    busy.set(k, true);
    proof {
        lemma_mark_busy(idle_before, k as int);
    }
    let built = build_marked(&catalog.entries[k].module, ctx, catalog, registry, busy);
    busy.set(k, false);
    assert(busy@ =~= idle_before);
    match built {
        Err(e) => Err(e),
        Ok(m) => {
            let ghost memo = memo_view(ctx.modules@);
            ctx.modules.insert(id, m);
            assert(memo_view(ctx.modules@) =~= memo.insert(id, m@));
            Ok(())
        },
    }
}

/// Builds `decl` while the declarations marked in `busy` are being built;
/// the marks are as before on return.
fn build_marked(
    decl: &Module,
    ctx: &mut ApplicationContext,
    catalog: &Catalog,
    registry: &Registry,
    busy: &mut Vec<bool>,
) -> (result: Result<ResolvedModule, AssemblyError>)
    requires
        old(busy)@.len() == catalog@.len(),
    ensures
        final(busy)@ == old(busy)@,
        (Built { ctx: final(ctx)@, result: result_view(result) }) == build_module(
            catalog@,
            registry@,
            old(ctx)@,
            old(busy)@,
            decl@,
        ),
    decreases count_idle(old(busy)@), 1nat,
{
    let mut i: usize = 0;
    while i < decl.imports.len()
        invariant
            i <= decl.imports.len(),
            busy@ == old(busy)@,
            busy@.len() == catalog@.len(),
            attach_imports(catalog@, registry@, old(ctx)@, busy@, decl@.imports, 0)
                == attach_imports(catalog@, registry@, ctx@, busy@, decl@.imports, i as int),
        decreases decl.imports.len() - i,
    {
        match obtain_marked(ctx, decl.imports[i], catalog, registry, busy) {
            Err(e) => {
                return Err(e);
            },
            Ok(_) => {},
        }
        i = i + 1;
    }
    decl.assemble(&ctx.global_providers, &ctx.modules, registry, &mut ctx.built)
}

impl Module {
    /// Builds the module within the assembly pass `ctx`: obtains its imports,
    /// building and recording each one the memo lacks, then finishes the
    /// module itself.
    pub fn build(
        self,
        ctx: &mut ApplicationContext,
        catalog: &Catalog,
        registry: &Registry,
    ) -> (result: Result<ResolvedModule, AssemblyError>)
        ensures
            (Built { ctx: final(ctx)@, result: result_view(result) }) == build_module(
                catalog@,
                registry@,
                old(ctx)@,
                idle(catalog@.len()),
                self@,
            ),
    {
        let mut busy = idle_marks(catalog.entries.len());
        build_marked(&self, ctx, catalog, registry, &mut busy)
    }
}

impl ApplicationContext {
    /// A pass with nothing provided, nothing built and nothing constructed.
    pub fn new() -> (ctx: ApplicationContext)
        ensures
            ctx@ == (Assembly { global: Map::empty(), modules: Map::empty(), built: Seq::empty() }),
    {
        let ctx = ApplicationContext {
            global_providers: Graph::new(),
            modules: HashMap::new(),
            built: Vec::new(),
        };
        assert(memo_view(ctx.modules@) =~= Map::<u64, Resolved>::empty());
        assert(log_view(ctx.built@) =~= Seq::<(u64, Seq<Instance>)>::empty());
        ctx
    }

    /// Makes sure the memo holds the module `id`: builds it from its
    /// declaration and records it unless it is there already.
    pub fn get_or_build(&mut self, id: u64, catalog: &Catalog, registry: &Registry) -> (result: Result<
        (),
        AssemblyError,
    >)
        ensures
            (Attached { ctx: final(self)@, failure: failure_of(result) }) == obtain_module(
                catalog@,
                registry@,
                old(self)@,
                idle(catalog@.len()),
                id,
            ),
    {
        let mut busy = idle_marks(catalog.entries.len());
        obtain_marked(self, id, catalog, registry, &mut busy)
    }
}

} // verus!
