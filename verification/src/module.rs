//! Module declarations and what building them yields.

use vstd::prelude::*;
use std::collections::HashMap;
use crate::graph::{log_view, Construction, Graph, Instance};

verus! {

/// What a module declares, as plain sequences in declaration order.
pub struct Declaration {
    pub exports: Seq<u64>,
    pub tokens: Seq<u64>,
    pub imports: Seq<u64>,
    pub providers: Seq<u64>,
    pub provider_vals: Seq<(u64, u64)>,
    pub clients: Seq<u64>,
}

/// A module under declaration: what it imports, exports, provides and exposes
/// to the host. Each declaring operation hands back the extended builder.
pub struct Module {
    pub exports: Vec<u64>,
    pub tokens: Vec<u64>,
    pub imports: Vec<u64>,
    pub providers: Vec<u64>,
    pub provider_vals: Vec<(u64, u64)>,
    pub clients: Vec<u64>,
}

impl View for Module {
    type V = Declaration;

    open spec fn view(&self) -> Declaration {
        Declaration {
            exports: self.exports@,
            tokens: self.tokens@,
            imports: self.imports@,
            providers: self.providers@,
            provider_vals: self.provider_vals@,
            clients: self.clients@,
        }
    }
}

/// A declaration with nothing in it.
pub open spec fn empty_declaration() -> Declaration {
    Declaration {
        exports: Seq::empty(),
        tokens: Seq::empty(),
        imports: Seq::empty(),
        providers: Seq::empty(),
        provider_vals: Seq::empty(),
        clients: Seq::empty(),
    }
}

impl Module {
    pub fn new() -> (module: Module)
        ensures
            module@ == empty_declaration(),
    {
        Module {
            exports: Vec::new(),
            tokens: Vec::new(),
            imports: Vec::new(),
            providers: Vec::new(),
            provider_vals: Vec::new(),
            clients: Vec::new(),
        }
    }

    /// Declares that the module with identity `module` is imported.
    pub fn import(self, module: u64) -> (extended: Module)
        ensures
            extended@ == (Declaration { imports: self@.imports.push(module), ..self@ }),
    {
        let mut extended = self;
        extended.imports.push(module);
        extended
    }

    /// Marks `token` as visible to importers.
    pub fn export(self, token: u64) -> (extended: Module)
        ensures
            extended@ == (Declaration { exports: self@.exports.push(token), ..self@ }),
    {
        let mut extended = self;
        extended.exports.push(token);
        extended
    }

    /// Marks the token of a provided value as visible to importers.
    pub fn export_val(self, token: u64) -> (extended: Module)
        ensures
            extended@ == (Declaration { exports: self@.exports.push(token), ..self@ }),
    {
        let mut extended = self;
        extended.exports.push(token);
        extended
    }

    /// Declares that the module supplies `token` by construction.
    pub fn provide(self, token: u64) -> (extended: Module)
        ensures
            extended@ == (Declaration {
                providers: self@.providers.push(token),
                tokens: self@.tokens.push(token),
                ..self@
            }),
    {
        let mut extended = self;
        extended.providers.push(token);
        extended.tokens.push(token);
        extended
    }

    /// Declares that the module supplies `token` as the ready-made value with
    /// handle `value`.
    pub fn provide_val(self, token: u64, value: u64) -> (extended: Module)
        ensures
            extended@ == (Declaration {
                provider_vals: self@.provider_vals.push((token, value)),
                tokens: self@.tokens.push(token),
                ..self@
            }),
    {
        let mut extended = self;
        extended.provider_vals.push((token, value));
        extended.tokens.push(token);
        extended
    }

    /// Declares `token` as a capability that also registers with the host.
    pub fn client(self, token: u64) -> (extended: Module)
        ensures
            extended@ == (Declaration {
                clients: self@.clients.push(token),
                tokens: self@.tokens.push(token),
                ..self@
            }),
    {
        let mut extended = self;
        extended.clients.push(token);
        extended.tokens.push(token);
        extended
    }
}

/// A source of module declarations: each call yields a fresh builder.
pub trait ModuleFactory: Sized {
    fn get_module() -> Module;
}

/// A built module as plain values.
pub struct Resolved {
    pub graph: Map<u64, Instance>,
    pub imports: Seq<u64>,
    pub exports: Map<u64, Instance>,
    pub clients: Seq<Instance>,
}

/// The result of building a module: its own graph, the identities of the
/// modules it imports, the part of its graph that importers see, and its
/// clients in declaration order.
pub struct ResolvedModule {
    pub graph: Graph,
    pub imports: Vec<u64>,
    pub graphed_exports: Graph,
    pub clients: Vec<Instance>,
}

impl View for ResolvedModule {
    type V = Resolved;

    open spec fn view(&self) -> Resolved {
        Resolved {
            graph: self.graph@,
            imports: self.imports@,
            exports: self.graphed_exports@,
            clients: self.clients@,
        }
    }
}

impl ResolvedModule {
    pub fn new() -> (module: ResolvedModule)
        ensures
            module@ == (Resolved {
                graph: Map::empty(),
                imports: Seq::empty(),
                exports: Map::empty(),
                clients: Seq::empty(),
            }),
    {
        ResolvedModule {
            graph: Graph::new(),
            imports: Vec::new(),
            graphed_exports: Graph::new(),
            clients: Vec::new(),
        }
    }
}

/// The state of one assembly pass as plain values.
pub struct Assembly {
    pub global: Map<u64, Instance>,
    pub modules: Map<u64, Resolved>,
    pub built: Seq<(u64, Seq<Instance>)>,
}

/// The memo of built modules as plain values.
pub open spec fn memo_view(modules: Map<u64, ResolvedModule>) -> Map<u64, Resolved> {
    modules.map_values(|m: ResolvedModule| m@)
}

/// The state of one assembly pass: the capabilities that every module sees,
/// the modules built so far by identity, and the log of constructions in
/// the order they ran.
pub struct ApplicationContext {
    pub global_providers: Graph,
    pub modules: HashMap<u64, ResolvedModule>,
    pub built: Vec<Construction>,
}

impl View for ApplicationContext {
    type V = Assembly;

    open spec fn view(&self) -> Assembly {
        Assembly {
            global: self.global_providers@,
            modules: memo_view(self.modules@),
            built: log_view(self.built@),
        }
    }
}

/// The known module declarations by identity, as plain values.
pub struct Declared {
    pub id: u64,
    pub module: Module,
}

/// The module declarations that imports can name, in declaration order.
/// Where an identity was declared more than once, its first declaration
/// counts.
pub struct Catalog {
    pub entries: Vec<Declared>,
}

impl View for Catalog {
    type V = Seq<(u64, Declaration)>;

    open spec fn view(&self) -> Seq<(u64, Declaration)> {
        Seq::new(self.entries.len() as nat, |i: int| (self.entries[i].id, self.entries[i].module@))
    }
}

/// The first position at or after `from` that declares the module `id`.
pub open spec fn catalog_index(catalog: Seq<(u64, Declaration)>, id: u64, from: int) -> Option<int>
    decreases catalog.len() - from,
{
    if from < 0 || from >= catalog.len() {
        None
    } else if catalog[from].0 == id {
        Some(from)
    } else {
        catalog_index(catalog, id, from + 1)
    }
}

impl Catalog {
    pub fn new() -> (catalog: Catalog)
        ensures
            catalog@ == Seq::<(u64, Declaration)>::empty(),
    {
        let catalog = Catalog { entries: Vec::new() };
        assert(catalog@ =~= Seq::<(u64, Declaration)>::empty());
        catalog
    }

    /// Declares `module` under the identity `id`.
    pub fn declare(self, id: u64, module: Module) -> (catalog: Catalog)
        ensures
            catalog@ == self@.push((id, module@)),
    {
        let mut entries = self.entries;
        entries.push(Declared { id, module });
        let catalog = Catalog { entries };
        assert(catalog@ =~= self@.push((id, module@)));
        catalog
    }

    /// Declares, under the identity `id`, the module that the factory `F`
    /// yields.
    pub fn register<F: ModuleFactory>(self, id: u64) -> (catalog: Catalog)
        ensures
            catalog@.len() == self@.len() + 1,
            catalog@.drop_last() == self@,
            catalog@.last().0 == id,
    {
        let module = F::get_module();
        let catalog = self.declare(id, module);
        assert(catalog@.drop_last() =~= self@);
        catalog
    }

    /// The position of the declaration that counts for `id`, if it has one.
    pub fn find(&self, id: u64) -> (found: Option<usize>)
        ensures
            match found {
                Some(k) => catalog_index(self@, id, 0) == Some(k as int) && k < self.entries.len(),
                None => catalog_index(self@, id, 0) is None,
            },
    {
        let mut i: usize = 0;
        while i < self.entries.len()
            invariant
                i <= self.entries.len(),
                catalog_index(self@, id, 0) == catalog_index(self@, id, i as int),
            decreases self.entries.len() - i,
        {
            if self.entries[i].id == id {
                return Some(i);
            }
            i = i + 1;
        }
        None
    }
}

} // verus!
