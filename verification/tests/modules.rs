use sept::graph::{AssemblyError, Construction, Instance};
use sept::host::{register_all, ServiceFactory};
use sept::module::{ApplicationContext, Catalog, Module, ModuleFactory};
use sept::recipe::Registry;
use std::sync::atomic::{AtomicUsize, Ordering};
use std::sync::Arc;

const SERVICE: u64 = 1;
const STORE: u64 = 2;
const CLOCK: u64 = 3;

const EXPORTING: u64 = 100;
const LEFT: u64 = 101;
const RIGHT: u64 = 102;
const PARENT: u64 = 103;

fn constructed(built: &Vec<Construction>) -> Vec<u64> {
    built.iter().map(|c| c.token).collect()
}

fn get_empty_ctx() -> ApplicationContext {
    ApplicationContext::new()
}

struct ExportingModule;

impl ModuleFactory for ExportingModule {
    fn get_module() -> Module {
        Module::new().export(SERVICE).provide(SERVICE)
    }
}

#[test]
fn test_client_is_reachable() {
    let registry = Registry::new().declare(SERVICE, vec![]);
    let mut ctx = get_empty_ctx();
    let resolved = Module::new()
        .client(SERVICE)
        .build(&mut ctx, &Catalog::new(), &registry)
        .unwrap();
    assert_eq!(resolved.clients.len(), 1);
}

#[test]
fn test_imported_provider_is_reachable() {
    let registry = Registry::new().declare(SERVICE, vec![]);
    let catalog = Catalog::new().register::<ExportingModule>(EXPORTING);
    let mut ctx = get_empty_ctx();
    let resolved = Module::new()
        .import(EXPORTING)
        .build(&mut ctx, &catalog, &registry)
        .unwrap();
    assert_eq!(resolved.imports.len(), 1);

    assert!(ctx.modules[&resolved.imports[0]]
        .graph
        .get_node(SERVICE)
        .is_some());
}

#[test]
fn builder_records_declarations_in_order() {
    let m = Module::new()
        .import(EXPORTING)
        .export(SERVICE)
        .export_val(CLOCK)
        .provide(SERVICE)
        .provide_val(CLOCK, 9)
        .client(STORE);
    assert_eq!(m.imports, vec![EXPORTING]);
    assert_eq!(m.exports, vec![SERVICE, CLOCK]);
    assert_eq!(m.providers, vec![SERVICE]);
    assert_eq!(m.provider_vals, vec![(CLOCK, 9)]);
    assert_eq!(m.clients, vec![STORE]);
    assert_eq!(m.tokens, vec![SERVICE, CLOCK, STORE]);
}

#[test]
fn imported_client_is_the_exporters_instance() {
    let registry = Registry::new().declare(SERVICE, vec![]);
    let catalog = Catalog::new().register::<ExportingModule>(EXPORTING);
    let mut ctx = get_empty_ctx();
    let b = Module::new()
        .import(EXPORTING)
        .client(SERVICE)
        .build(&mut ctx, &catalog, &registry)
        .unwrap();
    let in_a = ctx.modules[&EXPORTING].graph.get_node(SERVICE);
    assert_eq!(in_a, Some(Instance::Built(0)));
    assert_eq!(b.clients, vec![Instance::Built(0)]);
    assert_eq!(b.graph.get_node(SERVICE), in_a);
    assert_eq!(constructed(&ctx.built), vec![SERVICE]);
}

#[test]
fn missing_need_is_named() {
    let registry = Registry::new().declare(SERVICE, vec![STORE]);
    let mut ctx = get_empty_ctx();
    let got = Module::new().provide(SERVICE).build(&mut ctx, &Catalog::new(), &registry);
    assert_eq!(got.err(), Some(AssemblyError::UnresolvedCapability(STORE)));
}

#[test]
fn diamond_import_builds_once() {
    let registry = Registry::new().declare(SERVICE, vec![]);
    let catalog = Catalog::new()
        .register::<ExportingModule>(EXPORTING)
        .declare(LEFT, Module::new().import(EXPORTING).client(SERVICE))
        .declare(RIGHT, Module::new().import(EXPORTING).client(SERVICE));
    let mut ctx = get_empty_ctx();
    let p = Module::new()
        .import(LEFT)
        .import(RIGHT)
        .build(&mut ctx, &catalog, &registry)
        .unwrap();
    assert_eq!(p.imports, vec![LEFT, RIGHT]);
    assert_eq!(ctx.built.iter().filter(|c| c.token == SERVICE).count(), 1);
    assert_eq!(constructed(&ctx.built), vec![SERVICE]);
    assert_eq!(ctx.modules.len(), 3);
    assert_eq!(ctx.modules[&LEFT].imports, vec![EXPORTING]);
    assert_eq!(ctx.modules[&RIGHT].imports, vec![EXPORTING]);
    assert_eq!(ctx.modules[&LEFT].clients, ctx.modules[&RIGHT].clients);
    assert_eq!(ctx.modules[&LEFT].clients, vec![Instance::Built(0)]);
}

#[test]
fn mutual_imports_are_reported() {
    let catalog = Catalog::new()
        .declare(LEFT, Module::new().import(RIGHT))
        .declare(RIGHT, Module::new().import(LEFT));
    let mut ctx = get_empty_ctx();
    let got = ctx.get_or_build(LEFT, &catalog, &Registry::new());
    assert_eq!(got, Err(AssemblyError::ModuleImportCycle(LEFT)));
    let mut ctx = get_empty_ctx();
    let got = Module::new().import(RIGHT).build(&mut ctx, &catalog, &Registry::new());
    assert_eq!(got.err(), Some(AssemblyError::ModuleImportCycle(RIGHT)));
}

#[test]
fn undeclared_import_is_reported() {
    let mut ctx = get_empty_ctx();
    let got = Module::new().import(PARENT).build(&mut ctx, &Catalog::new(), &Registry::new());
    assert_eq!(got.err(), Some(AssemblyError::UnknownModule(PARENT)));
}

#[test]
fn unexported_token_is_not_visible_to_importers() {
    let registry = Registry::new().declare(SERVICE, vec![]).declare(STORE, vec![]);
    let catalog = Catalog::new().declare(
        EXPORTING,
        Module::new().provide(SERVICE).provide(STORE).export(SERVICE),
    );
    let mut ctx = get_empty_ctx();
    let b = Module::new()
        .import(EXPORTING)
        .provide(SERVICE)
        .provide(STORE)
        .build(&mut ctx, &catalog, &registry)
        .unwrap();
    let a = &ctx.modules[&EXPORTING];
    assert_eq!(a.graph.get_node(STORE), Some(Instance::Built(1)));
    assert_eq!(a.graphed_exports.get_node(STORE), None);
    assert_eq!(a.graphed_exports.get_node(SERVICE), Some(Instance::Built(0)));
    assert_eq!(b.graph.get_node(SERVICE), Some(Instance::Built(0)));
    assert_eq!(b.graph.get_node(STORE), Some(Instance::Built(2)));
    assert_eq!(constructed(&ctx.built), vec![SERVICE, STORE, STORE]);
}

#[test]
fn global_graph_comes_before_imports() {
    let registry = Registry::new().declare(SERVICE, vec![]);
    let catalog = Catalog::new().register::<ExportingModule>(EXPORTING);
    let mut ctx = get_empty_ctx();
    ctx.global_providers.provide(SERVICE, Instance::Given(5));
    let b = Module::new()
        .import(EXPORTING)
        .client(SERVICE)
        .build(&mut ctx, &catalog, &registry)
        .unwrap();
    assert_eq!(b.clients, vec![Instance::Given(5)]);
    assert_eq!(ctx.modules[&EXPORTING].graph.get_node(SERVICE), Some(Instance::Given(5)));
    assert_eq!(constructed(&ctx.built), Vec::<u64>::new());
}

#[test]
fn imports_are_consulted_in_declaration_order() {
    let catalog = Catalog::new()
        .declare(LEFT, Module::new().provide_val(CLOCK, 1).export_val(CLOCK))
        .declare(RIGHT, Module::new().provide_val(CLOCK, 2).export_val(CLOCK));
    let registry = Registry::new();
    let mut ctx = get_empty_ctx();
    let first = Module::new()
        .import(LEFT)
        .import(RIGHT)
        .client(CLOCK)
        .build(&mut ctx, &catalog, &registry)
        .unwrap();
    assert_eq!(first.clients, vec![Instance::Given(1)]);
    let second = Module::new()
        .import(RIGHT)
        .import(LEFT)
        .client(CLOCK)
        .build(&mut ctx, &catalog, &registry)
        .unwrap();
    assert_eq!(second.clients, vec![Instance::Given(2)]);
}

#[test]
fn provided_values_come_before_providers() {
    let registry = Registry::new().declare(SERVICE, vec![CLOCK]);
    let mut ctx = get_empty_ctx();
    let m = Module::new()
        .provide(SERVICE)
        .provide_val(CLOCK, 1)
        .provide_val(CLOCK, 2)
        .build(&mut ctx, &Catalog::new(), &registry)
        .unwrap();
    assert_eq!(m.graph.get_node(CLOCK), Some(Instance::Given(2)));
    assert_eq!(m.graph.get_node(SERVICE), Some(Instance::Built(0)));
    assert_eq!(m.graphed_exports.get_node(SERVICE), None);
    assert_eq!(
        ctx.built,
        vec![Construction { token: SERVICE, parts: vec![Instance::Given(2)] }]
    );
}

#[test]
fn get_or_build_reuses_the_memo() {
    let registry = Registry::new().declare(SERVICE, vec![]);
    let catalog = Catalog::new().register::<ExportingModule>(EXPORTING);
    let mut ctx = get_empty_ctx();
    assert_eq!(ctx.get_or_build(EXPORTING, &catalog, &registry), Ok(()));
    assert_eq!(constructed(&ctx.built), vec![SERVICE]);
    assert_eq!(ctx.get_or_build(EXPORTING, &catalog, &registry), Ok(()));
    assert_eq!(constructed(&ctx.built), vec![SERVICE]);
    assert_eq!(ctx.modules.len(), 1);
}

#[test]
fn catalog_find_takes_the_first_declaration() {
    let catalog = Catalog::new()
        .declare(LEFT, Module::new())
        .declare(RIGHT, Module::new())
        .declare(LEFT, Module::new().provide(SERVICE));
    assert_eq!(catalog.find(LEFT), Some(0));
    assert_eq!(catalog.find(RIGHT), Some(1));
    assert_eq!(catalog.find(PARENT), None);
}

struct Recorder {
    tag: usize,
    order: Arc<AtomicUsize>,
}

impl ServiceFactory for Recorder {
    fn register(&self, _: &mut actix_web::web::ServiceConfig) {
        let seen = self.order.load(Ordering::SeqCst);
        self.order.store(seen * 10 + self.tag, Ordering::SeqCst);
    }
}

#[test]
fn clients_register_once_in_order() {
    let order = Arc::new(AtomicUsize::new(0));
    let clients = vec![
        Recorder { tag: 1, order: order.clone() },
        Recorder { tag: 2, order: order.clone() },
        Recorder { tag: 3, order: order.clone() },
    ];
    let _app = actix_web::App::new().configure(|app| register_all(&clients, app));
    assert_eq!(order.load(Ordering::SeqCst), 123);
}
