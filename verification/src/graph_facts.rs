//! Every edge of a binding graph points at a module of the graph, where
//! the cache that the graph was built from holds whatever its modules
//! depend on; and reduction keeps it so.

use vstd::prelude::*;

use crate::ast::{Decl, ExportSpecifier, ImportSpecifier, ModuleDecl, ModuleItem, Stmt};
use crate::bind_graph_init::{after_import_specifier, after_import_specifiers, after_item, after_items, after_local_export, after_local_exports, after_reexports, declared, declared_all, decl_scope, decl_symbols, empty_graph, export_alias, export_orig, exported_from_scope, graph_of, graph_with, lemma_graph_of_shape, lemma_put_wf, module_summary, node_of, scoped, start_state, Export, GraphView, Import, ScopeKind, SessionState};
use crate::bind_init::{closed, dep_of, distinct_paths, is_loaded, Dependency, ModuleData};
use crate::graph_reduce::{lemma_first_unique, lemma_reduced_is_settled, reduced, settled_at};
use crate::structures::{distinct_keys, lemma_with_key_distinct, CanonPath, ItemState};

verus! {

/// Whether every module that `deps` names is among `modules`.
pub open spec fn deps_loaded(modules: Seq<ModuleData>, deps: Seq<Dependency>) -> bool {
    forall|d: int| 0 <= d < deps.len() ==> is_loaded(modules, (#[trigger] deps[d]).path@)
}

/// Whether what a name stands for comes from a module among `modules`, if
/// it is imported.
pub open spec fn state_points_in(modules: Seq<ModuleData>, state: ItemState) -> bool {
    match state {
        ItemState::Imported { source, .. } => is_loaded(modules, source@),
        ItemState::Rooted => true,
    }
}

/// Whether every import of a scope comes from a module among `modules`.
pub open spec fn scope_points_in(modules: Seq<ModuleData>, scope: Map<Seq<char>, ItemState>)
    -> bool {
    forall|k: Seq<char>| scope.contains_key(k) ==> state_points_in(modules, #[trigger] scope[k])
}

/// Whether every edge of `edges` points at a module among `modules`.
pub open spec fn exports_point_in(modules: Seq<ModuleData>, edges: Seq<Export>) -> bool {
    forall|j: int| 0 <= j < edges.len() ==> is_loaded(modules, (#[trigger] edges[j]).source()@)
}

/// Whether every edge of `edges` points at a module among `modules`.
pub open spec fn imports_point_in(modules: Seq<ModuleData>, edges: Seq<Import>) -> bool {
    forall|j: int| 0 <= j < edges.len() ==> is_loaded(modules, (#[trigger] edges[j]).source()@)
}

/// Whether the edges and the scopes gathered of a module point at modules
/// among `modules` only.
pub open spec fn session_points_in(modules: Seq<ModuleData>, st: SessionState) -> bool {
    &&& exports_point_in(modules, st.export_edges)
    &&& imports_point_in(modules, st.import_edges)
    &&& scope_points_in(modules, st.value_scope)
    &&& scope_points_in(modules, st.type_scope)
}

/// What a dependency map resolves a specifier to is a module that the map
/// names.
pub proof fn lemma_dep_of_loaded(modules: Seq<ModuleData>, deps: Seq<Dependency>, s: Seq<char>)
    requires
        deps_loaded(modules, deps),
    ensures
        match dep_of(deps, s) {
            Some(p) => is_loaded(modules, p@),
            None => true,
        },
    decreases deps.len(),
{
    if deps.len() > 0 {
        assert(is_loaded(modules, deps[0].path@));
        if deps[0].specifier@ != s {
            assert forall|d: int| 0 <= d < deps.skip(1).len() implies is_loaded(
                modules,
                (#[trigger] deps.skip(1)[d]).path@,
            ) by {
                assert(deps.skip(1)[d] == deps[d + 1]);
            }
            lemma_dep_of_loaded(modules, deps.skip(1), s);
        }
    }
}

/// Entering a name keeps the scopes pointing at modules among `modules`.
pub proof fn lemma_scoped_points_in(
    modules: Seq<ModuleData>,
    st: SessionState,
    name: String,
    state: ItemState,
    kind: ScopeKind,
)
    requires
        session_points_in(modules, st),
        state_points_in(modules, state),
    ensures
        session_points_in(modules, scoped(st, name, state, kind)),
{
}

/// Declaring names adds no edge and no import.
pub proof fn lemma_declared_all_points_in(
    modules: Seq<ModuleData>,
    st: SessionState,
    symbols: Seq<String>,
    kind: ScopeKind,
    export: bool,
)
    requires
        session_points_in(modules, st),
    ensures
        session_points_in(modules, declared_all(st, symbols, kind, export)),
    decreases symbols.len(),
{
    if symbols.len() > 0 {
        let next = declared(st, symbols[0], kind, export);
        assert(session_points_in(modules, next));
        lemma_declared_all_points_in(modules, next, symbols.skip(1), kind, export);
    }
}

/// The specifiers of an import from a module among `modules` add edges and
/// scope entries that point at that module.
pub proof fn lemma_import_specifiers_point_in(
    modules: Seq<ModuleData>,
    st: SessionState,
    path: CanonPath,
    source: CanonPath,
    specs: Seq<ImportSpecifier>,
)
    requires
        session_points_in(modules, st),
        is_loaded(modules, source@),
    ensures
        match after_import_specifiers(st, path, source, specs) {
            Ok(next) => session_points_in(modules, next),
            Err(_) => true,
        },
    decreases specs.len(),
{
    if specs.len() > 0 {
        match after_import_specifier(st, path, source, specs[0]) {
            Ok(next) => {
                assert(session_points_in(modules, next));
                lemma_import_specifiers_point_in(modules, next, path, source, specs.skip(1));
            },
            Err(_) => {},
        }
    }
}

/// Re-exports from a module among `modules` add edges that point at that
/// module.
pub proof fn lemma_reexports_point_in(
    modules: Seq<ModuleData>,
    st: SessionState,
    source: CanonPath,
    specs: Seq<ExportSpecifier>,
)
    requires
        session_points_in(modules, st),
        is_loaded(modules, source@),
    ensures
        session_points_in(modules, after_reexports(st, source, specs)),
    decreases specs.len(),
{
    if specs.len() > 0 {
        let edge = Export::Named {
            source,
            src_key: export_orig(specs[0]),
            export_key: export_alias(specs[0]),
        };
        let next = SessionState { export_edges: st.export_edges.push(edge), ..st };
        assert(session_points_in(modules, next));
        lemma_reexports_point_in(modules, next, source, specs.skip(1));
    }
}

/// Exporting names of the scopes adds edges to where the names were
/// imported from.
pub proof fn lemma_local_exports_point_in(
    modules: Seq<ModuleData>,
    st: SessionState,
    specs: Seq<ExportSpecifier>,
)
    requires
        session_points_in(modules, st),
    ensures
        session_points_in(modules, after_local_exports(st, specs)),
    decreases specs.len(),
{
    if specs.len() > 0 {
        let orig = export_orig(specs[0]);
        let alias = export_alias(specs[0]);
        let (edges, rooted_values) = exported_from_scope(
            st.value_scope,
            st.export_edges,
            st.rooted_values,
            orig,
            alias,
        );
        assert(exports_point_in(modules, edges)) by {
            if st.value_scope.contains_key(orig@) {
                assert(state_points_in(modules, st.value_scope[orig@]));
            }
        }
        let (edges2, rooted_types) = exported_from_scope(
            st.type_scope,
            edges,
            st.rooted_types,
            orig,
            alias,
        );
        assert(exports_point_in(modules, edges2)) by {
            if st.type_scope.contains_key(orig@) {
                assert(state_points_in(modules, st.type_scope[orig@]));
            }
        }
        let next = after_local_export(st, orig, alias);
        assert(session_points_in(modules, next));
        lemma_local_exports_point_in(modules, next, specs.skip(1));
    }
}

/// An item of a module whose dependency map names modules among `modules`
/// only keeps the edges and the scopes pointing at such modules.
pub proof fn lemma_item_points_in(
    modules: Seq<ModuleData>,
    st: SessionState,
    path: CanonPath,
    deps: Seq<Dependency>,
    item: ModuleItem,
)
    requires
        session_points_in(modules, st),
        deps_loaded(modules, deps),
    ensures
        match after_item(st, path, deps, item) {
            Ok(next) => session_points_in(modules, next),
            Err(_) => true,
        },
{
    match item {
        ModuleItem::ModuleDecl(ModuleDecl::Import(import)) => {
            lemma_dep_of_loaded(modules, deps, import.src@);
            match dep_of(deps, import.src@) {
                Some(source) => {
                    lemma_import_specifiers_point_in(
                        modules,
                        st,
                        path,
                        source,
                        import.specifiers@,
                    );
                },
                None => {},
            }
        },
        ModuleItem::ModuleDecl(ModuleDecl::ExportDecl { decl, .. }) => {
            lemma_declared_all_points_in(modules, st, decl_symbols(decl), decl_scope(decl), true);
        },
        ModuleItem::ModuleDecl(ModuleDecl::ExportNamed(exp)) => {
            match exp.src {
                Some(src) => {
                    lemma_dep_of_loaded(modules, deps, src@);
                    match dep_of(deps, src@) {
                        Some(source) => {
                            lemma_reexports_point_in(modules, st, source, exp.specifiers@);
                        },
                        None => {},
                    }
                },
                None => {
                    lemma_local_exports_point_in(modules, st, exp.specifiers@);
                },
            }
        },
        ModuleItem::ModuleDecl(ModuleDecl::ExportAll { src, span }) => {
            lemma_dep_of_loaded(modules, deps, src@);
        },
        ModuleItem::Stmt(Stmt::Decl(decl)) => {
            lemma_declared_all_points_in(modules, st, decl_symbols(decl), decl_scope(decl), false);
        },
        _ => {},
    }
}

/// The items of a module whose dependency map names modules among
/// `modules` only give edges and scopes that point at such modules.
pub proof fn lemma_items_point_in(
    modules: Seq<ModuleData>,
    st: SessionState,
    path: CanonPath,
    deps: Seq<Dependency>,
    items: Seq<ModuleItem>,
)
    requires
        session_points_in(modules, st),
        deps_loaded(modules, deps),
    ensures
        match after_items(st, path, deps, items) {
            Ok(next) => session_points_in(modules, next),
            Err(_) => true,
        },
    decreases items.len(),
{
    if items.len() > 0 {
        lemma_item_points_in(modules, st, path, deps, items[0]);
        match after_item(st, path, deps, items[0]) {
            Ok(next) => {
                lemma_items_point_in(modules, next, path, deps, items.skip(1));
            },
            Err(_) => {},
        }
    }
}

/// Whether every edge of the graph points at a module among `modules`.
pub open spec fn graph_points_in(modules: Seq<ModuleData>, g: GraphView) -> bool {
    &&& forall|mi: int|
        0 <= mi < g.export_edges.len() ==> exports_point_in(modules, #[trigger] g.export_edges[mi])
    &&& forall|mi: int|
        0 <= mi < g.import_edges.len() ==> imports_point_in(modules, #[trigger] g.import_edges[mi])
}

/// Adding modules whose dependency maps name modules among `modules`
/// only keeps the edges of the graph pointing at such modules.
pub proof fn lemma_graph_with_points_in(
    modules: Seq<ModuleData>,
    g: GraphView,
    more: Seq<ModuleData>,
)
    requires
        g.wf(),
        graph_points_in(modules, g),
        forall|i: int| 0 <= i < more.len() ==> deps_loaded(modules, (#[trigger] more[i]).dependencies@),
    ensures
        match graph_with(g, more) {
            Ok(r) => graph_points_in(modules, r),
            Err(_) => true,
        },
    decreases more.len(),
{
    if more.len() > 0 {
        assert(deps_loaded(modules, more[0].dependencies@));
        lemma_items_point_in(
            modules,
            start_state(),
            more[0].path,
            more[0].dependencies@,
            more[0].module_ast@,
        );
        match module_summary(more[0]) {
            Ok(st) => {
                let node = node_of(more[0].path, st);
                let next = g.put_module(node, st.export_edges, st.import_edges);
                lemma_put_wf(g, node, st.export_edges, st.import_edges);
                assert(graph_points_in(modules, next)) by {
                    match g.module_at(node.path@) {
                        Some(k) => {
                            assert(g.is_first(node.path@, k));
                            assert forall|mi: int| 0 <= mi < next.export_edges.len() implies exports_point_in(
                                modules,
                                #[trigger] next.export_edges[mi],
                            ) by {
                                if mi != k {
                                    assert(next.export_edges[mi] == g.export_edges[mi]);
                                }
                            }
                            assert forall|mi: int| 0 <= mi < next.import_edges.len() implies imports_point_in(
                                modules,
                                #[trigger] next.import_edges[mi],
                            ) by {
                                if mi != k {
                                    assert(next.import_edges[mi] == g.import_edges[mi]);
                                }
                            }
                        },
                        None => {},
                    }
                }
                assert forall|i: int| 0 <= i < more.skip(1).len() implies deps_loaded(
                    modules,
                    (#[trigger] more.skip(1)[i]).dependencies@,
                ) by {
                    assert(more.skip(1)[i] == more[i + 1]);
                }
                lemma_graph_with_points_in(modules, next, more.skip(1));
            },
            Err(_) => {},
        }
    }
}

/// Whether every edge of the graph points at a module of the graph.
pub open spec fn edges_closed(g: GraphView) -> bool {
    &&& forall|mi: int, j: int|
        0 <= mi < g.export_edges.len() && 0 <= j < g.export_edges[mi].len() ==> g.has_module(
            (#[trigger] g.export_edges[mi][j]).source()@,
        )
    &&& forall|mi: int, j: int|
        0 <= mi < g.import_edges.len() && 0 <= j < g.import_edges[mi].len() ==> g.has_module(
            (#[trigger] g.import_edges[mi][j]).source()@,
        )
}

/// Where a cache holds no path twice and holds every module that one of
/// its modules depends on, every edge of its binding graph points at a
/// module of the graph.
pub proof fn lemma_graph_edges_closed(modules: Seq<ModuleData>)
    requires
        closed(modules),
        distinct_paths(modules),
    ensures
        match graph_of(modules) {
            Ok(g) => edges_closed(g),
            Err(_) => true,
        },
{
    assert forall|i: int| 0 <= i < modules.len() implies deps_loaded(
        modules,
        (#[trigger] modules[i]).dependencies@,
    ) by {
        assert forall|d: int| 0 <= d < modules[i].dependencies@.len() implies is_loaded(
            modules,
            (#[trigger] modules[i].dependencies@[d]).path@,
        ) by {}
    }
    lemma_graph_with_points_in(modules, empty_graph(), modules);
    lemma_graph_of_shape(modules);
    match graph_of(modules) {
        Ok(g) => {
            assert forall|p: Seq<char>| is_loaded(modules, p) implies g.has_module(p) by {
                let i = choose|i: int| 0 <= i < modules.len() && (#[trigger] modules[i]).path@ == p;
                assert(g.nodes[i].path@ == p);
            }
            assert forall|mi: int, j: int|
                0 <= mi < g.export_edges.len() && 0 <= j < g.export_edges[mi].len()
                    implies g.has_module((#[trigger] g.export_edges[mi][j]).source()@) by {
                assert(exports_point_in(modules, g.export_edges[mi]));
                assert(is_loaded(modules, g.export_edges[mi][j].source()@));
            }
            assert forall|mi: int, j: int|
                0 <= mi < g.import_edges.len() && 0 <= j < g.import_edges[mi].len()
                    implies g.has_module((#[trigger] g.import_edges[mi][j]).source()@) by {
                assert(imports_point_in(modules, g.import_edges[mi]));
                assert(is_loaded(modules, g.import_edges[mi][j].source()@));
            }
        },
        Err(_) => {},
    }
}

/// Every export edge of a reduced graph points at a module of the graph.
pub proof fn lemma_reduced_edges_closed(g: GraphView, mi: int, j: int)
    requires
        0 <= mi < g.nodes.len(),
        0 <= j < reduced(g).export_edges[mi].len(),
    ensures
        reduced(g).has_module(reduced(g).export_edges[mi][j].source()@),
{
    lemma_reduced_is_settled(g, mi, j);
    let e = reduced(g).export_edges[mi][j];
    let ti = choose|ti: int| settled_at(reduced(g), e, ti);
    assert(reduced(g).nodes[ti].path@ == e.source()@);
}

/// Where no two modules of a cache have the same path, no two modules of
/// its binding graph have: each path names one module, the one at the
/// position that the module has in the cache.
pub proof fn lemma_graph_paths_distinct(modules: Seq<ModuleData>, i: int)
    requires
        distinct_paths(modules),
        0 <= i < modules.len(),
    ensures
        match graph_of(modules) {
            Ok(g) => g.module_at(modules[i].path@) == Some(i) && forall|a: int, b: int|
                0 <= a < b < g.nodes.len() ==> g.nodes[a].path@ != g.nodes[b].path@,
            Err(_) => true,
        },
{
    lemma_graph_of_shape(modules);
    match graph_of(modules) {
        Ok(g) => {
            assert forall|a: int, b: int| 0 <= a < b < g.nodes.len() implies g.nodes[a].path@
                != g.nodes[b].path@ by {
                assert(g.nodes[a].path == modules[a].path);
                assert(g.nodes[b].path == modules[b].path);
            }
            assert(g.nodes[i].path == modules[i].path);
            assert(g.is_first(modules[i].path@, i)) by {
                assert forall|j: int| 0 <= j < i implies g.nodes[j].path@ != modules[i].path@ by {
                    assert(g.nodes[j].path == modules[j].path);
                }
            }
            lemma_first_unique(g, modules[i].path@, i);
        },
        Err(_) => {},
    }
}


/// Whether the rooted export keys gathered of a module hold no key
/// twice.
pub open spec fn rooted_once(st: SessionState) -> bool {
    distinct_keys(st.rooted_values) && distinct_keys(st.rooted_types)
}

/// Declaring names keeps the rooted export keys free of repetitions.
pub proof fn lemma_declared_all_once(
    st: SessionState,
    symbols: Seq<String>,
    kind: ScopeKind,
    export: bool,
)
    requires
        rooted_once(st),
    ensures
        rooted_once(declared_all(st, symbols, kind, export)),
    decreases symbols.len(),
{
    if symbols.len() > 0 {
        lemma_with_key_distinct(st.rooted_values, symbols[0]);
        lemma_with_key_distinct(st.rooted_types, symbols[0]);
        let next = declared(st, symbols[0], kind, export);
        assert(rooted_once(next));
        lemma_declared_all_once(next, symbols.skip(1), kind, export);
    }
}

/// Exporting names of the scopes keeps the rooted export keys free of
/// repetitions.
pub proof fn lemma_local_exports_once(st: SessionState, specs: Seq<ExportSpecifier>)
    requires
        rooted_once(st),
    ensures
        rooted_once(after_local_exports(st, specs)),
    decreases specs.len(),
{
    if specs.len() > 0 {
        let alias = export_alias(specs[0]);
        lemma_with_key_distinct(st.rooted_values, alias);
        lemma_with_key_distinct(st.rooted_types, alias);
        let next = after_local_export(st, export_orig(specs[0]), alias);
        assert(rooted_once(next));
        lemma_local_exports_once(next, specs.skip(1));
    }
}

/// Imports add no rooted export key.
pub proof fn lemma_import_specifiers_once(
    st: SessionState,
    path: CanonPath,
    source: CanonPath,
    specs: Seq<ImportSpecifier>,
)
    requires
        rooted_once(st),
    ensures
        match after_import_specifiers(st, path, source, specs) {
            Ok(next) => rooted_once(next),
            Err(_) => true,
        },
    decreases specs.len(),
{
    if specs.len() > 0 {
        match after_import_specifier(st, path, source, specs[0]) {
            Ok(next) => {
                lemma_import_specifiers_once(next, path, source, specs.skip(1));
            },
            Err(_) => {},
        }
    }
}

/// Re-exports from another module add no rooted export key.
pub proof fn lemma_reexports_once(st: SessionState, source: CanonPath, specs: Seq<ExportSpecifier>)
    requires
        rooted_once(st),
    ensures
        rooted_once(after_reexports(st, source, specs)),
    decreases specs.len(),
{
    if specs.len() > 0 {
        let edge = Export::Named {
            source,
            src_key: export_orig(specs[0]),
            export_key: export_alias(specs[0]),
        };
        lemma_reexports_once(
            SessionState { export_edges: st.export_edges.push(edge), ..st },
            source,
            specs.skip(1),
        );
    }
}

/// The items of a module keep the rooted export keys free of
/// repetitions.
pub proof fn lemma_items_once(
    st: SessionState,
    path: CanonPath,
    deps: Seq<Dependency>,
    items: Seq<ModuleItem>,
)
    requires
        rooted_once(st),
    ensures
        match after_items(st, path, deps, items) {
            Ok(next) => rooted_once(next),
            Err(_) => true,
        },
    decreases items.len(),
{
    if items.len() > 0 {
        match items[0] {
            ModuleItem::ModuleDecl(ModuleDecl::Import(import)) => {
                match dep_of(deps, import.src@) {
                    Some(source) => {
                        lemma_import_specifiers_once(st, path, source, import.specifiers@);
                    },
                    None => {},
                }
            },
            ModuleItem::ModuleDecl(ModuleDecl::ExportDecl { decl, .. }) => {
                lemma_declared_all_once(st, decl_symbols(decl), decl_scope(decl), true);
            },
            ModuleItem::ModuleDecl(ModuleDecl::ExportNamed(exp)) => {
                match exp.src {
                    Some(src) => {
                        match dep_of(deps, src@) {
                            Some(source) => {
                                lemma_reexports_once(st, source, exp.specifiers@);
                            },
                            None => {},
                        }
                    },
                    None => {
                        lemma_local_exports_once(st, exp.specifiers@);
                    },
                }
            },
            ModuleItem::Stmt(Stmt::Decl(decl)) => {
                lemma_declared_all_once(st, decl_symbols(decl), decl_scope(decl), false);
            },
            _ => {},
        }
        match after_item(st, path, deps, items[0]) {
            Ok(next) => {
                lemma_items_once(next, path, deps, items.skip(1));
            },
            Err(_) => {},
        }
    }
}

/// Whether no module of the graph has a rooted export key twice.
pub open spec fn keys_once(g: GraphView) -> bool {
    forall|mi: int|
        0 <= mi < g.nodes.len() ==> distinct_keys((#[trigger] g.nodes[mi]).rooted_export_types)
            && distinct_keys(g.nodes[mi].rooted_export_values)
}

/// Putting modules into a graph keeps the rooted export keys of every
/// module free of repetitions.
pub proof fn lemma_graph_with_keys_once(g: GraphView, more: Seq<ModuleData>)
    requires
        g.wf(),
        keys_once(g),
    ensures
        match graph_with(g, more) {
            Ok(r) => keys_once(r),
            Err(_) => true,
        },
    decreases more.len(),
{
    if more.len() > 0 {
        lemma_items_once(start_state(), more[0].path, more[0].dependencies@, more[0].module_ast@);
        match module_summary(more[0]) {
            Ok(st) => {
                let node = node_of(more[0].path, st);
                let next = g.put_module(node, st.export_edges, st.import_edges);
                lemma_put_wf(g, node, st.export_edges, st.import_edges);
                assert(keys_once(next)) by {
                    match g.module_at(node.path@) {
                        Some(k) => {
                            assert(g.is_first(node.path@, k));
                            assert forall|mi: int| 0 <= mi < next.nodes.len() implies distinct_keys(
                                (#[trigger] next.nodes[mi]).rooted_export_types,
                            ) && distinct_keys(next.nodes[mi].rooted_export_values) by {
                                if mi != k {
                                    assert(next.nodes[mi] == g.nodes[mi]);
                                }
                            }
                        },
                        None => {
                            assert forall|mi: int| 0 <= mi < next.nodes.len() implies distinct_keys(
                                (#[trigger] next.nodes[mi]).rooted_export_types,
                            ) && distinct_keys(next.nodes[mi].rooted_export_values) by {
                                if mi < g.nodes.len() {
                                    assert(next.nodes[mi] == g.nodes[mi]);
                                }
                            }
                        },
                    }
                }
                lemma_graph_with_keys_once(next, more.skip(1));
            },
            Err(_) => {},
        }
    }
}

/// In the binding graph of a cache, no module has a rooted export key
/// twice: the lists of rooted keys are sets that keep the order in which
/// the keys were first exported.
pub proof fn lemma_graph_keys_once(modules: Seq<ModuleData>)
    ensures
        match graph_of(modules) {
            Ok(g) => keys_once(g),
            Err(_) => true,
        },
{
    lemma_graph_with_keys_once(empty_graph(), modules);
}


} // verus!
