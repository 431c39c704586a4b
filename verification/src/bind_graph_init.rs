//! The binding graph: for each module, the names it declares and exports
//! itself and, in source order, the imports and re-exports that tie it to
//! other modules.

use vstd::prelude::*;

use crate::ast::{
    Decl, ExportSpecifier, ImportSpecifier, ModuleDecl, ModuleItem, NamedExport, Pat, Stmt,
};
use crate::bind_init::{
    dep_of, distinct_paths, find_dependency, Dependency, ModuleData, ParsedModuleCache,
};
use crate::graph_reduce::find_module;
use crate::error::{BindGenError, BindGenErrorKind, UnsupportedFeature};
use crate::structures::{
    bound_first, contains_key, has_key, insert_key, with_key, CanonPath, ItemState, Scope, Span,
};

verus! {

/// A module of the graph: its path and the export keys that it declares
/// itself, in the order in which they were first exported.
#[derive(Debug, PartialEq, Eq)]
pub struct ModuleNode {
    pub path: CanonPath,
    pub rooted_export_types: Vec<String>,
    pub rooted_export_values: Vec<String>,
}

/// A module of the graph, as contracts see it.
pub struct NodeView {
    pub path: CanonPath,
    pub rooted_export_types: Seq<String>,
    pub rooted_export_values: Seq<String>,
}

impl View for ModuleNode {
    type V = NodeView;

    open spec fn view(&self) -> NodeView {
        NodeView {
            path: self.path,
            rooted_export_types: self.rooted_export_types@,
            rooted_export_values: self.rooted_export_values@,
        }
    }
}

impl ModuleNode {
    /// Whether the module declares the type that it exports as `key`.
    pub fn is_rooted_type(&self, key: &String) -> (r: bool)
        ensures
            r == has_key(self@.rooted_export_types, key@),
    {
        contains_key(&self.rooted_export_types, key)
    }

    /// Whether the module declares the value that it exports as `key`.
    pub fn is_rooted_value(&self, key: &String) -> (r: bool)
        ensures
            r == has_key(self@.rooted_export_values, key@),
    {
        contains_key(&self.rooted_export_values, key)
    }
}

/// A name that a module takes from `source`, which exports it as `src_key`.
#[derive(Debug, PartialEq, Eq)]
pub enum Import {
    NamedType { source: CanonPath, src_key: String },
    NamedValue { source: CanonPath, src_key: String },
    /// Type or value: not yet known.
    Named { source: CanonPath, src_key: String },
}

impl Import {
    /// The module that the edge points at.
    pub open spec fn source(self) -> CanonPath {
        match self {
            Import::NamedType { source, .. } => source,
            Import::NamedValue { source, .. } => source,
            Import::Named { source, .. } => source,
        }
    }
}

impl Clone for Import {
    fn clone(&self) -> (r: Self)
        ensures
            r == *self,
    {
        match self {
            Import::NamedType { source, src_key } => Import::NamedType {
                source: source.clone(),
                src_key: src_key.clone(),
            },
            Import::NamedValue { source, src_key } => Import::NamedValue {
                source: source.clone(),
                src_key: src_key.clone(),
            },
            Import::Named { source, src_key } => Import::Named {
                source: source.clone(),
                src_key: src_key.clone(),
            },
        }
    }
}

/// A name that a module hands on: `source` exports it as `src_key`, the
/// module exports it as `export_key`. `All` hands on whatever `source`
/// exports.
#[derive(Debug, PartialEq, Eq)]
pub enum Export {
    NamedType { source: CanonPath, src_key: String, export_key: String },
    NamedValue { source: CanonPath, src_key: String, export_key: String },
    /// Type or value: not yet known.
    Named { source: CanonPath, src_key: String, export_key: String },
    All { source: CanonPath },
}

impl Clone for Export {
    fn clone(&self) -> (r: Self)
        ensures
            r == *self,
    {
        match self {
            Export::NamedType { source, src_key, export_key } => Export::NamedType {
                source: source.clone(),
                src_key: src_key.clone(),
                export_key: export_key.clone(),
            },
            Export::NamedValue { source, src_key, export_key } => Export::NamedValue {
                source: source.clone(),
                src_key: src_key.clone(),
                export_key: export_key.clone(),
            },
            Export::Named { source, src_key, export_key } => Export::Named {
                source: source.clone(),
                src_key: src_key.clone(),
                export_key: export_key.clone(),
            },
            Export::All { source } => Export::All { source: source.clone() },
        }
    }
}

impl Export {
    /// The module that the edge points at.
    pub open spec fn source(self) -> CanonPath {
        match self {
            Export::NamedType { source, .. } => source,
            Export::NamedValue { source, .. } => source,
            Export::Named { source, .. } => source,
            Export::All { source } => source,
        }
    }

    /// The module that the edge points at.
    pub fn export_source(&self) -> (r: &CanonPath)
        ensures
            *r == self.source(),
    {
        match self {
            Export::NamedType { source, .. } => source,
            Export::NamedValue { source, .. } => source,
            Export::Named { source, .. } => source,
            Export::All { source } => source,
        }
    }
}

/// The modules of a program with their edges. The three lists run in
/// parallel: position `i` of each belongs to module `i`. The edges of a
/// module stand in source order.
#[derive(Debug, PartialEq, Eq)]
pub struct ModuleGraph {
    pub nodes: Vec<ModuleNode>,
    pub export_edges: Vec<Vec<Export>>,
    pub import_edges: Vec<Vec<Import>>,
}

/// A module graph, as contracts see it.
pub struct GraphView {
    pub nodes: Seq<NodeView>,
    pub export_edges: Seq<Seq<Export>>,
    pub import_edges: Seq<Seq<Import>>,
}

impl View for ModuleGraph {
    type V = GraphView;

    open spec fn view(&self) -> GraphView {
        GraphView {
            nodes: Seq::new(self.nodes@.len(), |i: int| self.nodes@[i]@),
            export_edges: Seq::new(self.export_edges@.len(), |i: int| self.export_edges@[i]@),
            import_edges: Seq::new(self.import_edges@.len(), |i: int| self.import_edges@[i]@),
        }
    }
}

impl GraphView {
    /// Each module has its two edge lists.
    pub open spec fn wf(self) -> bool {
        &&& self.export_edges.len() == self.nodes.len()
        &&& self.import_edges.len() == self.nodes.len()
    }

    /// Whether the graph holds a module with the path `p`.
    pub open spec fn has_module(self, p: Seq<char>) -> bool {
        exists|i: int| 0 <= i < self.nodes.len() && #[trigger] self.nodes[i].path@ == p
    }

    /// The graph with the module put in under its path: where the graph
    /// holds a module with that path, the module takes its place; else it
    /// is added at the end.
    pub open spec fn put_module(self, node: NodeView, exports: Seq<Export>, imports: Seq<Import>)
        -> GraphView {
        match self.module_at(node.path@) {
            Some(k) => GraphView {
                nodes: self.nodes.update(k, node),
                export_edges: self.export_edges.update(k, exports),
                import_edges: self.import_edges.update(k, imports),
            },
            None => self.with_module(node, exports, imports),
        }
    }

    /// The graph with one more module.
    pub open spec fn with_module(self, node: NodeView, exports: Seq<Export>, imports: Seq<Import>)
        -> GraphView {
        GraphView {
            nodes: self.nodes.push(node),
            export_edges: self.export_edges.push(exports),
            import_edges: self.import_edges.push(imports),
        }
    }
}

impl ModuleGraph {
    /// Whether the graph holds a module with the path `p`.
    pub fn module_instantiated(&self, p: &CanonPath) -> (r: bool)
        ensures
            r == self@.has_module(p@),
    {
        let mut i: usize = 0;
        while i < self.nodes.len()
            invariant
                i <= self.nodes@.len(),
                forall|j: int| 0 <= j < i ==> self.nodes@[j].path@ != p@,
            decreases self.nodes@.len() - i,
        {
            if self.nodes[i].path.same(p) {
                assert(self@.nodes[i as int].path@ == p@);
                return true;
            }
            i += 1;
        }
        assert forall|j: int| 0 <= j < self@.nodes.len() implies #[trigger] self@.nodes[j].path@
            != p@ by {
            assert(self.nodes@[j].path@ != p@);
        }
        false
    }
}

/// The scopes that a declaration enters.
#[derive(Debug, Clone, Copy, PartialEq, Eq, Structural)]
pub enum ScopeKind {
    Value,
    Type,
    ValueType,
}

/// What has been gathered of a module after some of its items.
pub struct SessionState {
    pub import_edges: Seq<Import>,
    pub export_edges: Seq<Export>,
    pub rooted_values: Seq<String>,
    pub rooted_types: Seq<String>,
    pub value_scope: Map<Seq<char>, ItemState>,
    pub type_scope: Map<Seq<char>, ItemState>,
}

/// The state before the first item of a module.
pub open spec fn start_state() -> SessionState {
    SessionState {
        import_edges: Seq::empty(),
        export_edges: Seq::empty(),
        rooted_values: Seq::empty(),
        rooted_types: Seq::empty(),
        value_scope: Map::empty(),
        type_scope: Map::empty(),
    }
}

/// `scope` with `name` bound to `state`, unless `name` is bound already:
/// the first declaration of a name wins.
pub open spec fn bind(scope: Map<Seq<char>, ItemState>, name: String, state: ItemState) -> Map<
    Seq<char>,
    ItemState,
> {
    bound_first(scope, name@, state)
}

/// `st` after `name` has entered the scopes of `kind` as `state`.
pub open spec fn scoped(st: SessionState, name: String, state: ItemState, kind: ScopeKind)
    -> SessionState {
    match kind {
        ScopeKind::Value => SessionState { value_scope: bind(st.value_scope, name, state), ..st },
        ScopeKind::Type => SessionState { type_scope: bind(st.type_scope, name, state), ..st },
        ScopeKind::ValueType => SessionState {
            type_scope: bind(st.type_scope, name, state),
            value_scope: bind(st.value_scope, name, state),
            ..st
        },
    }
}

/// `st` after the declaration of `symbol` in the scopes of `kind`. An
/// exported declaration makes `symbol` a rooted export of those scopes.
pub open spec fn declared(st: SessionState, symbol: String, kind: ScopeKind, export: bool)
    -> SessionState {
    let marked = if !export {
        st
    } else {
        match kind {
            ScopeKind::Value => SessionState {
                rooted_values: with_key(st.rooted_values, symbol),
                ..st
            },
            ScopeKind::Type => SessionState {
                rooted_types: with_key(st.rooted_types, symbol),
                ..st
            },
            ScopeKind::ValueType => SessionState {
                rooted_types: with_key(st.rooted_types, symbol),
                rooted_values: with_key(st.rooted_values, symbol),
                ..st
            },
        }
    };
    scoped(marked, symbol, ItemState::Rooted, kind)
}

/// `st` after the declaration of each of `symbols`, first to last.
pub open spec fn declared_all(
    st: SessionState,
    symbols: Seq<String>,
    kind: ScopeKind,
    export: bool,
) -> SessionState
    decreases symbols.len(),
{
    if symbols.len() == 0 {
        st
    } else {
        declared_all(declared(st, symbols[0], kind, export), symbols.skip(1), kind, export)
    }
}

/// Whether every declarator binds a plain name.
pub open spec fn all_plain(pats: Seq<Pat>) -> bool {
    forall|i: int| 0 <= i < pats.len() ==> #[trigger] pats[i] is Ident
}

/// The names that the declarators bind, in order.
pub open spec fn pat_names(pats: Seq<Pat>) -> Seq<String>
    decreases pats.len(),
{
    if pats.len() == 0 {
        Seq::empty()
    } else {
        match pats[0] {
            Pat::Ident { name, .. } => seq![name] + pat_names(pats.skip(1)),
            Pat::Other => pat_names(pats.skip(1)),
        }
    }
}

/// The names that a declaration introduces.
pub open spec fn decl_symbols(decl: Decl) -> Seq<String> {
    match decl {
        Decl::Class(c) => seq![c.name],
        Decl::Fn(f) => seq![f.name],
        Decl::Var(v) => pat_names(v.decls@),
        Decl::TsInterface(i) => seq![i.name],
        Decl::TsTypeAlias(a) => seq![a.name],
        Decl::TsEnum(e) => seq![e.name],
        Decl::TsModule { .. } => Seq::empty(),
    }
}

/// The scopes that a declaration's names enter: a class is a value and a
/// type, functions and variables are values, interfaces, aliases and enums
/// are types.
pub open spec fn decl_scope(decl: Decl) -> ScopeKind {
    match decl {
        Decl::Class(_) => ScopeKind::ValueType,
        Decl::Fn(_) => ScopeKind::Value,
        Decl::Var(_) => ScopeKind::Value,
        Decl::TsInterface(_) => ScopeKind::Type,
        Decl::TsTypeAlias(_) => ScopeKind::Type,
        Decl::TsEnum(_) => ScopeKind::Type,
        Decl::TsModule { .. } => ScopeKind::Value,
    }
}

/// Why a declaration is refused, if it is.
pub open spec fn decl_refusal(decl: Decl) -> Option<(BindGenErrorKind, Span)> {
    match decl {
        Decl::Var(v) => if all_plain(v.decls@) {
            None
        } else {
            Some(
                (
                    BindGenErrorKind::UnsupportedFeature(UnsupportedFeature::DestructuringPattern),
                    v.span,
                ),
            )
        },
        Decl::TsModule { span } => Some(
            (BindGenErrorKind::UnsupportedFeature(UnsupportedFeature::TsNamespace), span),
        ),
        _ => None,
    }
}

/// The state after a declaration of the module at `path`, exported or not.
pub open spec fn after_decl(st: SessionState, path: CanonPath, decl: Decl, export: bool) -> Result<
    SessionState,
    BindGenError,
> {
    match decl_refusal(decl) {
        Some((kind, span)) => Err(BindGenError { module: path, kind, span }),
        None => Ok(declared_all(st, decl_symbols(decl), decl_scope(decl), export)),
    }
}

/// The state after one specifier of an import from `source`.
pub open spec fn after_import_specifier(
    st: SessionState,
    path: CanonPath,
    source: CanonPath,
    spec: ImportSpecifier,
) -> Result<SessionState, BindGenError> {
    match spec {
        ImportSpecifier::Named { local, imported } => {
            let src_key = match imported {
                Some(name) => name,
                None => local,
            };
            let edged = SessionState {
                import_edges: st.import_edges.push(Import::Named { source, src_key }),
                ..st
            };
            Ok(
                scoped(
                    edged,
                    local,
                    ItemState::Imported { source, src_key, as_key: local },
                    ScopeKind::ValueType,
                ),
            )
        },
        ImportSpecifier::Default { span } => Err(
            BindGenError {
                module: path,
                kind: BindGenErrorKind::UnsupportedFeature(UnsupportedFeature::DefaultImport),
                span,
            },
        ),
        ImportSpecifier::Namespace { span } => Err(
            BindGenError {
                module: path,
                kind: BindGenErrorKind::UnsupportedFeature(UnsupportedFeature::NamespaceImport),
                span,
            },
        ),
    }
}

/// The error of the first import specifier that is not a named one, if
/// there is one.
pub open spec fn import_refusal(path: CanonPath, specs: Seq<ImportSpecifier>) -> Option<
    BindGenError,
>
    decreases specs.len(),
{
    if specs.len() == 0 {
        None
    } else {
        match specs[0] {
            ImportSpecifier::Named { .. } => import_refusal(path, specs.skip(1)),
            ImportSpecifier::Default { span } => Some(
                BindGenError {
                    module: path,
                    kind: BindGenErrorKind::UnsupportedFeature(UnsupportedFeature::DefaultImport),
                    span,
                },
            ),
            ImportSpecifier::Namespace { span } => Some(
                BindGenError {
                    module: path,
                    kind: BindGenErrorKind::UnsupportedFeature(UnsupportedFeature::NamespaceImport),
                    span,
                },
            ),
        }
    }
}

/// The state after the specifiers of an import from `source`, first to
/// last, or the error of the first specifier that is refused.
pub open spec fn after_import_specifiers(
    st: SessionState,
    path: CanonPath,
    source: CanonPath,
    specs: Seq<ImportSpecifier>,
) -> Result<SessionState, BindGenError>
    decreases specs.len(),
{
    if specs.len() == 0 {
        Ok(st)
    } else {
        match after_import_specifier(st, path, source, specs[0]) {
            Ok(next) => after_import_specifiers(next, path, source, specs.skip(1)),
            Err(e) => Err(e),
        }
    }
}

/// Whether the specifiers of an import are refused does not depend on
/// what was gathered before: the import fails exactly where one of its
/// specifiers is refused, with the error of the first such.
pub proof fn lemma_import_refusal(
    st: SessionState,
    path: CanonPath,
    source: CanonPath,
    specs: Seq<ImportSpecifier>,
)
    ensures
        match import_refusal(path, specs) {
            Some(e) => after_import_specifiers(st, path, source, specs) == Err::<
                SessionState,
                BindGenError,
            >(e),
            None => after_import_specifiers(st, path, source, specs) is Ok,
        },
    decreases specs.len(),
{
    if specs.len() > 0 {
        match after_import_specifier(st, path, source, specs[0]) {
            Ok(next) => {
                lemma_import_refusal(next, path, source, specs.skip(1));
            },
            Err(_) => {},
        }
    }
}

/// The error of the first export specifier that is not a plain name, if
/// there is one. A default specifier is reported at the span of the whole
/// export, a namespace specifier at its own.
pub open spec fn specifier_refusal(path: CanonPath, specs: Seq<ExportSpecifier>, exp_span: Span)
    -> Option<BindGenError>
    decreases specs.len(),
{
    if specs.len() == 0 {
        None
    } else {
        match specs[0] {
            ExportSpecifier::Named { .. } => specifier_refusal(path, specs.skip(1), exp_span),
            ExportSpecifier::Namespace { span } => Some(
                BindGenError {
                    module: path,
                    kind: BindGenErrorKind::UnsupportedFeature(
                        UnsupportedFeature::NamespaceExport,
                    ),
                    span,
                },
            ),
            ExportSpecifier::Default => Some(
                BindGenError {
                    module: path,
                    kind: BindGenErrorKind::UnsupportedFeature(UnsupportedFeature::DefaultExport),
                    span: exp_span,
                },
            ),
        }
    }
}

/// The name under which a specifier exports.
pub open spec fn export_alias(spec: ExportSpecifier) -> String {
    match spec {
        ExportSpecifier::Named { orig, exported: Some(alias) } => alias,
        ExportSpecifier::Named { orig, exported: None } => orig,
        _ => arbitrary(),
    }
}

/// The name that a specifier exports.
pub open spec fn export_orig(spec: ExportSpecifier) -> String {
    match spec {
        ExportSpecifier::Named { orig, .. } => orig,
        _ => arbitrary(),
    }
}

/// The state after `export { .. } from` with the source `source`: one
/// undetermined edge for each specifier, in order.
pub open spec fn after_reexports(st: SessionState, source: CanonPath, specs: Seq<ExportSpecifier>)
    -> SessionState
    decreases specs.len(),
{
    if specs.len() == 0 {
        st
    } else {
        let edge = Export::Named {
            source,
            src_key: export_orig(specs[0]),
            export_key: export_alias(specs[0]),
        };
        after_reexports(
            SessionState { export_edges: st.export_edges.push(edge), ..st },
            source,
            specs.skip(1),
        )
    }
}

/// What exporting a name of the scope does to the edges and to the rooted
/// keys of that scope: an imported name gives an edge to where it came
/// from, a declared name becomes a rooted export, an unknown name nothing.
pub open spec fn exported_from_scope(
    scope: Map<Seq<char>, ItemState>,
    edges: Seq<Export>,
    rooted: Seq<String>,
    orig: String,
    alias: String,
) -> (Seq<Export>, Seq<String>) {
    if !scope.contains_key(orig@) {
        (edges, rooted)
    } else {
        match scope[orig@] {
            ItemState::Imported { source, src_key, as_key } => (
                edges.push(Export::Named { source, src_key, export_key: alias }),
                rooted,
            ),
            ItemState::Rooted => (edges, with_key(rooted, alias)),
        }
    }
}

/// The state after one specifier of an `export { .. }` without a source:
/// the name is exported from the value scope, then from the type scope.
pub open spec fn after_local_export(st: SessionState, orig: String, alias: String)
    -> SessionState {
    let (edges, rooted_values) = exported_from_scope(
        st.value_scope,
        st.export_edges,
        st.rooted_values,
        orig,
        alias,
    );
    let (edges, rooted_types) = exported_from_scope(
        st.type_scope,
        edges,
        st.rooted_types,
        orig,
        alias,
    );
    SessionState { export_edges: edges, rooted_values, rooted_types, ..st }
}

/// The state after the specifiers of an `export { .. }` without a source.
pub open spec fn after_local_exports(st: SessionState, specs: Seq<ExportSpecifier>)
    -> SessionState
    decreases specs.len(),
{
    if specs.len() == 0 {
        st
    } else {
        after_local_exports(
            after_local_export(st, export_orig(specs[0]), export_alias(specs[0])),
            specs.skip(1),
        )
    }
}

/// The error for a specifier that the dependency map does not hold.
pub open spec fn unresolved(path: CanonPath, span: Span) -> BindGenError {
    BindGenError { module: path, kind: BindGenErrorKind::Resolve, span }
}

/// The state after an `export { .. }`, with or without a source.
pub open spec fn after_named_export(
    st: SessionState,
    path: CanonPath,
    deps: Seq<Dependency>,
    exp: NamedExport,
) -> Result<SessionState, BindGenError> {
    match specifier_refusal(path, exp.specifiers@, exp.span) {
        Some(e) => Err(e),
        None => match exp.src {
            Some(src) => match dep_of(deps, src@) {
                Some(source) => Ok(after_reexports(st, source, exp.specifiers@)),
                None => Err(unresolved(path, exp.span)),
            },
            None => Ok(after_local_exports(st, exp.specifiers@)),
        },
    }
}

/// The error for a construct that binding generation refuses.
pub open spec fn refused(path: CanonPath, feature: UnsupportedFeature, span: Span)
    -> BindGenError {
    BindGenError { module: path, kind: BindGenErrorKind::UnsupportedFeature(feature), span }
}

/// The state after an import or export declaration.
pub open spec fn after_module_decl(
    st: SessionState,
    path: CanonPath,
    deps: Seq<Dependency>,
    decl: ModuleDecl,
) -> Result<SessionState, BindGenError> {
    match decl {
        ModuleDecl::Import(import) => match dep_of(deps, import.src@) {
            Some(source) => after_import_specifiers(st, path, source, import.specifiers@),
            None => Err(unresolved(path, import.span)),
        },
        ModuleDecl::ExportDecl { decl, .. } => after_decl(st, path, decl, true),
        ModuleDecl::ExportNamed(exp) => after_named_export(st, path, deps, exp),
        ModuleDecl::ExportAll { src, span } => match dep_of(deps, src@) {
            Some(source) => Ok(
                SessionState { export_edges: st.export_edges.push(Export::All { source }), ..st },
            ),
            None => Err(unresolved(path, span)),
        },
        ModuleDecl::ExportDefaultDecl { span } => Err(
            refused(path, UnsupportedFeature::DefaultExport, span),
        ),
        ModuleDecl::ExportDefaultExpr { span } => Err(
            refused(path, UnsupportedFeature::DefaultExport, span),
        ),
        ModuleDecl::TsImportEquals { span } => Err(
            refused(path, UnsupportedFeature::ImportEquals, span),
        ),
        ModuleDecl::TsExportAssignment { span } => Err(
            refused(path, UnsupportedFeature::ExportEquals, span),
        ),
        ModuleDecl::TsNamespaceExport { span } => Err(
            refused(path, UnsupportedFeature::NamespaceExport, span),
        ),
    }
}

/// The state after one top-level item.
pub open spec fn after_item(
    st: SessionState,
    path: CanonPath,
    deps: Seq<Dependency>,
    item: ModuleItem,
) -> Result<SessionState, BindGenError> {
    match item {
        ModuleItem::ModuleDecl(decl) => after_module_decl(st, path, deps, decl),
        ModuleItem::Stmt(Stmt::Decl(decl)) => after_decl(st, path, decl, false),
        ModuleItem::Stmt(Stmt::Other) => Ok(st),
    }
}

/// The state after the items of a module, first to last, or the error of
/// the first item that is refused.
pub open spec fn after_items(
    st: SessionState,
    path: CanonPath,
    deps: Seq<Dependency>,
    items: Seq<ModuleItem>,
) -> Result<SessionState, BindGenError>
    decreases items.len(),
{
    if items.len() == 0 {
        Ok(st)
    } else {
        match after_item(st, path, deps, items[0]) {
            Ok(next) => after_items(next, path, deps, items.skip(1)),
            Err(e) => Err(e),
        }
    }
}

/// What a module contributes to the graph.
pub open spec fn module_summary(data: ModuleData) -> Result<SessionState, BindGenError> {
    after_items(start_state(), data.path, data.dependencies@, data.module_ast@)
}

/// The node of the module at `path` whose items gave `st`.
pub open spec fn node_of(path: CanonPath, st: SessionState) -> NodeView {
    NodeView {
        path,
        rooted_export_types: st.rooted_types,
        rooted_export_values: st.rooted_values,
    }
}

/// `g` with the modules of `modules` put in, first to last, or the error
/// of the first module that is refused.
pub open spec fn graph_with(g: GraphView, modules: Seq<ModuleData>) -> Result<
    GraphView,
    BindGenError,
>
    decreases modules.len(),
{
    if modules.len() == 0 {
        Ok(g)
    } else {
        match module_summary(modules[0]) {
            Ok(st) => graph_with(
                g.put_module(node_of(modules[0].path, st), st.export_edges, st.import_edges),
                modules.skip(1),
            ),
            Err(e) => Err(e),
        }
    }
}

/// The graph without modules.
pub open spec fn empty_graph() -> GraphView {
    GraphView { nodes: Seq::empty(), export_edges: Seq::empty(), import_edges: Seq::empty() }
}

/// The binding graph of the modules of a cache.
pub open spec fn graph_of(modules: Seq<ModuleData>) -> Result<GraphView, BindGenError> {
    graph_with(empty_graph(), modules)
}

/// A graph that holds no module with the path `p` has no first such
/// module.
pub proof fn lemma_absent(g: GraphView, p: Seq<char>)
    requires
        !g.has_module(p),
    ensures
        g.module_at(p) is None,
{
    if exists|i: int| #[trigger] g.is_first(p, i) {
        let i = choose|i: int| #[trigger] g.is_first(p, i);
        assert(g.nodes[i].path@ == p);
    }
}

/// Putting a module into a well-formed graph leaves it well formed.
pub proof fn lemma_put_wf(g: GraphView, node: NodeView, exports: Seq<Export>, imports: Seq<Import>)
    requires
        g.wf(),
    ensures
        g.put_module(node, exports, imports).wf(),
{
    match g.module_at(node.path@) {
        Some(k) => {
            assert(g.is_first(node.path@, k));
        },
        None => {},
    }
}

/// Putting modules into a well-formed graph leaves it well formed.
pub proof fn lemma_graph_with_wf(g: GraphView, modules: Seq<ModuleData>)
    requires
        g.wf(),
    ensures
        match graph_with(g, modules) {
            Ok(r) => r.wf(),
            Err(_) => true,
        },
    decreases modules.len(),
{
    if modules.len() > 0 {
        match module_summary(modules[0]) {
            Ok(st) => {
                let node = node_of(modules[0].path, st);
                lemma_put_wf(g, node, st.export_edges, st.import_edges);
                lemma_graph_with_wf(
                    g.put_module(node, st.export_edges, st.import_edges),
                    modules.skip(1),
                );
            },
            Err(_) => {},
        }
    }
}

/// Putting in modules whose paths differ from each other and from those
/// of the graph adds each at the end: the graph keeps what it held, and
/// each module has its node at its place, under its path.
pub proof fn lemma_graph_with_shape(g: GraphView, modules: Seq<ModuleData>)
    requires
        g.wf(),
        distinct_paths(modules),
        forall|i: int| 0 <= i < modules.len() ==> !g.has_module((#[trigger] modules[i]).path@),
    ensures
        match graph_with(g, modules) {
            Ok(r) => {
                &&& r.wf()
                &&& r.nodes.len() == g.nodes.len() + modules.len()
                &&& forall|j: int| 0 <= j < g.nodes.len() ==> #[trigger] r.nodes[j] == g.nodes[j]
                &&& forall|i: int|
                    0 <= i < modules.len() ==> (#[trigger] r.nodes[g.nodes.len() + i]).path
                        == modules[i].path
            },
            Err(_) => true,
        },
    decreases modules.len(),
{
    if modules.len() > 0 {
        match module_summary(modules[0]) {
            Ok(st) => {
                let node = node_of(modules[0].path, st);
                assert(!g.has_module(modules[0].path@));
                lemma_absent(g, modules[0].path@);
                let next = g.put_module(node, st.export_edges, st.import_edges);
                assert(next == g.with_module(node, st.export_edges, st.import_edges));
                let rest = modules.skip(1);
                assert forall|i: int| 0 <= i < rest.len() implies !next.has_module(
                    (#[trigger] rest[i]).path@,
                ) by {
                    assert(rest[i] == modules[i + 1]);
                    assert(!g.has_module(modules[i + 1].path@));
                    if next.has_module(rest[i].path@) {
                        let w = choose|w: int|
                            0 <= w < next.nodes.len() && #[trigger] next.nodes[w].path@
                                == rest[i].path@;
                        if w < g.nodes.len() {
                            assert(g.nodes[w].path@ == rest[i].path@);
                        } else {
                            assert(modules[0].path@ != modules[i + 1].path@);
                        }
                    }
                }
                assert(distinct_paths(rest)) by {
                    assert forall|a: int, b: int| 0 <= a < b < rest.len() implies rest[a].path@
                        != rest[b].path@ by {
                        assert(rest[a] == modules[a + 1]);
                        assert(rest[b] == modules[b + 1]);
                    }
                }
                lemma_graph_with_shape(next, rest);
                match graph_with(next, rest) {
                    Ok(r) => {
                        assert forall|j: int| 0 <= j < g.nodes.len() implies #[trigger] r.nodes[j]
                            == g.nodes[j] by {
                            assert(r.nodes[j] == next.nodes[j]);
                        }
                        assert forall|i: int| 0 <= i < modules.len() implies (
                        #[trigger] r.nodes[g.nodes.len() + i]).path == modules[i].path by {
                            if i > 0 {
                                assert(rest[i - 1] == modules[i]);
                                assert(r.nodes[next.nodes.len() + (i - 1)].path == rest[i
                                    - 1].path);
                            } else {
                                assert(r.nodes[g.nodes.len() as int] == next.nodes[g.nodes.len() as int]);
                            }
                        }
                    },
                    Err(_) => {},
                }
            },
            Err(_) => {},
        }
    }
}

/// The binding graph of a cache that holds no path twice has a node and
/// two edge lists for each module of the cache, module by module.
pub proof fn lemma_graph_of_shape(modules: Seq<ModuleData>)
    requires
        distinct_paths(modules),
    ensures
        match graph_of(modules) {
            Ok(r) => {
                &&& r.wf()
                &&& r.nodes.len() == modules.len()
                &&& forall|i: int|
                    0 <= i < modules.len() ==> (#[trigger] r.nodes[i]).path == modules[i].path
            },
            Err(_) => true,
        },
{
    lemma_graph_with_shape(empty_graph(), modules);
    match graph_of(modules) {
        Ok(r) => {
            assert forall|i: int| 0 <= i < modules.len() implies (#[trigger] r.nodes[i]).path
                == modules[i].path by {
                assert(r.nodes[empty_graph().nodes.len() + i].path == modules[i].path);
            }
        },
        Err(_) => {},
    }
}

/// Builds the binding graph of a cache: one node for each module, under
/// its path, with the module's edges in source order. Where the cache holds
/// no path twice, the modules of the graph stand in the order of the cache.
pub fn init(cache: &ParsedModuleCache) -> (r: Result<ModuleGraph, BindGenError>)
    ensures
        match graph_of(cache.modules@) {
            Ok(g) => {
                &&& r is Ok
                &&& r->Ok_0@ == g
                &&& g.wf()
                &&& distinct_paths(cache.modules@) ==> g.nodes.len() == cache.modules@.len()
            },
            Err(e) => r == Err::<ModuleGraph, BindGenError>(e),
        },
{
    proof {
        lemma_graph_with_wf(empty_graph(), cache.modules@);
        if distinct_paths(cache.modules@) {
            lemma_graph_of_shape(cache.modules@);
        }
    }
    let mut graph = ModuleGraph {
        nodes: Vec::new(),
        export_edges: Vec::new(),
        import_edges: Vec::new(),
    };
    assert(graph@.nodes =~= empty_graph().nodes);
    assert(graph@.export_edges =~= empty_graph().export_edges);
    assert(graph@.import_edges =~= empty_graph().import_edges);
    assert(cache.modules@.skip(0) =~= cache.modules@);
    let mut i: usize = 0;
    while i < cache.modules.len()
        invariant
            i <= cache.modules@.len(),
            graph@.wf(),
            graph_of(cache.modules@) == graph_with(graph@, cache.modules@.skip(i as int)),
        decreases cache.modules@.len() - i,
    {
        assert(cache.modules@.skip(i as int).skip(1) =~= cache.modules@.skip(i as int + 1));
        match NodeInitSession::init(&mut graph, cache, &cache.modules[i]) {
            Ok(()) => {},
            Err(e) => {
                return Err(e);
            },
        }
        i += 1;
    }
    Ok(graph)
}

/// The walk over the items of one module.
pub struct NodeInitSession<'a> {
    pub path: &'a CanonPath,
    pub dependency_map: &'a Vec<Dependency>,
    pub import_edges: Vec<Import>,
    pub export_edges: Vec<Export>,
    pub rooted_values: Vec<String>,
    pub rooted_types: Vec<String>,
    pub value_scope: Scope<ItemState>,
    pub type_scope: Scope<ItemState>,
}

impl<'a> View for NodeInitSession<'a> {
    type V = SessionState;

    open spec fn view(&self) -> SessionState {
        SessionState {
            import_edges: self.import_edges@,
            export_edges: self.export_edges@,
            rooted_values: self.rooted_values@,
            rooted_types: self.rooted_types@,
            value_scope: self.value_scope@,
            type_scope: self.type_scope@,
        }
    }
}

impl<'a> NodeInitSession<'a> {
    /// Both scopes are well formed.
    pub open spec fn wf(&self) -> bool {
        self.value_scope.wf() && self.type_scope.wf()
    }

    /// The walk is over the same module as `other`.
    pub open spec fn same_module(&self, other: &Self) -> bool {
        self.path == other.path && self.dependency_map == other.dependency_map
    }

    /// A walk that has seen no item yet.
    pub fn new(path: &'a CanonPath, dependency_map: &'a Vec<Dependency>) -> (session: Self)
        ensures
            session.wf(),
            session.path == path,
            session.dependency_map == dependency_map,
            session@ == start_state(),
    {
        let session = NodeInitSession {
            path,
            dependency_map,
            import_edges: Vec::new(),
            export_edges: Vec::new(),
            rooted_values: Vec::new(),
            rooted_types: Vec::new(),
            value_scope: Scope::new(),
            type_scope: Scope::new(),
        };
        assert(session@.import_edges =~= start_state().import_edges);
        assert(session@.export_edges =~= start_state().export_edges);
        assert(session@.rooted_values =~= start_state().rooted_values);
        assert(session@.rooted_types =~= start_state().rooted_types);
        session
    }

    /// Walks the items of `module_data` and puts the module into `g` under
    /// its path: a module that `g` holds under that path is replaced. Where
    /// an item is refused, `g` stays as it was.
    pub fn init(g: &mut ModuleGraph, cache: &ParsedModuleCache, module_data: &ModuleData) -> (r:
        Result<(), BindGenError>)
        requires
            old(g)@.wf(),
        ensures
            final(g)@.wf(),
            match module_summary(*module_data) {
                Ok(st) => r is Ok && final(g)@ == old(g)@.put_module(
                    node_of(module_data.path, st),
                    st.export_edges,
                    st.import_edges,
                ),
                Err(e) => r == Err::<(), BindGenError>(e) && final(g)@ == old(g)@,
            },
    {
        let mut session = NodeInitSession::new(&module_data.path, &module_data.dependencies);
        let items = &module_data.module_ast;
        assert(items@.skip(0) =~= items@);
        let mut i: usize = 0;
        while i < items.len()
            invariant
                i <= items@.len(),
                g@.wf(),
                g@ == old(g)@,
                session.wf(),
                session.path == &module_data.path,
                session.dependency_map == &module_data.dependencies,
                module_summary(*module_data) == after_items(
                    session@,
                    module_data.path,
                    module_data.dependencies@,
                    items@.skip(i as int),
                ),
            decreases items@.len() - i,
        {
            assert(items@.skip(i as int).skip(1) =~= items@.skip(i as int + 1));
            match session.process_module_item(&items[i]) {
                Ok(()) => {},
                Err(e) => {
                    return Err(e);
                },
            }
            i += 1;
        }
        let ghost st = session@;
        let rooted_export_types = session.rooted_types;
        let rooted_export_values = session.rooted_values;
        let import_edges = session.import_edges;
        let export_edges = session.export_edges;

        let module_node = ModuleNode {
            path: module_data.path.clone(),
            rooted_export_types,
            rooted_export_values,
        };
        assert(module_node@ == node_of(module_data.path, st));

        proof {
            lemma_put_wf(old(g)@, node_of(module_data.path, st), st.export_edges, st.import_edges);
        }
        match find_module(g, &module_data.path) {
            Some(k) => {
                g.nodes.set(k, module_node);
                g.export_edges.set(k, export_edges);
                g.import_edges.set(k, import_edges);
            },
            None => {
                g.nodes.push(module_node);
                g.export_edges.push(export_edges);
                g.import_edges.push(import_edges);
            },
        }
        proof {
            let want = old(g)@.put_module(
                node_of(module_data.path, st),
                st.export_edges,
                st.import_edges,
            );
            assert(g@.nodes =~= want.nodes);
            assert(g@.export_edges =~= want.export_edges);
            assert(g@.import_edges =~= want.import_edges);
        }
        Ok(())
    }

    /// Enters `name` into the scopes of `kind` as `state`. A name that a
    /// scope holds already keeps what it stood for.
    pub fn scope_item(&mut self, name: String, state: ItemState, kind: ScopeKind)
        requires
            old(self).wf(),
        ensures
            final(self).wf(),
            final(self).same_module(old(self)),
            final(self)@ == scoped(old(self)@, name, state, kind),
    {
        match kind {
            ScopeKind::Value => {
                self.value_scope.insert(name, state);
            },
            ScopeKind::Type => {
                self.type_scope.insert(name, state);
            },
            ScopeKind::ValueType => {
                self.type_scope.insert(name.clone(), state.clone());
                self.value_scope.insert(name, state);
            },
        }
    }

    /// Handles one top-level item.
    pub fn process_module_item(&mut self, item: &ModuleItem) -> (r: Result<(), BindGenError>)
        requires
            old(self).wf(),
        ensures
            final(self).wf(),
            final(self).same_module(old(self)),
            match after_item(old(self)@, *old(self).path, old(self).dependency_map@, *item) {
                Ok(st) => r is Ok && final(self)@ == st,
                Err(e) => r == Err::<(), BindGenError>(e) && final(self)@ == old(self)@,
            },
    {
        match item {
            ModuleItem::ModuleDecl(decl) => self.process_module_decl(decl),
            ModuleItem::Stmt(stmt) => self.process_stmt(stmt),
        }
    }

    /// Handles a statement: a declaration enters the scopes, anything else
    /// is passed over.
    pub fn process_stmt(&mut self, stmt: &Stmt) -> (r: Result<(), BindGenError>)
        requires
            old(self).wf(),
        ensures
            final(self).wf(),
            final(self).same_module(old(self)),
            match after_item(
                old(self)@,
                *old(self).path,
                old(self).dependency_map@,
                ModuleItem::Stmt(*stmt),
            ) {
                Ok(st) => r is Ok && final(self)@ == st,
                Err(e) => r == Err::<(), BindGenError>(e) && final(self)@ == old(self)@,
            },
    {
        match stmt {
            Stmt::Decl(decl) => self.process_decl(decl, false),
            Stmt::Other => Ok(()),
        }
    }

    /// The error for a construct that is refused at `span`.
    fn refuse(&self, feature: UnsupportedFeature, span: Span) -> (e: BindGenError)
        ensures
            e == refused(*self.path, feature, span),
    {
        BindGenError {
            module: self.path.clone(),
            kind: BindGenErrorKind::UnsupportedFeature(feature),
            span,
        }
    }

    /// The error for a specifier at `span` that the dependency map lacks.
    fn unresolved_at(&self, span: Span) -> (e: BindGenError)
        ensures
            e == unresolved(*self.path, span),
    {
        BindGenError { module: self.path.clone(), kind: BindGenErrorKind::Resolve, span }
    }

    /// Handles an import or export declaration.
    #[verifier::loop_isolation(false)]
    pub fn process_module_decl(&mut self, module_decl: &ModuleDecl) -> (r: Result<
        (),
        BindGenError,
    >)
        requires
            old(self).wf(),
        ensures
            final(self).wf(),
            final(self).same_module(old(self)),
            match after_module_decl(
                old(self)@,
                *old(self).path,
                old(self).dependency_map@,
                *module_decl,
            ) {
                Ok(st) => r is Ok && final(self)@ == st,
                Err(e) => r == Err::<(), BindGenError>(e) && final(self)@ == old(self)@,
            },
    {
        match module_decl {
            ModuleDecl::Import(import) => {
                let src_canon_path: &CanonPath = match find_dependency(
                    self.dependency_map,
                    &import.src,
                ) {
                    Some(p) => p,
                    None => {
                        return Err(self.unresolved_at(import.span));
                    },
                };
                let specifiers = &import.specifiers;
                proof {
                    lemma_import_refusal(
                        old(self)@,
                        *old(self).path,
                        *src_canon_path,
                        specifiers@,
                    );
                }
                match self.check_import_specifiers(specifiers) {
                    Ok(()) => {},
                    Err(e) => {
                        return Err(e);
                    },
                }
                assert(specifiers@.skip(0) =~= specifiers@);
                let mut i: usize = 0;
                while i < specifiers.len()
                    invariant
                        i <= specifiers@.len(),
                        self.wf(),
                        self.same_module(old(self)),
                        forall|j: int|
                            0 <= j < specifiers@.len() ==> #[trigger] specifiers@[j] is Named,
                        after_import_specifiers(
                            old(self)@,
                            *old(self).path,
                            *src_canon_path,
                            specifiers@,
                        ) == after_import_specifiers(
                            self@,
                            *old(self).path,
                            *src_canon_path,
                            specifiers@.skip(i as int),
                        ),
                    decreases specifiers@.len() - i,
                {
                    assert(specifiers@.skip(i as int).skip(1) =~= specifiers@.skip(i as int + 1));
                    match self.handle_import_specifier(src_canon_path, &specifiers[i]) {
                        Ok(()) => {},
                        Err(e) => {
                            assert(specifiers@[i as int] is Named);
                            assert(false);
                            return Err(e);
                        },
                    }
                    i += 1;
                }
                Ok(())
            },
            ModuleDecl::ExportDecl { decl, .. } => self.process_decl(decl, true),
            ModuleDecl::ExportNamed(exp) => self.process_named_export(exp),
            ModuleDecl::ExportAll { src, span } => {
                let dep_canon_path = match find_dependency(self.dependency_map, src) {
                    Some(p) => p,
                    None => {
                        return Err(self.unresolved_at(*span));
                    },
                };
                self.export_edges.push(Export::All { source: dep_canon_path.clone() });
                Ok(())
            },
            ModuleDecl::ExportDefaultDecl { span } => Err(
                self.refuse(UnsupportedFeature::DefaultExport, *span),
            ),
            ModuleDecl::ExportDefaultExpr { span } => Err(
                self.refuse(UnsupportedFeature::DefaultExport, *span),
            ),
            ModuleDecl::TsImportEquals { span } => Err(
                self.refuse(UnsupportedFeature::ImportEquals, *span),
            ),
            ModuleDecl::TsExportAssignment { span } => Err(
                self.refuse(UnsupportedFeature::ExportEquals, *span),
            ),
            ModuleDecl::TsNamespaceExport { span } => Err(
                self.refuse(UnsupportedFeature::NamespaceExport, *span),
            ),
        }
    }

    /// Checks that every specifier of an import is a named one.
    fn check_import_specifiers(&self, specifiers: &Vec<ImportSpecifier>) -> (r: Result<
        (),
        BindGenError,
    >)
        ensures
            match import_refusal(*self.path, specifiers@) {
                Some(e) => r == Err::<(), BindGenError>(e),
                None => r is Ok && forall|i: int|
                    0 <= i < specifiers@.len() ==> #[trigger] specifiers@[i] is Named,
            },
    {
        assert(specifiers@.skip(0) =~= specifiers@);
        let mut i: usize = 0;
        while i < specifiers.len()
            invariant
                i <= specifiers@.len(),
                import_refusal(*self.path, specifiers@) == import_refusal(
                    *self.path,
                    specifiers@.skip(i as int),
                ),
                forall|j: int| 0 <= j < i ==> #[trigger] specifiers@[j] is Named,
            decreases specifiers@.len() - i,
        {
            assert(specifiers@.skip(i as int).skip(1) =~= specifiers@.skip(i as int + 1));
            match &specifiers[i] {
                ImportSpecifier::Named { .. } => {},
                ImportSpecifier::Default { span } => {
                    return Err(self.refuse(UnsupportedFeature::DefaultImport, *span));
                },
                ImportSpecifier::Namespace { span } => {
                    return Err(self.refuse(UnsupportedFeature::NamespaceImport, *span));
                },
            }
            i += 1;
        }
        Ok(())
    }

    /// Checks that every specifier of an export names a plain binding, and
    /// hands the specifiers back.
    pub fn prune_export_specifiers<'c>(
        &self,
        specifiers: &'c Vec<ExportSpecifier>,
        exp_span: &Span,
    ) -> (r: Result<&'c Vec<ExportSpecifier>, BindGenError>)
        ensures
            match specifier_refusal(*self.path, specifiers@, *exp_span) {
                Some(e) => r == Err::<&Vec<ExportSpecifier>, BindGenError>(e),
                None => r == Ok::<&Vec<ExportSpecifier>, BindGenError>(specifiers) && forall|
                    i: int,
                | 0 <= i < specifiers@.len() ==> #[trigger] specifiers@[i] is Named,
            },
    {
        assert(specifiers@.skip(0) =~= specifiers@);
        let mut i: usize = 0;
        while i < specifiers.len()
            invariant
                i <= specifiers@.len(),
                specifier_refusal(*self.path, specifiers@, *exp_span) == specifier_refusal(
                    *self.path,
                    specifiers@.skip(i as int),
                    *exp_span,
                ),
                forall|j: int| 0 <= j < i ==> #[trigger] specifiers@[j] is Named,
            decreases specifiers@.len() - i,
        {
            assert(specifiers@.skip(i as int).skip(1) =~= specifiers@.skip(i as int + 1));
            match &specifiers[i] {
                ExportSpecifier::Named { .. } => {},
                ExportSpecifier::Namespace { span } => {
                    return Err(self.refuse(UnsupportedFeature::NamespaceExport, *span));
                },
                ExportSpecifier::Default => {
                    return Err(self.refuse(UnsupportedFeature::DefaultExport, *exp_span));
                },
            }
            i += 1;
        }
        Ok(specifiers)
    }

    /// Exports the name `orig` of the value scope as `alias`.
    fn export_value(&mut self, orig: &String, alias: &String)
        requires
            old(self).wf(),
        ensures
            final(self).wf(),
            final(self).same_module(old(self)),
            final(self).type_scope == old(self).type_scope,
            final(self).rooted_types == old(self).rooted_types,
            final(self).import_edges == old(self).import_edges,
            final(self).value_scope == old(self).value_scope,
            (final(self).export_edges@, final(self).rooted_values@) == exported_from_scope(
                old(self).value_scope@,
                old(self).export_edges@,
                old(self).rooted_values@,
                *orig,
                *alias,
            ),
    {
        match self.value_scope.get(orig.as_str()) {
            Some(ItemState::Imported { source, src_key, .. }) => {
                self.export_edges.push(
                    Export::Named {
                        source: source.clone(),
                        src_key: src_key.clone(),
                        export_key: alias.clone(),
                    },
                );
            },
            Some(ItemState::Rooted) => {
                insert_key(&mut self.rooted_values, alias.clone());
            },
            None => {},
        }
    }

    /// Exports the name `orig` of the type scope as `alias`.
    fn export_type(&mut self, orig: &String, alias: &String)
        requires
            old(self).wf(),
        ensures
            final(self).wf(),
            final(self).same_module(old(self)),
            final(self).value_scope == old(self).value_scope,
            final(self).rooted_values == old(self).rooted_values,
            final(self).import_edges == old(self).import_edges,
            final(self).type_scope == old(self).type_scope,
            (final(self).export_edges@, final(self).rooted_types@) == exported_from_scope(
                old(self).type_scope@,
                old(self).export_edges@,
                old(self).rooted_types@,
                *orig,
                *alias,
            ),
    {
        match self.type_scope.get(orig.as_str()) {
            Some(ItemState::Imported { source, src_key, .. }) => {
                self.export_edges.push(
                    Export::Named {
                        source: source.clone(),
                        src_key: src_key.clone(),
                        export_key: alias.clone(),
                    },
                );
            },
            Some(ItemState::Rooted) => {
                insert_key(&mut self.rooted_types, alias.clone());
            },
            None => {},
        }
    }

    /// Handles `export { .. }`. With a source, each specifier gives an edge
    /// to the source whose namespace is still open. Without one, each
    /// specifier exports a name of the module's own scopes: an imported
    /// name gives an edge to where it came from, a declared name becomes a
    /// rooted export, in the value scope and in the type scope alike.
    #[verifier::loop_isolation(false)]
    pub fn process_named_export(&mut self, exp: &NamedExport) -> (r: Result<(), BindGenError>)
        requires
            old(self).wf(),
        ensures
            final(self).wf(),
            final(self).same_module(old(self)),
            match after_named_export(
                old(self)@,
                *old(self).path,
                old(self).dependency_map@,
                *exp,
            ) {
                Ok(st) => r is Ok && final(self)@ == st,
                Err(e) => r == Err::<(), BindGenError>(e) && final(self)@ == old(self)@,
            },
    {
        let specifiers = match self.prune_export_specifiers(&exp.specifiers, &exp.span) {
            Ok(specifiers) => specifiers,
            Err(e) => {
                return Err(e);
            },
        };
        assert(specifiers@.skip(0) =~= specifiers@);

        match &exp.src {
            Some(src) => {
                let src_canon_path: &CanonPath = match find_dependency(self.dependency_map, src) {
                    Some(p) => p,
                    None => {
                        return Err(self.unresolved_at(exp.span));
                    },
                };

                let mut i: usize = 0;
                while i < specifiers.len()
                    invariant
                        i <= specifiers@.len(),
                        self.wf(),
                        self.same_module(old(self)),
                        forall|j: int|
                            0 <= j < specifiers@.len() ==> #[trigger] specifiers@[j] is Named,
                        after_reexports(old(self)@, *src_canon_path, specifiers@)
                            == after_reexports(
                            self@,
                            *src_canon_path,
                            specifiers@.skip(i as int),
                        ),
                    decreases specifiers@.len() - i,
                {
                    assert(specifiers@.skip(i as int).skip(1) =~= specifiers@.skip(i as int + 1));
                    match &specifiers[i] {
                        ExportSpecifier::Named { orig, exported } => {
                            let orig_key = orig.clone();
                            let export_key = match exported {
                                Some(alias) => alias.clone(),
                                None => orig_key.clone(),
                            };
                            self.export_edges.push(
                                Export::Named {
                                    source: src_canon_path.clone(),
                                    src_key: orig_key,
                                    export_key,
                                },
                            );
                        },
                        _ => {
                            assert(false);
                        },
                    }
                    i += 1;
                }
                Ok(())
            },
            None => {
                let mut i: usize = 0;
                while i < specifiers.len()
                    invariant
                        i <= specifiers@.len(),
                        self.wf(),
                        self.same_module(old(self)),
                        forall|j: int|
                            0 <= j < specifiers@.len() ==> #[trigger] specifiers@[j] is Named,
                        after_local_exports(old(self)@, specifiers@) == after_local_exports(
                            self@,
                            specifiers@.skip(i as int),
                        ),
                    decreases specifiers@.len() - i,
                {
                    assert(specifiers@.skip(i as int).skip(1) =~= specifiers@.skip(i as int + 1));
                    match &specifiers[i] {
                        ExportSpecifier::Named { orig, exported } => {
                            let export_key = match exported {
                                Some(alias) => alias,
                                None => orig,
                            };
                            self.export_value(orig, export_key);
                            self.export_type(orig, export_key);
                        },
                        _ => {
                            assert(false);
                        },
                    }
                    i += 1;
                }
                Ok(())
            },
        }
    }

    /// Handles a declaration: its names enter the scopes of their kind
    /// and, where the declaration is exported, become rooted exports.
    #[verifier::loop_isolation(false)]
    pub fn process_decl(&mut self, decl: &Decl, export: bool) -> (r: Result<(), BindGenError>)
        requires
            old(self).wf(),
        ensures
            final(self).wf(),
            final(self).same_module(old(self)),
            match after_decl(old(self)@, *old(self).path, *decl, export) {
                Ok(st) => r is Ok && final(self)@ == st,
                Err(e) => r == Err::<(), BindGenError>(e) && final(self)@ == old(self)@,
            },
    {
        let (symbols, scope_kind): (Vec<String>, ScopeKind) = match decl {
            Decl::Class(class) => (vec![class.name.clone()], ScopeKind::ValueType),
            Decl::Fn(function) => (vec![function.name.clone()], ScopeKind::Value),
            Decl::Var(var) => {
                let mut symbols: Vec<String> = Vec::new();
                let decls = &var.decls;
                assert(decls@.skip(0) =~= decls@);
                let mut i: usize = 0;
                while i < decls.len()
                    invariant
                        i <= decls@.len(),
                        forall|j: int| 0 <= j < i ==> #[trigger] decls@[j] is Ident,
                        pat_names(decls@) == symbols@ + pat_names(decls@.skip(i as int)),
                    decreases decls@.len() - i,
                {
                    assert(decls@.skip(i as int).skip(1) =~= decls@.skip(i as int + 1));
                    match &decls[i] {
                        Pat::Ident { name, .. } => {
                            let ghost before = symbols@;
                            symbols.push(name.clone());
                            assert(symbols@ + pat_names(decls@.skip(i as int + 1)) =~= before + (
                            seq![*name] + pat_names(decls@.skip(i as int + 1))));
                        },
                        Pat::Other => {
                            return Err(
                                BindGenError {
                                    module: self.path.clone(),
                                    kind: BindGenErrorKind::UnsupportedFeature(
                                        UnsupportedFeature::DestructuringPattern,
                                    ),
                                    span: var.span,
                                },
                            );
                        },
                    }
                    i += 1;
                }
                assert(symbols@ =~= pat_names(decls@));
                (symbols, ScopeKind::Value)
            },
            Decl::TsInterface(interface) => (vec![interface.name.clone()], ScopeKind::Type),
            Decl::TsTypeAlias(alias) => (vec![alias.name.clone()], ScopeKind::Type),
            Decl::TsEnum(enumeration) => (vec![enumeration.name.clone()], ScopeKind::Type),
            Decl::TsModule { span } => {
                return Err(self.refuse(UnsupportedFeature::TsNamespace, *span));
            },
        };
        assert(symbols@ =~= decl_symbols(*decl));
        assert(symbols@.skip(0) =~= symbols@);

        let mut i: usize = 0;
        while i < symbols.len()
            invariant
                i <= symbols@.len(),
                self.wf(),
                self.same_module(old(self)),
                declared_all(old(self)@, symbols@, scope_kind, export) == declared_all(
                    self@,
                    symbols@.skip(i as int),
                    scope_kind,
                    export,
                ),
            decreases symbols@.len() - i,
        {
            assert(symbols@.skip(i as int).skip(1) =~= symbols@.skip(i as int + 1));
            let symbol = symbols[i].clone();
            match scope_kind {
                ScopeKind::Value => {
                    if export {
                        insert_key(&mut self.rooted_values, symbol.clone());
                    }
                    self.scope_item(symbol, ItemState::Rooted, scope_kind);
                },
                ScopeKind::Type => {
                    if export {
                        insert_key(&mut self.rooted_types, symbol.clone());
                    }
                    self.scope_item(symbol, ItemState::Rooted, scope_kind);
                },
                ScopeKind::ValueType => {
                    if export {
                        insert_key(&mut self.rooted_types, symbol.clone());
                        insert_key(&mut self.rooted_values, symbol.clone());
                    }
                    self.scope_item(symbol, ItemState::Rooted, scope_kind);
                },
            }
            i += 1;
        }
        Ok(())
    }

    /// Handles one specifier of an import from `source`: a named specifier
    /// gives an import edge and enters both scopes under its local name.
    pub fn handle_import_specifier(&mut self, source: &CanonPath, spec: &ImportSpecifier) -> (r:
        Result<(), BindGenError>)
        requires
            old(self).wf(),
        ensures
            final(self).wf(),
            final(self).same_module(old(self)),
            match after_import_specifier(old(self)@, *old(self).path, *source, *spec) {
                Ok(st) => r is Ok && final(self)@ == st,
                Err(e) => r == Err::<(), BindGenError>(e) && final(self)@ == old(self)@,
            },
    {
        match spec {
            ImportSpecifier::Named { local, imported } => {
                let src_key = match imported {
                    Some(name) => name.clone(),
                    None => local.clone(),
                };
                let as_key = local.clone();

                self.import_edges.push(
                    Import::Named { source: source.clone(), src_key: src_key.clone() },
                );

                let item = ItemState::Imported { source: source.clone(), src_key, as_key };

                let import_key = local.clone();
                self.scope_item(import_key, item, ScopeKind::ValueType);

                Ok(())
            },
            ImportSpecifier::Default { span } => Err(
                self.refuse(UnsupportedFeature::DefaultImport, *span),
            ),
            ImportSpecifier::Namespace { span } => Err(
                self.refuse(UnsupportedFeature::NamespaceImport, *span),
            ),
        }
    }
}

} // verus!
