//! Graph reduction: every re-export is followed to the module that
//! declares what it hands on. In the reduced graph each edge names its
//! namespace and points at a rooted export, and no `All` edge is left.

use vstd::prelude::*;

use crate::bind_graph_init::{Export, GraphView, ModuleGraph, NodeView};
use crate::structures::{has_key, insert_key, with_key, CanonPath};

verus! {

/// The two namespaces of the language.
#[derive(Debug, Clone, Copy, PartialEq, Eq, Structural)]
pub enum Namespace {
    Type,
    Value,
}

/// A place reached while following re-exports: a module, by its path, and
/// the key under which the module is asked.
pub struct Target {
    pub module: CanonPath,
    pub key: String,
}

/// A place already visited: a module, by its position, and the key.
pub struct Visit {
    pub module: usize,
    pub key: String,
}

/// An export that leads to no declaration.
#[derive(Debug, PartialEq, Eq)]
pub struct DanglingExport {
    pub module: CanonPath,
    pub export_key: String,
}

impl Export {
    /// The key under which a named edge exports.
    pub open spec fn key(self) -> String {
        match self {
            Export::NamedType { export_key, .. } => export_key,
            Export::NamedValue { export_key, .. } => export_key,
            Export::Named { export_key, .. } => export_key,
            Export::All { .. } => arbitrary(),
        }
    }

    /// The key of the source that a named edge hands on.
    pub open spec fn src_key(self) -> String {
        match self {
            Export::NamedType { src_key, .. } => src_key,
            Export::NamedValue { src_key, .. } => src_key,
            Export::Named { src_key, .. } => src_key,
            Export::All { .. } => arbitrary(),
        }
    }

    /// Whether the edge may stand for a name of `ns`.
    pub open spec fn serves(self, ns: Namespace) -> bool {
        match self {
            Export::NamedType { .. } => ns == Namespace::Type,
            Export::NamedValue { .. } => ns == Namespace::Value,
            Export::Named { .. } => true,
            Export::All { .. } => false,
        }
    }

    /// Whether the edge is a named edge that exports under `k`.
    pub open spec fn names(self, k: Seq<char>) -> bool {
        self !is All && self.key()@ == k
    }
}

/// The edge of namespace `ns` that exports as `export_key` what `source`
/// exports as `src_key`.
pub open spec fn edge_of(ns: Namespace, source: CanonPath, src_key: String, export_key: String)
    -> Export {
    match ns {
        Namespace::Type => Export::NamedType { source, src_key, export_key },
        Namespace::Value => Export::NamedValue { source, src_key, export_key },
    }
}

/// Whether the module declares what it exports as `k` in `ns`.
pub open spec fn rooted_in(node: NodeView, k: Seq<char>, ns: Namespace) -> bool {
    match ns {
        Namespace::Type => has_key(node.rooted_export_types, k),
        Namespace::Value => has_key(node.rooted_export_values, k),
    }
}

impl GraphView {
    /// Whether `i` is the first module with the path `p`.
    pub open spec fn is_first(self, p: Seq<char>, i: int) -> bool {
        &&& 0 <= i < self.nodes.len()
        &&& self.nodes[i].path@ == p
        &&& forall|j: int| 0 <= j < i ==> self.nodes[j].path@ != p
    }

    /// The position of the first module with the path `p`.
    pub open spec fn module_at(self, p: Seq<char>) -> Option<int> {
        if exists|i: int| #[trigger] self.is_first(p, i) {
            Some(choose|i: int| #[trigger] self.is_first(p, i))
        } else {
            None
        }
    }

    /// Whether module `mi` exports `k` by itself: by a declaration of its
    /// own, in either namespace, or by a named edge.
    pub open spec fn shadowed(self, mi: int, k: Seq<char>) -> bool {
        ||| has_key(self.nodes[mi].rooted_export_types, k)
        ||| has_key(self.nodes[mi].rooted_export_values, k)
        ||| exists|j: int|
            0 <= j < self.export_edges[mi].len() && (#[trigger] self.export_edges[mi][j]).names(k)
    }
}

/// Whether the pair of module `mi` and key `k` has been visited.
pub open spec fn seen(visited: Seq<Visit>, mi: int, k: Seq<char>) -> bool {
    exists|j: int|
        0 <= j < visited.len() && (#[trigger] visited[j]).module == mi && visited[j].key@ == k
}

/// `acc`, followed by the places to which the named edges among `edges`
/// lead for the key `k` in `ns`, in order.
pub open spec fn explicit_onto(acc: Seq<Target>, edges: Seq<Export>, k: Seq<char>, ns: Namespace)
    -> Seq<Target>
    decreases edges.len(),
{
    if edges.len() == 0 {
        acc
    } else if edges[0].names(k) && edges[0].serves(ns) {
        explicit_onto(
            acc.push(Target { module: edges[0].source(), key: edges[0].src_key() }),
            edges.skip(1),
            k,
            ns,
        )
    } else {
        explicit_onto(acc, edges.skip(1), k, ns)
    }
}

/// `acc`, followed by the sources of the `All` edges among `edges`, each
/// asked for `k`, in order.
pub open spec fn stars_onto(acc: Seq<Target>, edges: Seq<Export>, k: String) -> Seq<Target>
    decreases edges.len(),
{
    if edges.len() == 0 {
        acc
    } else if edges[0] is All {
        stars_onto(acc.push(Target { module: edges[0].source(), key: k }), edges.skip(1), k)
    } else {
        stars_onto(acc, edges.skip(1), k)
    }
}

/// Where to look next for what module `mi` exports as `k` in `ns`, in
/// order of precedence: first the named edges of the module that export
/// under `k`; then, unless the module exports `k` by itself, the sources of
/// its `All` edges.
pub open spec fn successors(g: GraphView, mi: int, k: String, ns: Namespace) -> Seq<Target> {
    let explicit = explicit_onto(Seq::empty(), g.export_edges[mi], k@, ns);
    if g.shadowed(mi, k@) {
        explicit
    } else {
        stars_onto(explicit, g.export_edges[mi], k)
    }
}

/// The rooted export that module `mi` hands on as `k` in `ns`, as the
/// position of the declaring module and its key there. `visited` holds the
/// pairs of module and key that led here: a pair is never visited twice, so
/// that a cycle of re-exports resolves to nothing. Among several places to
/// look, the first that resolves wins. A chain of `usize::MAX` pairs, which
/// no machine can hold, resolves to nothing.
pub open spec fn resolve(g: GraphView, mi: int, k: String, ns: Namespace, visited: Seq<Visit>)
    -> Option<(int, String)>
    decreases usize::MAX - visited.len(), 0int, 0int,
{
    if !(0 <= mi < g.nodes.len() && mi <= usize::MAX) || visited.len() >= usize::MAX || seen(
        visited,
        mi,
        k@,
    ) {
        None
    } else if rooted_in(g.nodes[mi], k@, ns) {
        Some((mi, k))
    } else {
        first_resolved(
            g,
            successors(g, mi, k, ns),
            ns,
            visited.push(Visit { module: mi as usize, key: k }),
        )
    }
}

/// What the first of `alts` that resolves, resolves to.
pub open spec fn first_resolved(
    g: GraphView,
    alts: Seq<Target>,
    ns: Namespace,
    visited: Seq<Visit>,
) -> Option<(int, String)>
    decreases usize::MAX - visited.len(), 1int, alts.len(),
{
    if alts.len() == 0 {
        None
    } else {
        match resolve_at(g, alts[0], ns, visited) {
            Some(t) => Some(t),
            None => first_resolved(g, alts.skip(1), ns, visited),
        }
    }
}

/// The rooted export that the module and key of `t` hand on in `ns`.
pub open spec fn resolve_at(g: GraphView, t: Target, ns: Namespace, visited: Seq<Visit>)
    -> Option<(int, String)>
    decreases usize::MAX - visited.len(), 0int, 1int,
{
    match g.module_at(t.module@) {
        Some(si) => resolve(g, si, t.key, ns, visited),
        None => None,
    }
}

/// `acc`, with each of `keys` added that it does not hold yet.
pub open spec fn keys_onto(acc: Seq<String>, keys: Seq<String>) -> Seq<String>
    decreases keys.len(),
{
    if keys.len() == 0 {
        acc
    } else {
        keys_onto(with_key(acc, keys[0]), keys.skip(1))
    }
}

/// Whether module `mi` is among `visited`.
pub open spec fn on_path(visited: Seq<usize>, mi: int) -> bool {
    exists|j: int| 0 <= j < visited.len() && #[trigger] visited[j] == mi
}

/// The keys under which module `mi` may export something, each once, in
/// the module's export order: the rooted types, the rooted values, then
/// edge by edge the key of a named edge and the keys that the source of an
/// `All` edge may export. `visited` holds the modules whose `All` edges led
/// here; none is entered twice, and a chain of `usize::MAX` modules, which
/// no machine can hold, is followed no further.
pub open spec fn exposed_keys(g: GraphView, mi: int, visited: Seq<usize>) -> Seq<String>
    decreases usize::MAX - visited.len(), 0int, 0int,
{
    if !(0 <= mi < g.nodes.len() && mi <= usize::MAX) || visited.len() >= usize::MAX || on_path(
        visited,
        mi,
    ) {
        Seq::empty()
    } else {
        edge_keys_onto(
            keys_onto(
                keys_onto(Seq::empty(), g.nodes[mi].rooted_export_types),
                g.nodes[mi].rooted_export_values,
            ),
            g,
            g.export_edges[mi],
            visited.push(mi as usize),
        )
    }
}

/// `acc`, with the keys added under which `edges` may export something.
pub open spec fn edge_keys_onto(
    acc: Seq<String>,
    g: GraphView,
    edges: Seq<Export>,
    visited: Seq<usize>,
) -> Seq<String>
    decreases usize::MAX - visited.len(), 1int, edges.len(),
{
    if edges.len() == 0 {
        acc
    } else {
        let next = match edges[0] {
            Export::All { source } => match g.module_at(source@) {
                Some(si) => keys_onto(acc, exposed_keys(g, si, visited)),
                None => acc,
            },
            named => with_key(acc, named.key()),
        };
        edge_keys_onto(next, g, edges.skip(1), visited)
    }
}

/// What a named edge from `source` and `src_key` to `export_key` reduces to
/// in `ns`: one edge to the rooted export it leads to, or nothing.
pub open spec fn named_edge(
    g: GraphView,
    source: CanonPath,
    src_key: String,
    export_key: String,
    ns: Namespace,
    visited: Seq<Visit>,
) -> Seq<Export> {
    match resolve_at(g, Target { module: source, key: src_key }, ns, visited) {
        Some((ti, tk)) => seq![edge_of(ns, g.nodes[ti].path, tk, export_key)],
        None => Seq::empty(),
    }
}

/// The pair that stands for module `mi` exporting `k` through its `All`
/// edges.
pub open spec fn through(mi: int, k: String) -> Seq<Visit> {
    seq![Visit { module: mi as usize, key: k }]
}

/// Whether one of the `All` edges among `edges`, which stand in module
/// `mi`, hands on `k` in `ns`.
pub open spec fn star_gives(g: GraphView, mi: int, edges: Seq<Export>, k: String, ns: Namespace)
    -> bool {
    exists|j: int|
        0 <= j < edges.len() && (#[trigger] edges[j]) is All && named_edge(
            g,
            edges[j].source(),
            k,
            k,
            ns,
            through(mi, k),
        ).len() > 0
}

/// What the `All` edge at `pos` of module `mi` gives for `k` in `ns`:
/// nothing where the module exports `k` by itself or an earlier `All` edge
/// of the module hands `k` on in `ns`; else what the source hands on.
pub open spec fn star_edge(g: GraphView, mi: int, pos: int, k: String, ns: Namespace) -> Seq<
    Export,
> {
    let edges = g.export_edges[mi];
    if g.shadowed(mi, k@) || star_gives(g, mi, edges.take(pos), k, ns) {
        Seq::empty()
    } else {
        named_edge(g, edges[pos].source(), k, k, ns, through(mi, k))
    }
}

/// `acc`, followed by what the `All` edge at `pos` of module `mi` gives for
/// each of `keys`, in order, the type before the value.
pub open spec fn star_edges_onto(
    acc: Seq<Export>,
    g: GraphView,
    mi: int,
    pos: int,
    keys: Seq<String>,
) -> Seq<Export>
    decreases keys.len(),
{
    if keys.len() == 0 {
        acc
    } else {
        star_edges_onto(
            acc + star_edge(g, mi, pos, keys[0], Namespace::Type) + star_edge(
                g,
                mi,
                pos,
                keys[0],
                Namespace::Value,
            ),
            g,
            mi,
            pos,
            keys.skip(1),
        )
    }
}

/// What the edge at `pos` of module `mi` reduces to. A named edge gives an
/// edge for each namespace in which it resolves, the type first. An `All`
/// edge gives an edge for each key that its source exposes and that is not
/// taken already, in the source's export order.
pub open spec fn contribution(g: GraphView, mi: int, pos: int) -> Seq<Export> {
    match g.export_edges[mi][pos] {
        Export::Named { source, src_key, export_key } => named_edge(
            g,
            source,
            src_key,
            export_key,
            Namespace::Type,
            Seq::empty(),
        ) + named_edge(g, source, src_key, export_key, Namespace::Value, Seq::empty()),
        Export::NamedType { source, src_key, export_key } => named_edge(
            g,
            source,
            src_key,
            export_key,
            Namespace::Type,
            Seq::empty(),
        ),
        Export::NamedValue { source, src_key, export_key } => named_edge(
            g,
            source,
            src_key,
            export_key,
            Namespace::Value,
            Seq::empty(),
        ),
        Export::All { source } => match g.module_at(source@) {
            Some(si) => star_edges_onto(
                Seq::empty(),
                g,
                mi,
                pos,
                exposed_keys(g, si, seq![mi as usize]),
            ),
            None => Seq::empty(),
        },
    }
}

/// What the first `pos` edges of module `mi` reduce to: the contributions
/// of the edges, in source order.
pub open spec fn reduced_upto(g: GraphView, mi: int, pos: int) -> Seq<Export>
    decreases pos,
{
    if pos <= 0 {
        Seq::empty()
    } else {
        reduced_upto(g, mi, pos - 1) + contribution(g, mi, pos - 1)
    }
}

/// The reduced edges of module `mi`.
pub open spec fn reduced_edges(g: GraphView, mi: int) -> Seq<Export> {
    reduced_upto(g, mi, g.export_edges[mi].len() as int)
}

/// The reduced graph: the modules and the imports as they were, and for
/// each module its reduced edges.
pub open spec fn reduced(g: GraphView) -> GraphView {
    GraphView {
        nodes: g.nodes,
        export_edges: Seq::new(g.nodes.len(), |mi: int| reduced_edges(g, mi)),
        import_edges: g.import_edges,
    }
}

/// The report for the edge at `pos` of module `mi`: a named edge that
/// reduces to nothing is dangling.
pub open spec fn report(g: GraphView, mi: int, pos: int) -> Seq<DanglingExport> {
    let e = g.export_edges[mi][pos];
    if e !is All && contribution(g, mi, pos).len() == 0 {
        seq![DanglingExport { module: g.nodes[mi].path, export_key: e.key() }]
    } else {
        Seq::empty()
    }
}

/// The reports for the first `pos` edges of module `mi`, in source order.
pub open spec fn reports_upto(g: GraphView, mi: int, pos: int) -> Seq<DanglingExport>
    decreases pos,
{
    if pos <= 0 {
        Seq::empty()
    } else {
        reports_upto(g, mi, pos - 1) + report(g, mi, pos - 1)
    }
}

/// The reports for the first `n` modules, in order.
pub open spec fn dangling_upto(g: GraphView, n: int) -> Seq<DanglingExport>
    decreases n,
{
    if n <= 0 {
        Seq::empty()
    } else {
        dangling_upto(g, n - 1) + reports_upto(g, n - 1, g.export_edges[n - 1].len() as int)
    }
}

/// The dangling exports of a graph, module by module.
pub open spec fn dangling(g: GraphView) -> Seq<DanglingExport> {
    dangling_upto(g, g.nodes.len() as int)
}

/// Whether `r` holds what `s` holds.
pub open spec fn same_place(r: Option<(usize, String)>, s: Option<(int, String)>) -> bool {
    match (r, s) {
        (Some(a), Some(b)) => a.0 == b.0 && a.1 == b.1,
        (None, None) => true,
        _ => false,
    }
}

/// The sequence that holds `e`, or nothing.
pub open spec fn opt_seq(e: Option<Export>) -> Seq<Export> {
    match e {
        Some(edge) => seq![edge],
        None => Seq::empty(),
    }
}

/// At most one module is the first with the path `p`.
pub proof fn lemma_first_unique(g: GraphView, p: Seq<char>, i: int)
    requires
        g.is_first(p, i),
    ensures
        g.module_at(p) == Some(i),
{
    let c = choose|c: int| #[trigger] g.is_first(p, c);
    assert(g.is_first(p, c));
    if c < i {
        assert(g.nodes[c].path@ != p);
    }
    if i < c {
        assert(g.nodes[i].path@ != p);
    }
}

impl Export {
    /// Whether the edge is a named edge that exports under `k`.
    pub fn exports_under(&self, k: &String) -> (r: bool)
        ensures
            r == self.names(k@),
    {
        match self {
            Export::NamedType { export_key, .. } => *export_key == *k,
            Export::NamedValue { export_key, .. } => *export_key == *k,
            Export::Named { export_key, .. } => *export_key == *k,
            Export::All { .. } => false,
        }
    }

    /// Whether the edge may stand for a name of `ns`.
    pub fn may_serve(&self, ns: Namespace) -> (r: bool)
        ensures
            r == self.serves(ns),
    {
        match self {
            Export::NamedType { .. } => ns == Namespace::Type,
            Export::NamedValue { .. } => ns == Namespace::Value,
            Export::Named { .. } => true,
            Export::All { .. } => false,
        }
    }
}

/// The position of the first module with the path `p`.
pub fn find_module(g: &ModuleGraph, p: &CanonPath) -> (r: Option<usize>)
    ensures
        match r {
            Some(i) => g@.module_at(p@) == Some(i as int) && i < g.nodes@.len(),
            None => g@.module_at(p@) is None,
        },
{
    let mut i: usize = 0;
    while i < g.nodes.len()
        invariant
            i <= g.nodes@.len(),
            forall|j: int| 0 <= j < i ==> g@.nodes[j].path@ != p@,
        decreases g.nodes@.len() - i,
    {
        if g.nodes[i].path.same(p) {
            proof {
                assert(g@.nodes[i as int].path@ == p@);
                assert(g@.is_first(p@, i as int));
                lemma_first_unique(g@, p@, i as int);
            }
            return Some(i);
        }
        assert(g@.nodes[i as int].path@ != p@);
        i += 1;
    }
    assert forall|c: int| !#[trigger] g@.is_first(p@, c) by {
        if g@.is_first(p@, c) {
            assert(g@.nodes[c].path@ != p@);
        }
    }
    None
}

/// Whether the pair of module `mi` and key `k` is among `visited`.
fn was_seen(visited: &Vec<Visit>, mi: usize, k: &String) -> (r: bool)
    ensures
        r == seen(visited@, mi as int, k@),
{
    let mut i: usize = 0;
    while i < visited.len()
        invariant
            i <= visited@.len(),
            forall|j: int|
                0 <= j < i ==> !((#[trigger] visited@[j]).module == mi && visited@[j].key@ == k@),
        decreases visited@.len() - i,
    {
        if visited[i].module == mi && visited[i].key == *k {
            return true;
        }
        i += 1;
    }
    false
}

/// Whether module `mi` is among `visited`.
fn is_on_path(visited: &Vec<usize>, mi: usize) -> (r: bool)
    ensures
        r == on_path(visited@, mi as int),
{
    let mut i: usize = 0;
    while i < visited.len()
        invariant
            i <= visited@.len(),
            forall|j: int| 0 <= j < i ==> #[trigger] visited@[j] != mi,
        decreases visited@.len() - i,
    {
        if visited[i] == mi {
            return true;
        }
        i += 1;
    }
    false
}

/// Whether module `mi` declares what it exports as `k` in `ns`.
fn is_rooted(g: &ModuleGraph, mi: usize, k: &String, ns: Namespace) -> (r: bool)
    requires
        mi < g.nodes@.len(),
    ensures
        r == rooted_in(g@.nodes[mi as int], k@, ns),
{
    match ns {
        Namespace::Type => g.nodes[mi].is_rooted_type(k),
        Namespace::Value => g.nodes[mi].is_rooted_value(k),
    }
}

/// Whether module `mi` exports `k` by itself.
fn is_shadowed(g: &ModuleGraph, mi: usize, k: &String) -> (r: bool)
    requires
        g@.wf(),
        mi < g.nodes@.len(),
    ensures
        r == g@.shadowed(mi as int, k@),
{
    if g.nodes[mi].is_rooted_type(k) || g.nodes[mi].is_rooted_value(k) {
        return true;
    }
    let edges = &g.export_edges[mi];
    assert(edges@ == g@.export_edges[mi as int]);
    let mut i: usize = 0;
    while i < edges.len()
        invariant
            i <= edges@.len(),
            mi < g.nodes@.len(),
            edges@ == g@.export_edges[mi as int],
            !has_key(g@.nodes[mi as int].rooted_export_types, k@),
            !has_key(g@.nodes[mi as int].rooted_export_values, k@),
            forall|j: int| 0 <= j < i ==> !(#[trigger] edges@[j]).names(k@),
        decreases edges@.len() - i,
    {
        if edges[i].exports_under(k) {
            assert(g@.export_edges[mi as int][i as int].names(k@));
            return true;
        }
        i += 1;
    }
    false
}

/// Where to look next for what module `mi` exports as `k` in `ns`.
fn successors_of(g: &ModuleGraph, mi: usize, k: &String, ns: Namespace) -> (r: Vec<Target>)
    requires
        g@.wf(),
        mi < g.nodes@.len(),
    ensures
        r@ == successors(g@, mi as int, *k, ns),
{
    let edges = &g.export_edges[mi];
    assert(edges@ == g@.export_edges[mi as int]);
    let mut alts: Vec<Target> = Vec::new();
    assert(edges@.skip(0) =~= edges@);
    let mut i: usize = 0;
    while i < edges.len()
        invariant
            i <= edges@.len(),
            explicit_onto(Seq::empty(), edges@, k@, ns) == explicit_onto(
                alts@,
                edges@.skip(i as int),
                k@,
                ns,
            ),
        decreases edges@.len() - i,
    {
        assert(edges@.skip(i as int).skip(1) =~= edges@.skip(i as int + 1));
        if edges[i].exports_under(k) && edges[i].may_serve(ns) {
            match &edges[i] {
                Export::NamedType { source, src_key, .. } => {
                    alts.push(Target { module: source.clone(), key: src_key.clone() });
                },
                Export::NamedValue { source, src_key, .. } => {
                    alts.push(Target { module: source.clone(), key: src_key.clone() });
                },
                Export::Named { source, src_key, .. } => {
                    alts.push(Target { module: source.clone(), key: src_key.clone() });
                },
                Export::All { .. } => {},
            }
        }
        i += 1;
    }
    if is_shadowed(g, mi, k) {
        return alts;
    }
    let ghost explicit = alts@;
    let mut i: usize = 0;
    while i < edges.len()
        invariant
            i <= edges@.len(),
            stars_onto(explicit, edges@, *k) == stars_onto(alts@, edges@.skip(i as int), *k),
        decreases edges@.len() - i,
    {
        assert(edges@.skip(i as int).skip(1) =~= edges@.skip(i as int + 1));
        match &edges[i] {
            Export::All { source } => {
                alts.push(Target { module: source.clone(), key: k.clone() });
            },
            _ => {},
        }
        i += 1;
    }
    alts
}

/// Follows the re-exports of module `mi` for the key `k` in `ns` to the
/// module that declares what is handed on.
pub fn resolve_from(
    g: &ModuleGraph,
    mi: usize,
    k: &String,
    ns: Namespace,
    visited: &mut Vec<Visit>,
) -> (r: Option<(usize, String)>)
    requires
        g@.wf(),
    ensures
        final(visited)@ == old(visited)@,
        same_place(r, resolve(g@, mi as int, *k, ns, old(visited)@)),
        r is Some ==> r->Some_0.0 < g.nodes@.len(),
    decreases usize::MAX - old(visited)@.len(),
{
    if mi >= g.nodes.len() || visited.len() >= usize::MAX || was_seen(visited, mi, k) {
        return None;
    }
    if is_rooted(g, mi, k, ns) {
        return Some((mi, k.clone()));
    }
    let alts = successors_of(g, mi, k, ns);
    visited.push(Visit { module: mi, key: k.clone() });
    let ghost inner = visited@;
    let mut found: Option<(usize, String)> = None;
    assert(alts@.skip(0) =~= alts@);
    let mut i: usize = 0;
    while i < alts.len() && found.is_none()
        invariant
            g@.wf(),
            i <= alts@.len(),
            visited@ == inner,
            inner.len() == old(visited)@.len() + 1,
            inner.len() <= usize::MAX,
            found is Some ==> found->Some_0.0 < g.nodes@.len(),
            match found {
                Some(_) => same_place(found, first_resolved(g@, alts@, ns, inner)),
                None => first_resolved(g@, alts@, ns, inner) == first_resolved(
                    g@,
                    alts@.skip(i as int),
                    ns,
                    inner,
                ),
            },
        decreases alts@.len() - i,
    {
        assert(alts@.skip(i as int).skip(1) =~= alts@.skip(i as int + 1));
        assert(alts@.skip(i as int)[0] == alts@[i as int]);
        found =
        match find_module(g, &alts[i].module) {
            Some(si) => resolve_from(g, si, &alts[i].key, ns, visited),
            None => None,
        };
        assert(same_place(found, resolve_at(g@, alts@[i as int], ns, inner)));
        i += 1;
    }
    visited.pop();
    assert(visited@ =~= old(visited)@);
    found
}

/// Adds each of `keys` that `acc` does not hold yet.
fn add_keys(acc: &mut Vec<String>, keys: &Vec<String>)
    ensures
        final(acc)@ == keys_onto(old(acc)@, keys@),
{
    assert(keys@.skip(0) =~= keys@);
    let mut i: usize = 0;
    while i < keys.len()
        invariant
            i <= keys@.len(),
            keys_onto(old(acc)@, keys@) == keys_onto(acc@, keys@.skip(i as int)),
        decreases keys@.len() - i,
    {
        assert(keys@.skip(i as int).skip(1) =~= keys@.skip(i as int + 1));
        insert_key(acc, keys[i].clone());
        i += 1;
    }
}

/// The keys under which module `mi` may export something.
pub fn exposed(g: &ModuleGraph, mi: usize, visited: &mut Vec<usize>) -> (r: Vec<String>)
    requires
        g@.wf(),
    ensures
        final(visited)@ == old(visited)@,
        r@ == exposed_keys(g@, mi as int, old(visited)@),
    decreases usize::MAX - old(visited)@.len(),
{
    if mi >= g.nodes.len() || visited.len() >= usize::MAX || is_on_path(visited, mi) {
        return Vec::new();
    }
    let mut acc: Vec<String> = Vec::new();
    add_keys(&mut acc, &g.nodes[mi].rooted_export_types);
    add_keys(&mut acc, &g.nodes[mi].rooted_export_values);
    visited.push(mi);
    let ghost inner = visited@;
    let ghost start = acc@;
    let edges = &g.export_edges[mi];
    assert(edges@ == g@.export_edges[mi as int]);
    assert(edges@.skip(0) =~= edges@);
    let mut i: usize = 0;
    while i < edges.len()
        invariant
            g@.wf(),
            i <= edges@.len(),
            visited@ == inner,
            inner.len() == old(visited)@.len() + 1,
            inner.len() <= usize::MAX,
            edge_keys_onto(start, g@, edges@, inner) == edge_keys_onto(
                acc@,
                g@,
                edges@.skip(i as int),
                inner,
            ),
        decreases edges@.len() - i,
    {
        assert(edges@.skip(i as int).skip(1) =~= edges@.skip(i as int + 1));
        match &edges[i] {
            Export::All { source } => {
                match find_module(g, source) {
                    Some(si) => {
                        let keys = exposed(g, si, visited);
                        add_keys(&mut acc, &keys);
                    },
                    None => {},
                }
            },
            Export::NamedType { export_key, .. } => {
                insert_key(&mut acc, export_key.clone());
            },
            Export::NamedValue { export_key, .. } => {
                insert_key(&mut acc, export_key.clone());
            },
            Export::Named { export_key, .. } => {
                insert_key(&mut acc, export_key.clone());
            },
        }
        i += 1;
    }
    visited.pop();
    assert(visited@ =~= old(visited)@);
    acc
}

/// The edge of namespace `ns` from `source` and `src_key` to `export_key`.
fn make_edge(ns: Namespace, source: CanonPath, src_key: String, export_key: String) -> (e: Export)
    ensures
        e == edge_of(ns, source, src_key, export_key),
{
    match ns {
        Namespace::Type => Export::NamedType { source, src_key, export_key },
        Namespace::Value => Export::NamedValue { source, src_key, export_key },
    }
}

/// What a named edge reduces to in `ns`.
fn reduce_named(
    g: &ModuleGraph,
    source: &CanonPath,
    src_key: &String,
    export_key: &String,
    ns: Namespace,
    visited: &mut Vec<Visit>,
) -> (r: Option<Export>)
    requires
        g@.wf(),
    ensures
        final(visited)@ == old(visited)@,
        opt_seq(r) == named_edge(g@, *source, *src_key, *export_key, ns, old(visited)@),
{
    let found = match find_module(g, source) {
        Some(si) => resolve_from(g, si, src_key, ns, visited),
        None => None,
    };
    match found {
        Some((ti, tk)) => Some(make_edge(ns, g.nodes[ti].path.clone(), tk, export_key.clone())),
        None => None,
    }
}

/// What the `All` edge at `pos` of module `mi` gives for `k` in `ns`.
fn reduce_star(g: &ModuleGraph, mi: usize, pos: usize, k: &String, ns: Namespace) -> (r: Option<
    Export,
>)
    requires
        g@.wf(),
        mi < g.nodes@.len(),
        pos < g@.export_edges[mi as int].len(),
        g@.export_edges[mi as int][pos as int] is All,
    ensures
        opt_seq(r) == star_edge(g@, mi as int, pos as int, *k, ns),
{
    if is_shadowed(g, mi, k) {
        return None;
    }
    let edges = &g.export_edges[mi];
    assert(edges@ == g@.export_edges[mi as int]);
    let mut visited: Vec<Visit> = Vec::new();
    visited.push(Visit { module: mi, key: k.clone() });
    assert(visited@ =~= through(mi as int, *k));
    let mut i: usize = 0;
    while i < pos
        invariant
            g@.wf(),
            mi < g.nodes@.len(),
            edges@ == g@.export_edges[mi as int],
            !g@.shadowed(mi as int, k@),
            i <= pos < edges@.len(),
            visited@ == through(mi as int, *k),
            forall|j: int|
                0 <= j < i ==> !((#[trigger] edges@[j]) is All && named_edge(
                    g@,
                    edges@[j].source(),
                    *k,
                    *k,
                    ns,
                    through(mi as int, *k),
                ).len() > 0),
        decreases pos - i,
    {
        match &edges[i] {
            Export::All { source } => {
                let earlier = reduce_named(g, source, k, k, ns, &mut visited);
                if earlier.is_some() {
                    proof {
                        let before = edges@.take(pos as int);
                        assert(before[i as int] == edges@[i as int]);
                        assert(before[i as int] is All);
                        assert(opt_seq(earlier).len() > 0);
                        assert(star_gives(g@, mi as int, before, *k, ns));
                    }
                    return None;
                }
            },
            _ => {},
        }
        i += 1;
    }
    assert(!star_gives(g@, mi as int, edges@.take(pos as int), *k, ns)) by {
        assert forall|j: int| 0 <= j < edges@.take(pos as int).len() implies !((
        #[trigger] edges@.take(pos as int)[j]) is All && named_edge(
            g@,
            edges@.take(pos as int)[j].source(),
            *k,
            *k,
            ns,
            through(mi as int, *k),
        ).len() > 0) by {
            assert(edges@.take(pos as int)[j] == edges@[j]);
        }
    }
    reduce_named(g, edges[pos].export_source(), k, k, ns, &mut visited)
}

/// Adds what `e` holds to `out`.
fn push_some(out: &mut Vec<Export>, e: Option<Export>)
    ensures
        final(out)@ == old(out)@ + opt_seq(e),
{
    match e {
        Some(edge) => {
            out.push(edge);
            assert(out@ =~= old(out)@ + seq![edge]);
        },
        None => {
            assert(out@ =~= old(out)@ + Seq::<Export>::empty());
        },
    }
}

/// What the edge at `pos` of module `mi` reduces to.
fn reduce_edge(g: &ModuleGraph, mi: usize, pos: usize) -> (r: Vec<Export>)
    requires
        g@.wf(),
        mi < g.nodes@.len(),
        pos < g@.export_edges[mi as int].len(),
    ensures
        r@ == contribution(g@, mi as int, pos as int),
{
    let edges = &g.export_edges[mi];
    assert(edges@ == g@.export_edges[mi as int]);
    let mut part: Vec<Export> = Vec::new();
    let mut visited: Vec<Visit> = Vec::new();
    match &edges[pos] {
        Export::Named { source, src_key, export_key } => {
            let t = reduce_named(g, source, src_key, export_key, Namespace::Type, &mut visited);
            push_some(&mut part, t);
            let v = reduce_named(g, source, src_key, export_key, Namespace::Value, &mut visited);
            push_some(&mut part, v);
            assert(part@ =~= opt_seq(t) + opt_seq(v));
        },
        Export::NamedType { source, src_key, export_key } => {
            let t = reduce_named(g, source, src_key, export_key, Namespace::Type, &mut visited);
            push_some(&mut part, t);
            assert(part@ =~= opt_seq(t));
        },
        Export::NamedValue { source, src_key, export_key } => {
            let v = reduce_named(g, source, src_key, export_key, Namespace::Value, &mut visited);
            push_some(&mut part, v);
            assert(part@ =~= opt_seq(v));
        },
        Export::All { source } => {
            match find_module(g, source) {
                Some(si) => {
                    let mut path: Vec<usize> = Vec::new();
                    path.push(mi);
                    assert(path@ =~= seq![mi]);
                    let keys = exposed(g, si, &mut path);
                    assert(keys@.skip(0) =~= keys@);
                    let mut i: usize = 0;
                    while i < keys.len()
                        invariant
                            g@.wf(),
                            mi < g.nodes@.len(),
                            pos < g@.export_edges[mi as int].len(),
                            g@.export_edges[mi as int][pos as int] is All,
                            i <= keys@.len(),
                            star_edges_onto(
                                Seq::empty(),
                                g@,
                                mi as int,
                                pos as int,
                                keys@,
                            ) == star_edges_onto(
                                part@,
                                g@,
                                mi as int,
                                pos as int,
                                keys@.skip(i as int),
                            ),
                        decreases keys@.len() - i,
                    {
                        assert(keys@.skip(i as int).skip(1) =~= keys@.skip(i as int + 1));
                        let t = reduce_star(g, mi, pos, &keys[i], Namespace::Type);
                        push_some(&mut part, t);
                        let v = reduce_star(g, mi, pos, &keys[i], Namespace::Value);
                        push_some(&mut part, v);
                        i += 1;
                    }
                },
                None => {},
            }
        },
    }
    part
}

/// The reduced edges of module `mi`, and the reports of its dangling
/// exports.
fn reduce_module(g: &ModuleGraph, mi: usize) -> (r: (Vec<Export>, Vec<DanglingExport>))
    requires
        g@.wf(),
        mi < g.nodes@.len(),
    ensures
        r.0@ == reduced_edges(g@, mi as int),
        r.1@ == reports_upto(g@, mi as int, g@.export_edges[mi as int].len() as int),
{
    let edges = &g.export_edges[mi];
    assert(edges@ == g@.export_edges[mi as int]);
    let mut out: Vec<Export> = Vec::new();
    let mut reports: Vec<DanglingExport> = Vec::new();
    let mut pos: usize = 0;
    while pos < edges.len()
        invariant
            g@.wf(),
            mi < g.nodes@.len(),
            edges@ == g@.export_edges[mi as int],
            pos <= edges@.len(),
            out@ == reduced_upto(g@, mi as int, pos as int),
            reports@ == reports_upto(g@, mi as int, pos as int),
        decreases edges@.len() - pos,
    {
        let mut part = reduce_edge(g, mi, pos);
        let ghost before = reports@;
        if part.len() == 0 {
            match &edges[pos] {
                Export::NamedType { export_key, .. } => {
                    reports.push(
                        DanglingExport {
                            module: g.nodes[mi].path.clone(),
                            export_key: export_key.clone(),
                        },
                    );
                },
                Export::NamedValue { export_key, .. } => {
                    reports.push(
                        DanglingExport {
                            module: g.nodes[mi].path.clone(),
                            export_key: export_key.clone(),
                        },
                    );
                },
                Export::Named { export_key, .. } => {
                    reports.push(
                        DanglingExport {
                            module: g.nodes[mi].path.clone(),
                            export_key: export_key.clone(),
                        },
                    );
                },
                Export::All { .. } => {},
            }
        }
        assert(reports@ =~= before + report(g@, mi as int, pos as int));
        out.append(&mut part);
        pos += 1;
    }
    (out, reports)
}

/// Reduces a graph: each module keeps its rooted exports and its imports;
/// its export edges are replaced by what they reduce to. Beside the graph
/// stand the reports of the exports that lead to no declaration.
pub fn reduce(graph: ModuleGraph) -> (r: (ModuleGraph, Vec<DanglingExport>))
    requires
        graph@.wf(),
    ensures
        r.0@ == reduced(graph@),
        r.1@ == dangling(graph@),
{
    let mut export_edges: Vec<Vec<Export>> = Vec::new();
    let mut reports: Vec<DanglingExport> = Vec::new();
    let mut mi: usize = 0;
    while mi < graph.nodes.len()
        invariant
            graph@.wf(),
            mi <= graph.nodes@.len(),
            export_edges@.len() == mi,
            forall|j: int| 0 <= j < mi ==> (#[trigger] export_edges@[j])@ == reduced_edges(graph@, j),
            reports@ == dangling_upto(graph@, mi as int),
        decreases graph.nodes@.len() - mi,
    {
        let (edges, mut found) = reduce_module(&graph, mi);
        export_edges.push(edges);
        reports.append(&mut found);
        mi += 1;
    }
    let ghost before = graph@;
    let reduced_graph = ModuleGraph {
        nodes: graph.nodes,
        export_edges,
        import_edges: graph.import_edges,
    };
    proof {
        assert(reduced_graph@.nodes =~= reduced(before).nodes);
        assert(reduced_graph@.import_edges =~= reduced(before).import_edges);
        assert(reduced_graph@.export_edges =~= reduced(before).export_edges);
    }
    (reduced_graph, reports)
}


/// Whether `r`, if it holds a place, holds a rooted export of `ns`.
pub open spec fn lands(g: GraphView, r: Option<(int, String)>, ns: Namespace) -> bool {
    match r {
        Some((ti, tk)) => 0 <= ti < g.nodes.len() && ti <= usize::MAX && rooted_in(
            g.nodes[ti],
            tk@,
            ns,
        ),
        None => true,
    }
}

/// Whether `r`, if it holds a place, holds a rooted export of `ns` in a
/// module that is the first with its path.
pub open spec fn lands_first(g: GraphView, r: Option<(int, String)>, ns: Namespace) -> bool {
    lands(g, r, ns) && match r {
        Some((ti, tk)) => g.is_first(g.nodes[ti].path@, ti),
        None => true,
    }
}

/// Resolution ends at a rooted export: in the module it started from, or
/// in one that is the first with its path.
pub proof fn lemma_resolve_lands(
    g: GraphView,
    mi: int,
    k: String,
    ns: Namespace,
    visited: Seq<Visit>,
)
    ensures
        lands(g, resolve(g, mi, k, ns, visited), ns),
        match resolve(g, mi, k, ns, visited) {
            Some((ti, tk)) => ti == mi || g.is_first(g.nodes[ti].path@, ti),
            None => true,
        },
    decreases usize::MAX - visited.len(), 0int, 0int,
{
    if !(0 <= mi < g.nodes.len() && mi <= usize::MAX) || visited.len() >= usize::MAX || seen(
        visited,
        mi,
        k@,
    ) {
    } else if rooted_in(g.nodes[mi], k@, ns) {
    } else {
        lemma_first_resolved_lands(
            g,
            successors(g, mi, k, ns),
            ns,
            visited.push(Visit { module: mi as usize, key: k }),
        );
    }
}

/// The first place that resolves, resolves to a rooted export.
pub proof fn lemma_first_resolved_lands(
    g: GraphView,
    alts: Seq<Target>,
    ns: Namespace,
    visited: Seq<Visit>,
)
    ensures
        lands_first(g, first_resolved(g, alts, ns, visited), ns),
    decreases usize::MAX - visited.len(), 1int, alts.len(),
{
    if alts.len() > 0 {
        lemma_resolve_at_lands(g, alts[0], ns, visited);
        if resolve_at(g, alts[0], ns, visited) is None {
            lemma_first_resolved_lands(g, alts.skip(1), ns, visited);
        }
    }
}

/// Resolution from a module given by its path ends at a rooted export in
/// a module that is the first with its path.
pub proof fn lemma_resolve_at_lands(g: GraphView, t: Target, ns: Namespace, visited: Seq<Visit>)
    ensures
        lands_first(g, resolve_at(g, t, ns, visited), ns),
    decreases usize::MAX - visited.len(), 0int, 1int,
{
    match g.module_at(t.module@) {
        Some(si) => {
            lemma_resolve_lands(g, si, t.key, ns, visited);
            assert(g.is_first(t.module@, si));
        },
        None => {},
    }
}

/// Whether module `ti` declares what the edge `e` points at: `e` names its
/// namespace, its source is the path of `ti`, which is the first module
/// with that path, and `ti` has the source key among its rooted exports of
/// that namespace.
pub open spec fn settled_at(g: GraphView, e: Export, ti: int) -> bool {
    &&& e is NamedType || e is NamedValue
    &&& 0 <= ti < g.nodes.len()
    &&& ti <= usize::MAX
    &&& g.nodes[ti].path == e.source()
    &&& g.is_first(e.source()@, ti)
    &&& rooted_in(
        g.nodes[ti],
        e.src_key()@,
        if e is NamedType {
            Namespace::Type
        } else {
            Namespace::Value
        },
    )
}

/// Whether the edge `e` names its namespace and points at a rooted export
/// of that namespace.
pub open spec fn settled(g: GraphView, e: Export) -> bool {
    exists|ti: int| settled_at(g, e, ti)
}

/// Whether every edge of `edges` is settled.
pub open spec fn all_settled(g: GraphView, edges: Seq<Export>) -> bool {
    forall|j: int| 0 <= j < edges.len() ==> settled(g, #[trigger] edges[j])
}

/// A named edge reduces to settled edges that keep its export key.
pub proof fn lemma_named_edge_settled(
    g: GraphView,
    source: CanonPath,
    src_key: String,
    export_key: String,
    ns: Namespace,
    visited: Seq<Visit>,
)
    ensures
        all_settled(g, named_edge(g, source, src_key, export_key, ns, visited)),
        named_edge(g, source, src_key, export_key, ns, visited).len() <= 1,
        forall|j: int|
            0 <= j < named_edge(g, source, src_key, export_key, ns, visited).len() ==> (
            #[trigger] named_edge(g, source, src_key, export_key, ns, visited)[j]).key()
                == export_key,
{
    let t = Target { module: source, key: src_key };
    lemma_resolve_at_lands(g, t, ns, visited);
    match resolve_at(g, t, ns, visited) {
        Some((ti, tk)) => {
            let e = edge_of(ns, g.nodes[ti].path, tk, export_key);
            assert(settled_at(g, e, ti));
        },
        None => {},
    }
}

/// What an `All` edge gives is settled.
pub proof fn lemma_star_edges_settled(
    acc: Seq<Export>,
    g: GraphView,
    mi: int,
    pos: int,
    keys: Seq<String>,
)
    requires
        all_settled(g, acc),
    ensures
        all_settled(g, star_edges_onto(acc, g, mi, pos, keys)),
    decreases keys.len(),
{
    if keys.len() > 0 {
        let k = keys[0];
        let edges = g.export_edges[mi];
        lemma_named_edge_settled(g, edges[pos].source(), k, k, Namespace::Type, through(mi, k));
        lemma_named_edge_settled(g, edges[pos].source(), k, k, Namespace::Value, through(mi, k));
        let next = acc + star_edge(g, mi, pos, k, Namespace::Type) + star_edge(
            g,
            mi,
            pos,
            k,
            Namespace::Value,
        );
        assert(all_settled(g, next));
        lemma_star_edges_settled(next, g, mi, pos, keys.skip(1));
    }
}

/// What an edge reduces to is settled.
pub proof fn lemma_contribution_settled(g: GraphView, mi: int, pos: int)
    ensures
        all_settled(g, contribution(g, mi, pos)),
{
    match g.export_edges[mi][pos] {
        Export::Named { source, src_key, export_key } => {
            lemma_named_edge_settled(
                g,
                source,
                src_key,
                export_key,
                Namespace::Type,
                Seq::empty(),
            );
            lemma_named_edge_settled(
                g,
                source,
                src_key,
                export_key,
                Namespace::Value,
                Seq::empty(),
            );
        },
        Export::NamedType { source, src_key, export_key } => {
            lemma_named_edge_settled(
                g,
                source,
                src_key,
                export_key,
                Namespace::Type,
                Seq::empty(),
            );
        },
        Export::NamedValue { source, src_key, export_key } => {
            lemma_named_edge_settled(
                g,
                source,
                src_key,
                export_key,
                Namespace::Value,
                Seq::empty(),
            );
        },
        Export::All { source } => {
            match g.module_at(source@) {
                Some(si) => {
                    lemma_star_edges_settled(
                        Seq::empty(),
                        g,
                        mi,
                        pos,
                        exposed_keys(g, si, seq![mi as usize]),
                    );
                },
                None => {},
            }
        },
    }
}

/// What the first `pos` edges of a module reduce to is settled.
pub proof fn lemma_reduced_upto_settled(g: GraphView, mi: int, pos: int)
    ensures
        all_settled(g, reduced_upto(g, mi, pos)),
    decreases pos,
{
    if pos > 0 {
        lemma_reduced_upto_settled(g, mi, pos - 1);
        lemma_contribution_settled(g, mi, pos - 1);
    }
}

/// After reduction every export edge names its namespace, `NamedType` or
/// `NamedValue`, and points at a module of the graph that has the source
/// key among its rooted exports of that namespace.
pub proof fn lemma_reduced_is_settled(g: GraphView, mi: int, j: int)
    requires
        0 <= mi < g.nodes.len(),
        0 <= j < reduced(g).export_edges[mi].len(),
    ensures
        settled(reduced(g), reduced(g).export_edges[mi][j]),
{
    lemma_reduced_upto_settled(g, mi, g.export_edges[mi].len() as int);
    let e = reduced(g).export_edges[mi][j];
    assert(e == reduced_edges(g, mi)[j]);
    assert(settled(g, e));
    let ti = choose|ti: int| settled_at(g, e, ti);
    assert(settled_at(reduced(g), e, ti));
}

/// A settled edge reduces to itself.
pub proof fn lemma_settled_is_fixed(g: GraphView, mi: int, pos: int)
    requires
        0 <= pos < g.export_edges[mi].len(),
        settled(g, g.export_edges[mi][pos]),
    ensures
        contribution(g, mi, pos) == seq![g.export_edges[mi][pos]],
{
    let e = g.export_edges[mi][pos];
    let ti = choose|ti: int| settled_at(g, e, ti);
    lemma_first_unique(g, e.source()@, ti);
    let t = Target { module: e.source(), key: e.src_key() };
    let none = Seq::<Visit>::empty();
    assert(!seen(none, ti, e.src_key()@));
    if e is NamedType {
        assert(resolve(g, ti, e.src_key(), Namespace::Type, none) == Some((ti, e.src_key())));
        assert(resolve_at(g, t, Namespace::Type, none) == Some((ti, e.src_key())));
    } else {
        assert(resolve(g, ti, e.src_key(), Namespace::Value, none) == Some((ti, e.src_key())));
        assert(resolve_at(g, t, Namespace::Value, none) == Some((ti, e.src_key())));
    }
}

/// Where the edges of a module are settled, the first `pos` of them reduce
/// to themselves.
pub proof fn lemma_settled_prefix_is_fixed(g: GraphView, mi: int, pos: int)
    requires
        0 <= pos <= g.export_edges[mi].len(),
        all_settled(g, g.export_edges[mi]),
    ensures
        reduced_upto(g, mi, pos) == g.export_edges[mi].take(pos),
    decreases pos,
{
    if pos > 0 {
        lemma_settled_prefix_is_fixed(g, mi, pos - 1);
        lemma_settled_is_fixed(g, mi, pos - 1);
        assert(g.export_edges[mi].take(pos - 1) + seq![g.export_edges[mi][pos - 1]]
            =~= g.export_edges[mi].take(pos));
    } else {
        assert(g.export_edges[mi].take(0) =~= Seq::<Export>::empty());
    }
}

/// Reducing a reduced graph changes nothing.
pub proof fn lemma_reduce_idempotent(g: GraphView)
    requires
        g.wf(),
    ensures
        reduced(reduced(g)) == reduced(g),
{
    let once = reduced(g);
    assert forall|mi: int| 0 <= mi < g.nodes.len() implies reduced_edges(once, mi)
        == once.export_edges[mi] by {
        assert forall|j: int| 0 <= j < once.export_edges[mi].len() implies settled(
            once,
            #[trigger] once.export_edges[mi][j],
        ) by {
            lemma_reduced_is_settled(g, mi, j);
        }
        lemma_settled_prefix_is_fixed(once, mi, once.export_edges[mi].len() as int);
        assert(once.export_edges[mi].take(once.export_edges[mi].len() as int)
            =~= once.export_edges[mi]);
    }
    assert(reduced(once).export_edges =~= once.export_edges);
}

/// Reduction keeps the source order: what the first `pos` edges of a
/// module reduce to is the start of what its first `later` edges reduce to.
pub proof fn lemma_reduction_keeps_order(g: GraphView, mi: int, pos: int, later: int)
    requires
        0 <= pos <= later,
    ensures
        reduced_upto(g, mi, pos).is_prefix_of(reduced_upto(g, mi, later)),
    decreases later - pos,
{
    if pos < later {
        lemma_reduction_keeps_order(g, mi, pos, later - 1);
    }
}

/// A named edge reduces to at most two edges, each under the export key of
/// the edge itself.
pub proof fn lemma_named_keeps_key(g: GraphView, mi: int, pos: int, j: int)
    requires
        0 <= pos < g.export_edges[mi].len(),
        g.export_edges[mi][pos] !is All,
        0 <= j < contribution(g, mi, pos).len(),
    ensures
        contribution(g, mi, pos).len() <= 2,
        contribution(g, mi, pos)[j].key() == g.export_edges[mi][pos].key(),
{
    match g.export_edges[mi][pos] {
        Export::Named { source, src_key, export_key } => {
            lemma_named_edge_settled(
                g,
                source,
                src_key,
                export_key,
                Namespace::Type,
                Seq::empty(),
            );
            lemma_named_edge_settled(
                g,
                source,
                src_key,
                export_key,
                Namespace::Value,
                Seq::empty(),
            );
        },
        Export::NamedType { source, src_key, export_key } => {
            lemma_named_edge_settled(
                g,
                source,
                src_key,
                export_key,
                Namespace::Type,
                Seq::empty(),
            );
        },
        Export::NamedValue { source, src_key, export_key } => {
            lemma_named_edge_settled(
                g,
                source,
                src_key,
                export_key,
                Namespace::Value,
                Seq::empty(),
            );
        },
        Export::All { .. } => {},
    }
}

/// Whether the module declares no export itself.
pub open spec fn roots_nothing(node: NodeView) -> bool {
    node.rooted_export_types.len() == 0 && node.rooted_export_values.len() == 0
}

/// A module that declares no export itself hands on only what other
/// modules declare: each of its reduced edges points at a rooted export of
/// another module.
pub proof fn lemma_reexports_come_from_elsewhere(g: GraphView, mi: int, j: int)
    requires
        0 <= mi < g.nodes.len(),
        roots_nothing(g.nodes[mi]),
        0 <= j < reduced_edges(g, mi).len(),
    ensures
        exists|ti: int| ti != mi && settled_at(g, reduced_edges(g, mi)[j], ti),
{
    lemma_reduced_upto_settled(g, mi, g.export_edges[mi].len() as int);
    let e = reduced_edges(g, mi)[j];
    assert(settled(g, e));
    let ti = choose|ti: int| settled_at(g, e, ti);
    assert(ti != mi && settled_at(g, e, ti));
}

/// Where no module declares an export, as in a cycle of modules that only
/// re-export each other, reduction leaves no edge; the rooted exports of
/// every module are kept as they are in any case.
pub proof fn lemma_cycle_alone_exports_nothing(g: GraphView, mi: int)
    requires
        0 <= mi < g.nodes.len(),
        forall|i: int| 0 <= i < g.nodes.len() ==> roots_nothing(#[trigger] g.nodes[i]),
    ensures
        reduced(g).export_edges[mi].len() == 0,
        reduced(g).nodes == g.nodes,
{
    lemma_reduced_upto_settled(g, mi, g.export_edges[mi].len() as int);
    if reduced_edges(g, mi).len() > 0 {
        let e = reduced_edges(g, mi)[0];
        assert(settled(g, e));
        let ti = choose|ti: int| settled_at(g, e, ti);
        assert(roots_nothing(g.nodes[ti]));
    }
}


/// Whether each of `edges` is a named edge under a key that module `mi`
/// does not export by itself.
pub open spec fn keys_unshadowed(g: GraphView, mi: int, edges: Seq<Export>) -> bool {
    forall|j: int|
        0 <= j < edges.len() ==> (#[trigger] edges[j]) !is All && !g.shadowed(mi, edges[j].key()@)
}

/// What an `All` edge gives comes under keys that the module does not
/// export by itself.
pub proof fn lemma_star_edges_unshadowed(
    acc: Seq<Export>,
    g: GraphView,
    mi: int,
    pos: int,
    keys: Seq<String>,
)
    requires
        keys_unshadowed(g, mi, acc),
    ensures
        keys_unshadowed(g, mi, star_edges_onto(acc, g, mi, pos, keys)),
    decreases keys.len(),
{
    if keys.len() > 0 {
        let k = keys[0];
        let source = g.export_edges[mi][pos].source();
        lemma_named_edge_settled(g, source, k, k, Namespace::Type, through(mi, k));
        lemma_named_edge_settled(g, source, k, k, Namespace::Value, through(mi, k));
        let next = acc + star_edge(g, mi, pos, k, Namespace::Type) + star_edge(
            g,
            mi,
            pos,
            k,
            Namespace::Value,
        );
        assert(keys_unshadowed(g, mi, next)) by {
            let t = star_edge(g, mi, pos, k, Namespace::Type);
            let v = star_edge(g, mi, pos, k, Namespace::Value);
            assert forall|j: int| 0 <= j < next.len() implies (#[trigger] next[j]) !is All
                && !g.shadowed(mi, next[j].key()@) by {
                if j < acc.len() {
                    assert(next[j] == acc[j]);
                } else if j < acc.len() + t.len() {
                    assert(next[j] == t[j - acc.len()]);
                    assert(t[j - acc.len()].key() == k);
                } else {
                    assert(next[j] == v[j - acc.len() - t.len()]);
                    assert(v[j - acc.len() - t.len()].key() == k);
                }
            }
        }
        lemma_star_edges_unshadowed(next, g, mi, pos, keys.skip(1));
    }
}

/// What a module exports by itself, by a declaration or by a named edge,
/// shadows what its `All` edges would bring under the same key.
pub proof fn lemma_own_exports_shadow_stars(g: GraphView, mi: int, pos: int, j: int)
    requires
        0 <= pos < g.export_edges[mi].len(),
        g.export_edges[mi][pos] is All,
        0 <= j < contribution(g, mi, pos).len(),
    ensures
        contribution(g, mi, pos)[j] !is All,
        !g.shadowed(mi, contribution(g, mi, pos)[j].key()@),
{
    match g.export_edges[mi][pos] {
        Export::All { source } => {
            match g.module_at(source@) {
                Some(si) => {
                    lemma_star_edges_unshadowed(
                        Seq::empty(),
                        g,
                        mi,
                        pos,
                        exposed_keys(g, si, seq![mi as usize]),
                    );
                },
                None => {},
            }
        },
        _ => {},
    }
}


} // verus!
