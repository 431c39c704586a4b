//! Emission: the typed graph is walked from the root module, depth first,
//! and what the modules on the way declare and export goes into the
//! artifacts. This module computes the artifacts, their names and their
//! texts; writing them out is left to the caller.

use vstd::prelude::*;

use crate::bind_graph_init::Export;
use crate::config::CompileOpt;
use crate::js_emit::{module_text, JsOutput};
use crate::json_emit::{document_text, with_export, JsonOutput, JsonView};
use crate::structures::{with_key, CanonPath};
use crate::type_structs::{
    arena_view, DescrView, Field, TypeDescr, TypedModuleGraph, TypedModuleNode, TypedNodeView,
    TypedView,
};

verus! {

impl TypedView {
    /// Whether `i` is the first module with the path `p`.
    pub open spec fn is_first(self, p: Seq<char>, i: int) -> bool {
        &&& 0 <= i < self.nodes.len()
        &&& self.nodes[i].path@ == p
        &&& forall|j: int| 0 <= j < i ==> self.nodes[j].path@ != p
    }

    /// The position of the first module with the path `p`.
    pub open spec fn module_at(self, p: Seq<char>) -> Option<int> {
        if exists|i: int| #[trigger] self.is_first(p, i) {
            Some(choose|i: int| #[trigger] self.is_first(p, i))
        } else {
            None
        }
    }
}

/// At most one module is the first with the path `p`.
pub proof fn lemma_first_node_unique(t: TypedView, p: Seq<char>, i: int)
    requires
        t.is_first(p, i),
    ensures
        t.module_at(p) == Some(i),
{
    let c = choose|c: int| #[trigger] t.is_first(p, c);
    assert(t.is_first(p, c));
    if c < i {
        assert(t.nodes[c].path@ != p);
    }
    if i < c {
        assert(t.nodes[i].path@ != p);
    }
}

/// The position of the first module with the path `p`.
pub fn find_node(graph: &TypedModuleGraph, p: &CanonPath) -> (r: Option<usize>)
    ensures
        match r {
            Some(i) => graph@.module_at(p@) == Some(i as int) && i < graph.nodes@.len(),
            None => graph@.module_at(p@) is None,
        },
{
    let mut i: usize = 0;
    while i < graph.nodes.len()
        invariant
            i <= graph.nodes@.len(),
            forall|j: int| 0 <= j < i ==> graph@.nodes[j].path@ != p@,
        decreases graph.nodes@.len() - i,
    {
        if graph.nodes[i].path.same(p) {
            proof {
                assert(graph@.nodes[i as int].path@ == p@);
                assert(graph@.is_first(p@, i as int));
                lemma_first_node_unique(graph@, p@, i as int);
            }
            return Some(i);
        }
        assert(graph@.nodes[i as int].path@ != p@);
        i += 1;
    }
    assert forall|c: int| !#[trigger] graph@.is_first(p@, c) by {
        if graph@.is_first(p@, c) {
            assert(graph@.nodes[c].path@ != p@);
        }
    }
    None
}

/// The number of modules not yet visited.
pub open spec fn unvisited(visited: Seq<bool>) -> nat
    decreases visited.len(),
{
    if visited.len() == 0 {
        0
    } else {
        unvisited(visited.drop_last()) + if visited.last() {
            0nat
        } else {
            1nat
        }
    }
}

/// Visiting a module that was not visited leaves one module less to
/// visit.
pub proof fn lemma_visit_counts(visited: Seq<bool>, i: int)
    requires
        0 <= i < visited.len(),
        !visited[i],
    ensures
        unvisited(visited.update(i, true)) + 1 == unvisited(visited),
    decreases visited.len(),
{
    let after = visited.update(i, true);
    if i == visited.len() - 1 {
        assert(after.drop_last() =~= visited.drop_last());
    } else {
        assert(after.drop_last() =~= visited.drop_last().update(i, true));
        lemma_visit_counts(visited.drop_last(), i);
    }
}

/// `stack`, with the modules put on it that the first `n` of `edges`
/// point at, the last edge first: the module of the first edge comes to
/// lie on top. An edge to a module that the graph does not hold is passed
/// over.
pub open spec fn sources_onto(stack: Seq<usize>, t: TypedView, edges: Seq<Export>, n: int) -> Seq<
    usize,
>
    decreases n,
{
    if n <= 0 {
        stack
    } else {
        let next = match t.module_at(edges[n - 1].source()@) {
            Some(i) => stack.push(i as usize),
            None => stack,
        };
        sources_onto(next, t, edges, n - 1)
    }
}

/// The edges of module `node`.
pub open spec fn edges_of(t: TypedView, node: int) -> Seq<Export> {
    if 0 <= node < t.export_edges.len() {
        t.export_edges[node]
    } else {
        Seq::empty()
    }
}

/// The modules in the order of their first visit, after `order`: the
/// module on top of `stack` is taken off; unless it was visited before, it
/// is visited now and the modules that its edges point at are put on the
/// stack, so that they are visited next, in the order of the edges.
pub open spec fn walk(t: TypedView, stack: Seq<usize>, visited: Seq<bool>, order: Seq<usize>)
    -> Seq<usize>
    decreases unvisited(visited), stack.len(),
{
    if stack.len() == 0 {
        order
    } else {
        let node = stack.last();
        let rest = stack.drop_last();
        if node >= visited.len() || visited[node as int] {
            walk(t, rest, visited, order)
        } else {
            proof {
                lemma_visit_counts(visited, node as int);
            }
            let edges = edges_of(t, node as int);
            walk(
                t,
                sources_onto(rest, t, edges, edges.len() as int),
                visited.update(node as int, true),
                order.push(node),
            )
        }
    }
}

/// The modules that are reached from the module at `root`, each once, in
/// the order of a depth-first walk that follows the edges of a module in
/// their order. A root that the graph does not hold reaches nothing.
pub open spec fn visit_order(t: TypedView, root: Seq<char>) -> Seq<usize> {
    match t.module_at(root) {
        Some(r) => walk(
            t,
            seq![r as usize],
            Seq::new(t.nodes.len(), |i: int| false),
            Seq::empty(),
        ),
        None => Seq::empty(),
    }
}

/// The modules that are reached from the module at `root`, each once, in
/// the order of their first visit.
pub fn visit_order_of(root: &CanonPath, graph: &TypedModuleGraph) -> (order: Vec<usize>)
    ensures
        order@ == visit_order(graph@, root@),
        order@.no_duplicates(),
        forall|i: int| 0 <= i < order@.len() ==> #[trigger] order@[i] < graph.nodes@.len(),
{
    let count = graph.nodes.len();
    proof {
        lemma_visits_once(graph@, root@);
    }
    let mut order: Vec<usize> = Vec::new();
    let start = match find_node(graph, root) {
        Some(r) => r,
        None => {
            return order;
        },
    };
    let mut visited: Vec<bool> = Vec::new();
    let mut n: usize = 0;
    while n < graph.nodes.len()
        invariant
            n <= graph.nodes@.len(),
            visited@.len() == n,
            forall|i: int| 0 <= i < n ==> !#[trigger] visited@[i],
        decreases graph.nodes@.len() - n,
    {
        visited.push(false);
        n += 1;
    }
    assert(visited@ =~= Seq::new(graph@.nodes.len(), |i: int| false));
    let mut stack: Vec<usize> = Vec::new();
    stack.push(start);
    assert(stack@ =~= seq![start]);
    while stack.len() > 0
        invariant
            visited@.len() == graph.nodes@.len(),
            forall|i: int| 0 <= i < order@.len() ==> #[trigger] order@[i] < graph.nodes@.len(),
            visit_order(graph@, root@) == walk(graph@, stack@, visited@, order@),
        decreases unvisited(visited@), stack@.len(),
    {
        let ghost before = stack@;
        let node = match stack.pop() {
            Some(node) => node,
            None => 0,
        };
        assert(node == before.last());
        assert(stack@ =~= before.drop_last());
        if node < visited.len() && !visited[node] {
            proof {
                lemma_visit_counts(visited@, node as int);
            }
            let ghost rest = stack@;
            let ghost edges = edges_of(graph@, node as int);
            if node < graph.export_edges.len() {
                let list = &graph.export_edges[node];
                assert(list@ == edges);
                let mut k: usize = list.len();
                while k > 0
                    invariant
                        k <= list@.len(),
                        list@ == edges,
                        sources_onto(rest, graph@, edges, edges.len() as int) == sources_onto(
                            stack@,
                            graph@,
                            edges,
                            k as int,
                        ),
                    decreases k,
                {
                    k -= 1;
                    match find_node(graph, list[k].export_source()) {
                        Some(i) => {
                            stack.push(i);
                        },
                        None => {},
                    }
                }
            }
            visited.set(node, true);
            order.push(node);
        }
    }
    order
}

/// Whether `visited` tells of each module whether it is in `order`, and
/// `order` holds modules of the graph only, each once.
pub open spec fn visits_agree(visited: Seq<bool>, order: Seq<usize>) -> bool {
    &&& order.no_duplicates()
    &&& forall|k: int| 0 <= k < order.len() ==> #[trigger] order[k] < visited.len()
    &&& forall|i: int|
        0 <= i < visited.len() ==> (#[trigger] visited[i] <==> order.contains(i as usize))
}

/// The walk visits no module twice, and none that the graph does not
/// hold.
pub proof fn lemma_walk_visits_once(
    t: TypedView,
    stack: Seq<usize>,
    visited: Seq<bool>,
    order: Seq<usize>,
)
    requires
        visits_agree(visited, order),
        visited.len() <= usize::MAX,
    ensures
        walk(t, stack, visited, order).no_duplicates(),
        forall|k: int|
            0 <= k < walk(t, stack, visited, order).len() ==> #[trigger] walk(
                t,
                stack,
                visited,
                order,
            )[k] < visited.len(),
    decreases unvisited(visited), stack.len(),
{
    if stack.len() > 0 {
        let node = stack.last();
        let rest = stack.drop_last();
        if node >= visited.len() || visited[node as int] {
            lemma_walk_visits_once(t, rest, visited, order);
        } else {
            lemma_visit_counts(visited, node as int);
            let edges = edges_of(t, node as int);
            let after = visited.update(node as int, true);
            let longer = order.push(node);
            lemma_visit_agrees(visited, order, node);
            lemma_walk_visits_once(
                t,
                sources_onto(rest, t, edges, edges.len() as int),
                after,
                longer,
            );
        }
    }
}

/// Every module that is reached from the root is visited exactly once:
/// the order of the visits holds no module twice, and only modules of the
/// graph.
pub proof fn lemma_visits_once(t: TypedView, root: Seq<char>)
    requires
        t.nodes.len() <= usize::MAX,
    ensures
        visit_order(t, root).no_duplicates(),
        forall|k: int|
            0 <= k < visit_order(t, root).len() ==> #[trigger] visit_order(t, root)[k]
                < t.nodes.len(),
{
    match t.module_at(root) {
        Some(r) => {
            let fresh = Seq::new(t.nodes.len(), |i: int| false);
            let none = Seq::<usize>::empty();
            assert(visits_agree(fresh, none));
            lemma_walk_visits_once(t, seq![r as usize], fresh, none);
        },
        None => {},
    }
}

/// Whether an edge of module `a` points at module `b`.
pub open spec fn points_at(t: TypedView, a: int, b: int) -> bool {
    exists|k: int|
        0 <= k < edges_of(t, a).len() && t.module_at((#[trigger] edges_of(t, a)[k]).source()@)
            == Some(b)
}

/// Whether each module of `chain` but the first is one that an edge of
/// the module before it points at.
pub open spec fn is_chain(t: TypedView, chain: Seq<int>) -> bool {
    forall|i: int| 0 <= i < chain.len() - 1 ==> points_at(t, #[trigger] chain[i], chain[i + 1])
}

/// Whether every module that an edge of a visited module points at is
/// visited or waits on the stack.
pub open spec fn pending(t: TypedView, stack: Seq<usize>, visited: Seq<bool>) -> bool {
    forall|a: int, b: int|
        0 <= a < visited.len() && visited[a] && #[trigger] points_at(t, a, b) ==> 0 <= b
            < visited.len() && (visited[b] || stack.contains(b as usize))
}

/// Whether `order` holds, with each of its modules, every module that an
/// edge of that module points at.
pub open spec fn follows_edges(t: TypedView, order: Seq<usize>) -> bool {
    forall|a: int, b: int|
        0 <= a <= usize::MAX && order.contains(a as usize) && #[trigger] points_at(t, a, b)
            ==> order.contains(b as usize)
}

/// Putting the sources of edges on the stack keeps what the stack held
/// and adds every module that one of the edges points at.
pub proof fn lemma_sources_onto(stack: Seq<usize>, t: TypedView, edges: Seq<Export>, n: int)
    requires
        0 <= n <= edges.len(),
    ensures
        forall|x: usize| stack.contains(x) ==> #[trigger] sources_onto(stack, t, edges, n).contains(x),
        forall|k: int|
            0 <= k < n && t.module_at((#[trigger] edges[k]).source()@) is Some ==> sources_onto(
                stack,
                t,
                edges,
                n,
            ).contains(t.module_at(edges[k].source()@)->Some_0 as usize),
    decreases n,
{
    if n > 0 {
        let next = match t.module_at(edges[n - 1].source()@) {
            Some(i) => stack.push(i as usize),
            None => stack,
        };
        lemma_sources_onto(next, t, edges, n - 1);
        let out = sources_onto(stack, t, edges, n);
        let inner = sources_onto(next, t, edges, n - 1);
        assert(out == inner);
        assert forall|x: usize| stack.contains(x) implies #[trigger] out.contains(x) by {
            let w = choose|w: int| 0 <= w < stack.len() && stack[w] == x;
            assert(next[w] == x);
            assert(next.contains(x));
            assert(inner.contains(x));
        }
        assert forall|k: int|
            0 <= k < n && t.module_at((#[trigger] edges[k]).source()@) is Some implies out.contains(
            t.module_at(edges[k].source()@)->Some_0 as usize,
        ) by {
            let i = t.module_at(edges[k].source()@)->Some_0;
            if k == n - 1 {
                assert(next[stack.len() as int] == i as usize);
                assert(next.contains(i as usize));
                assert(inner.contains(i as usize));
            } else {
                assert(inner.contains(i as usize));
            }
        }
    }
}

/// Visiting a module that was not visited keeps the list of visits and
/// the marks in agreement.
pub proof fn lemma_visit_agrees(visited: Seq<bool>, order: Seq<usize>, node: usize)
    requires
        visits_agree(visited, order),
        visited.len() <= usize::MAX,
        node < visited.len(),
        !visited[node as int],
    ensures
        visits_agree(visited.update(node as int, true), order.push(node)),
{
    let after = visited.update(node as int, true);
    let longer = order.push(node);
    assert(!order.contains(node));
    assert forall|a: int, b: int|
        0 <= a < longer.len() && 0 <= b < longer.len() && a != b implies longer[a]
        != longer[b] by {
        if a < order.len() {
            assert(order.contains(order[a]));
        }
        if b < order.len() {
            assert(order.contains(order[b]));
        }
    }
    assert forall|i: int| 0 <= i < after.len() implies (#[trigger] after[i] <==> longer.contains(
        i as usize,
    )) by {
        if i == node {
            assert(longer[order.len() as int] == node);
        } else {
            if visited[i] {
                let k = choose|k: int| 0 <= k < order.len() && order[k] == i as usize;
                assert(longer[k] == i as usize);
            }
            if longer.contains(i as usize) {
                let k = choose|k: int| 0 <= k < longer.len() && longer[k] == i as usize;
                assert(k < order.len());
                assert(order[k] == i as usize);
            }
        }
    }
}

/// The walk visits what was visited, what waits on the stack, and every
/// module that an edge of a visited module points at.
pub proof fn lemma_walk_complete(
    t: TypedView,
    stack: Seq<usize>,
    visited: Seq<bool>,
    order: Seq<usize>,
)
    requires
        visits_agree(visited, order),
        visited.len() == t.nodes.len(),
        visited.len() <= usize::MAX,
        pending(t, stack, visited),
    ensures
        forall|x: usize| order.contains(x) ==> #[trigger] walk(t, stack, visited, order).contains(x),
        forall|k: int|
            0 <= k < stack.len() && (#[trigger] stack[k]) < visited.len() ==> walk(
                t,
                stack,
                visited,
                order,
            ).contains(stack[k]),
        follows_edges(t, walk(t, stack, visited, order)),
    decreases unvisited(visited), stack.len(),
{
    let out = walk(t, stack, visited, order);
    if stack.len() == 0 {
        assert forall|a: int, b: int|
            0 <= a <= usize::MAX && out.contains(a as usize) && #[trigger] points_at(
                t,
                a,
                b,
            ) implies out.contains(b as usize) by {
            let k = choose|k: int| 0 <= k < order.len() && order[k] == a as usize;
            assert(order[k] < visited.len());
            assert(visited[a]);
            assert(visited[b]);
        }
    } else {
        let node = stack.last();
        let rest = stack.drop_last();
        if node >= visited.len() || visited[node as int] {
            assert(pending(t, rest, visited)) by {
                assert forall|a: int, b: int|
                    0 <= a < visited.len() && visited[a] && #[trigger] points_at(
                        t,
                        a,
                        b,
                    ) implies 0 <= b < visited.len() && (visited[b] || rest.contains(
                    b as usize,
                )) by {
                    if !visited[b] {
                        let w = choose|w: int| 0 <= w < stack.len() && stack[w] == b as usize;
                        assert(w < stack.len() - 1);
                        assert(rest[w] == b as usize);
                    }
                }
            }
            lemma_walk_complete(t, rest, visited, order);
            assert forall|k: int|
                0 <= k < stack.len() && (#[trigger] stack[k]) < visited.len() implies out.contains(
                stack[k],
            ) by {
                if k < stack.len() - 1 {
                    assert(rest[k] == stack[k]);
                } else {
                    assert(visited[node as int]);
                    assert(order.contains(node));
                }
            }
        } else {
            lemma_visit_counts(visited, node as int);
            lemma_visit_agrees(visited, order, node);
            let edges = edges_of(t, node as int);
            let after = visited.update(node as int, true);
            let longer = order.push(node);
            let next = sources_onto(rest, t, edges, edges.len() as int);
            lemma_sources_onto(rest, t, edges, edges.len() as int);
            assert(pending(t, next, after)) by {
                assert forall|a: int, b: int|
                    0 <= a < after.len() && after[a] && #[trigger] points_at(
                        t,
                        a,
                        b,
                    ) implies 0 <= b < after.len() && (after[b] || next.contains(b as usize)) by {
                    let k = choose|k: int|
                        0 <= k < edges_of(t, a).len() && t.module_at(
                            (#[trigger] edges_of(t, a)[k]).source()@,
                        ) == Some(b);
                    assert(t.is_first(edges_of(t, a)[k].source()@, b));
                    if a == node {
                        assert(next.contains(t.module_at(edges[k].source()@)->Some_0 as usize));
                    } else if !visited[b] {
                        if b != node {
                            let w = choose|w: int| 0 <= w < stack.len() && stack[w] == b as usize;
                            assert(w < stack.len() - 1);
                            assert(rest[w] == b as usize);
                            assert(rest.contains(b as usize));
                        }
                    }
                }
            }
            lemma_walk_complete(t, next, after, longer);
            assert forall|x: usize| order.contains(x) implies #[trigger] out.contains(x) by {
                let w = choose|w: int| 0 <= w < order.len() && order[w] == x;
                assert(longer[w] == x);
                assert(longer.contains(x));
            }
            assert forall|k: int|
                0 <= k < stack.len() && (#[trigger] stack[k]) < visited.len() implies out.contains(
                stack[k],
            ) by {
                if k < stack.len() - 1 {
                    assert(rest[k] == stack[k]);
                    assert(rest.contains(stack[k]));
                    assert(next.contains(stack[k]));
                    let w = choose|w: int| 0 <= w < next.len() && next[w] == stack[k];
                    assert(next[w] < after.len());
                } else {
                    assert(longer[order.len() as int] == node);
                    assert(longer.contains(node));
                }
            }
        }
    }
}

/// Every module that is reached from the root by a chain of edges is
/// among the modules that the walk visits.
pub proof fn lemma_visits_all(t: TypedView, root: Seq<char>, chain: Seq<int>)
    requires
        t.nodes.len() <= usize::MAX,
        chain.len() > 0,
        is_chain(t, chain),
        t.module_at(root) == Some(chain[0]),
    ensures
        0 <= chain.last() < t.nodes.len(),
        visit_order(t, root).contains(chain.last() as usize),
    decreases chain.len(),
{
    let r = chain[0];
    assert(t.is_first(root, r));
    let fresh = Seq::new(t.nodes.len(), |i: int| false);
    let none = Seq::<usize>::empty();
    let start = seq![r as usize];
    assert(visits_agree(fresh, none));
    assert(pending(t, start, fresh));
    lemma_walk_complete(t, start, fresh, none);
    let out = visit_order(t, root);
    if chain.len() == 1 {
        assert(start[0] == r as usize);
    } else {
        let shorter = chain.drop_last();
        assert(is_chain(t, shorter)) by {
            assert forall|i: int| 0 <= i < shorter.len() - 1 implies points_at(
                t,
                #[trigger] shorter[i],
                shorter[i + 1],
            ) by {
                assert(shorter[i] == chain[i]);
                assert(shorter[i + 1] == chain[i + 1]);
            }
        }
        lemma_visits_all(t, root, shorter);
        let a = shorter.last();
        let b = chain.last();
        assert(a == chain[chain.len() - 2]);
        assert(points_at(t, chain[chain.len() - 2], chain[chain.len() - 2 + 1]));
        let k = choose|k: int|
            0 <= k < edges_of(t, a).len() && t.module_at((#[trigger] edges_of(t, a)[k]).source()@)
                == Some(b);
        assert(t.is_first(edges_of(t, a)[k].source()@, b));
        assert(out.contains(a as usize));
    }
}

/// No two of `fields` have the same name.
pub open spec fn names_distinct(fields: Seq<Field>) -> bool {
    forall|i: int, j: int| 0 <= i < j < fields.len() ==> fields[i].name@ != fields[j].name@
}

/// Every name goes into an artifact once: adding exports keeps the names
/// distinct.
pub proof fn lemma_exports_once(acc: Seq<Field>, more: Seq<Field>, n: int)
    requires
        names_distinct(acc),
    ensures
        names_distinct(exports_upto(acc, more, n)),
    decreases n,
{
    if n > 0 {
        lemma_exports_once(acc, more, n - 1);
    }
}

/// What the artifacts hold so far.
pub struct ContextView {
    pub json: JsonView,
    pub js: Seq<String>,
}

/// The artifacts in the making.
pub struct Context {
    pub json_output: JsonOutput,
    pub js_output: JsOutput,
}

impl View for Context {
    type V = ContextView;

    open spec fn view(&self) -> ContextView {
        ContextView { json: self.json_output@, js: self.js_output@ }
    }
}

/// `acc`, with the first `n` of `more` added, each unless its name is
/// there already.
pub open spec fn exports_upto(acc: Seq<Field>, more: Seq<Field>, n: int) -> Seq<Field>
    decreases n,
{
    if n <= 0 {
        acc
    } else {
        with_export(exports_upto(acc, more, n - 1), more[n - 1])
    }
}

/// `acc`, with the names of the first `n` of `more` added, each unless it
/// is there already.
pub open spec fn names_upto(acc: Seq<String>, more: Seq<Field>, n: int) -> Seq<String>
    decreases n,
{
    if n <= 0 {
        acc
    } else {
        with_key(names_upto(acc, more, n - 1), more[n - 1].name)
    }
}

/// The artifacts after a module: where the JSON artifact is asked for, it
/// takes the module's rooted types and then its rooted values; where the
/// JavaScript artifact is asked for, it takes the names of the rooted
/// values.
pub open spec fn node_emitted(options: CompileOpt, ctx: ContextView, node: TypedNodeView)
    -> ContextView {
    let json = if options.emit_config.json {
        JsonView {
            types: exports_upto(
                ctx.json.types,
                node.rooted_export_types,
                node.rooted_export_types.len() as int,
            ),
            values: exports_upto(
                ctx.json.values,
                node.rooted_export_values,
                node.rooted_export_values.len() as int,
            ),
        }
    } else {
        ctx.json
    };
    let js = if options.emit_config.js {
        names_upto(ctx.js, node.rooted_export_values, node.rooted_export_values.len() as int)
    } else {
        ctx.js
    };
    ContextView { json, js }
}

/// The artifacts after the first `n` modules of `order`.
pub open spec fn emitted(
    options: CompileOpt,
    t: TypedView,
    order: Seq<usize>,
    n: int,
    ctx: ContextView,
) -> ContextView
    decreases n,
{
    if n <= 0 {
        ctx
    } else {
        node_emitted(options, emitted(options, t, order, n - 1, ctx), t.nodes[order[n - 1] as int])
    }
}

/// Whatever the walk hands to the JSON artifact, no name goes into it
/// twice.
pub proof fn lemma_emitted_once(
    options: CompileOpt,
    t: TypedView,
    order: Seq<usize>,
    n: int,
    ctx: ContextView,
)
    requires
        names_distinct(ctx.json.types),
        names_distinct(ctx.json.values),
    ensures
        names_distinct(emitted(options, t, order, n, ctx).json.types),
        names_distinct(emitted(options, t, order, n, ctx).json.values),
    decreases n,
{
    if n > 0 {
        lemma_emitted_once(options, t, order, n - 1, ctx);
        let before = emitted(options, t, order, n - 1, ctx);
        let node = t.nodes[order[n - 1] as int];
        lemma_exports_once(
            before.json.types,
            node.rooted_export_types,
            node.rooted_export_types.len() as int,
        );
        lemma_exports_once(
            before.json.values,
            node.rooted_export_values,
            node.rooted_export_values.len() as int,
        );
    }
}

/// Walks the graph from `root` and hands the rooted exports of each
/// module on the way to the artifacts that are asked for.
pub fn traverse(
    options: &CompileOpt,
    root: &CanonPath,
    graph: &TypedModuleGraph,
    context: &mut Context,
)
    ensures
        final(context)@ == emitted(
            *options,
            graph@,
            visit_order(graph@, root@),
            visit_order(graph@, root@).len() as int,
            old(context)@,
        ),
{
    let order = visit_order_of(root, graph);
    let mut n: usize = 0;
    while n < order.len()
        invariant
            n <= order@.len(),
            forall|i: int| 0 <= i < order@.len() ==> #[trigger] order@[i] < graph.nodes@.len(),
            context@ == emitted(*options, graph@, order@, n as int, old(context)@),
        decreases order@.len() - n,
    {
        let node = &graph.nodes[order[n]];
        assert(node@ == graph@.nodes[order@[n as int] as int]);
        let ghost before = context@;
        if options.emit_config.json {
            let types = &node.rooted_export_types;
            let mut i: usize = 0;
            while i < types.len()
                invariant
                    i <= types@.len(),
                    context@.json.values == before.json.values,
                    context@.js == before.js,
                    context@.json.types == exports_upto(before.json.types, types@, i as int),
                decreases types@.len() - i,
            {
                context.json_output.export_type(&types[i].name, types[i].ty);
                i += 1;
            }
            let values = &node.rooted_export_values;
            let ghost with_types = context@.json.types;
            let mut i: usize = 0;
            while i < values.len()
                invariant
                    i <= values@.len(),
                    context@.json.types == with_types,
                    context@.js == before.js,
                    context@.json.values == exports_upto(before.json.values, values@, i as int),
                decreases values@.len() - i,
            {
                context.json_output.export_value(&values[i].name, values[i].ty);
                i += 1;
            }
        }
        if options.emit_config.js {
            let types = &node.rooted_export_types;
            let ghost json = context@.json;
            let mut i: usize = 0;
            while i < types.len()
                invariant
                    i <= types@.len(),
                    context@.json == json,
                    context@.js == before.js,
                decreases types@.len() - i,
            {
                context.js_output.handle_type(&types[i].name, types[i].ty);
                i += 1;
            }
            let values = &node.rooted_export_values;
            let mut i: usize = 0;
            while i < values.len()
                invariant
                    i <= values@.len(),
                    context@.json == json,
                    context@.js == names_upto(before.js, values@, i as int),
                decreases values@.len() - i,
            {
                context.js_output.handle_value(&values[i].name, values[i].ty);
                i += 1;
            }
        }
        assert(context@ == node_emitted(*options, before, node@));
        n += 1;
    }
}

/// The position of the last `c` in `s`.
pub open spec fn last_index_of(s: Seq<char>, c: char) -> Option<int>
    decreases s.len(),
{
    if s.len() == 0 {
        None
    } else if s.last() == c {
        Some(s.len() - 1)
    } else {
        last_index_of(s.drop_last(), c)
    }
}

/// The last component of a path: what follows its last `/`.
pub open spec fn file_name(path: Seq<char>) -> Seq<char> {
    match last_index_of(path, '/') {
        Some(i) => path.skip(i + 1),
        None => path,
    }
}

/// A file name without its extension: what stands before its last `.`,
/// unless that is the first character of the name.
pub open spec fn without_extension(name: Seq<char>) -> Seq<char> {
    match last_index_of(name, '.') {
        Some(i) => if i > 0 {
            name.take(i)
        } else {
            name
        },
        None => name,
    }
}

/// The position of the last `c` in `s`.
fn find_last(s: &str, c: char) -> (r: Option<usize>)
    ensures
        match r {
            Some(i) => last_index_of(s@, c) == Some(i as int) && i < s@.len(),
            None => last_index_of(s@, c) is None,
        },
{
    let mut i: usize = s.unicode_len();
    assert(s@.take(i as int) =~= s@);
    while i > 0
        invariant
            i <= s@.len(),
            last_index_of(s@, c) == last_index_of(s@.take(i as int), c),
        decreases i,
    {
        i -= 1;
        assert(s@.take(i as int + 1).drop_last() =~= s@.take(i as int));
        if s.get_char(i) == c {
            return Some(i);
        }
    }
    None
}

/// The last component of a path.
pub fn file_name_of(path: &str) -> (r: String)
    ensures
        r@ == file_name(path@),
{
    match find_last(path, '/') {
        Some(i) => {
            let len = path.unicode_len();
            String::from_str(path.substring_char(i + 1, len))
        },
        None => String::from_str(path),
    }
}

/// A file name without its extension.
pub fn strip_extension(name: &str) -> (r: String)
    ensures
        r@ == without_extension(name@),
{
    match find_last(name, '.') {
        Some(i) => {
            if i > 0 {
                String::from_str(name.substring_char(0, i))
            } else {
                String::from_str(name)
            }
        },
        None => String::from_str(name),
    }
}

/// Whether the path ends in a file name.
pub fn names_file(path: &CanonPath) -> (r: bool)
    ensures
        r == (file_name(path@).len() > 0),
{
    file_name_of(path.as_path()).as_str().unicode_len() > 0
}

/// The name of the artifacts without their extensions: the file stem of
/// the options, or else the name of the root module without its last
/// extension; and that without its own last extension, so that
/// `root.d.ts` gives `root`.
pub open spec fn artifact_stem(options: CompileOpt, root: Seq<char>) -> Seq<char> {
    without_extension(
        match options.file_stem {
            Some(stem) => stem@,
            None => without_extension(file_name(root)),
        },
    )
}

/// The path by which the JavaScript artifact loads the root module.
pub open spec fn require_path(root: Seq<char>) -> Seq<char> {
    "./"@ + without_extension(without_extension(file_name(root))) + ".js"@
}

/// An artifact: the name of its file and its text.
#[derive(Debug, Clone, PartialEq, Eq)]
pub struct OutputFile {
    pub name: String,
    pub contents: String,
}

/// An artifact, as contracts see it.
pub struct OutputText {
    pub name: Seq<char>,
    pub contents: Seq<char>,
}

impl View for OutputFile {
    type V = OutputText;

    open spec fn view(&self) -> OutputText {
        OutputText { name: self.name@, contents: self.contents@ }
    }
}

/// The artifacts, as contracts see them.
pub open spec fn files_view(files: Seq<OutputFile>) -> Seq<OutputText> {
    Seq::new(files.len(), |i: int| files[i]@)
}

/// Artifacts that hold nothing yet.
pub open spec fn start_context() -> ContextView {
    ContextView {
        json: JsonView { types: Seq::empty(), values: Seq::empty() },
        js: Seq::empty(),
    }
}

/// The JSON artifact of a typed graph with the root `root`.
pub open spec fn json_file(options: CompileOpt, root: Seq<char>, t: TypedView) -> OutputText {
    let order = visit_order(t, root);
    let ctx = emitted(options, t, order, order.len() as int, start_context());
    OutputText {
        name: artifact_stem(options, root) + ".arr.json"@,
        contents: document_text(ctx.json.types, ctx.json.values, t.arena),
    }
}

/// The JavaScript artifact of a typed graph with the root `root`.
pub open spec fn js_file(options: CompileOpt, root: Seq<char>, t: TypedView) -> OutputText {
    let order = visit_order(t, root);
    let ctx = emitted(options, t, order, order.len() as int, start_context());
    OutputText {
        name: artifact_stem(options, root) + ".arr.js"@,
        contents: module_text(ctx.js, require_path(root)),
    }
}

/// The artifacts that the options ask for: the JSON artifact, then the
/// JavaScript artifact.
pub open spec fn emitted_files(options: CompileOpt, root: Seq<char>, t: TypedView) -> Seq<
    OutputText,
> {
    let json = if options.emit_config.json {
        seq![json_file(options, root, t)]
    } else {
        Seq::empty()
    };
    let js = if options.emit_config.js {
        seq![js_file(options, root, t)]
    } else {
        Seq::empty()
    };
    json + js
}

/// Whether the artifacts take something from the name of the root module:
/// their own name, where the options give no file stem, or the path by
/// which the JavaScript artifact loads the root module.
pub open spec fn needs_root_name(options: CompileOpt) -> bool {
    options.file_stem is None || options.emit_config.js
}

/// Whether the artifacts take something from the name of the root module.
pub fn asks_root_name(options: &CompileOpt) -> (r: bool)
    ensures
        r == needs_root_name(*options),
{
    options.file_stem.is_none() || options.emit_config.js
}

/// Computes the artifacts of a typed graph: `<stem>.arr.json` with the
/// description of the exports, and `<stem>.arr.js` with the module that
/// re-exports the root module, each where the options ask for it.
pub fn emit(options: &CompileOpt, root_module_path: &CanonPath, typed_graph: &TypedModuleGraph)
    -> (files: Vec<OutputFile>)
    requires
        needs_root_name(*options) ==> file_name(root_module_path@).len() > 0,
    ensures
        files_view(files@) == emitted_files(*options, root_module_path@, typed_graph@),
{
    let root_name = file_name_of(root_module_path.as_path());
    let root_stem = strip_extension(root_name.as_str());
    let file_name = match &options.file_stem {
        Some(stem) => stem.clone(),
        None => root_stem.clone(),
    };
    let stem = strip_extension(file_name.as_str());

    let mut context = Context { json_output: JsonOutput::new(), js_output: JsOutput::new() };
    assert(context@.json.types == start_context().json.types);
    assert(context@ == start_context());

    traverse(options, root_module_path, typed_graph, &mut context);

    let mut files: Vec<OutputFile> = Vec::new();
    if options.emit_config.json {
        let mut name = stem.clone();
        name.append(".arr.json");
        let contents = context.json_output.finalize(&typed_graph.arena);
        files.push(OutputFile { name, contents });
    }
    if options.emit_config.js {
        let mut name = stem.clone();
        name.append(".arr.js");
        let mut default_require_path = String::from_str("./");
        default_require_path.append(strip_extension(root_stem.as_str()).as_str());
        default_require_path.append(".js");
        let contents = context.js_output.finalize(default_require_path);
        files.push(OutputFile { name, contents });
    }
    assert(files_view(files@) =~= emitted_files(*options, root_module_path@, typed_graph@));
    files
}

/// The JSON artifact of one module: its name is that of the module
/// without its extensions; its text maps every type and every value that
/// the module declares and exports to the position of its descriptor, over
/// the arena that the positions point into.
pub open spec fn root_file(root: TypedNodeView, arena: Seq<DescrView>) -> OutputText {
    OutputText {
        name: without_extension(without_extension(file_name(root.path@))) + ".arr.json"@,
        contents: document_text(
            exports_upto(
                Seq::empty(),
                root.rooted_export_types,
                root.rooted_export_types.len() as int,
            ),
            exports_upto(
                Seq::empty(),
                root.rooted_export_values,
                root.rooted_export_values.len() as int,
            ),
            arena,
        ),
    }
}

/// Computes the JSON artifact of the root module alone: the types and the
/// values that the module declares and exports, each with its descriptor,
/// and the arena of descriptors.
pub fn emit_json(root_module_info: &TypedModuleNode, arena: &Vec<TypeDescr>) -> (file: OutputFile)
    requires
        file_name(root_module_info.path@).len() > 0,
    ensures
        file@ == root_file(root_module_info@, arena_view(arena@)),
{
    let file_name = file_name_of(root_module_info.path.as_path());
    let mut name = strip_extension(strip_extension(file_name.as_str()).as_str());
    name.append(".arr.json");

    let mut output = JsonOutput::new();
    let types = &root_module_info.rooted_export_types;
    let mut i: usize = 0;
    while i < types.len()
        invariant
            i <= types@.len(),
            output@.values == Seq::<Field>::empty(),
            output@.types == exports_upto(Seq::empty(), types@, i as int),
        decreases types@.len() - i,
    {
        output.export_type(&types[i].name, types[i].ty);
        i += 1;
    }
    let values = &root_module_info.rooted_export_values;
    let ghost with_types = output@.types;
    let mut i: usize = 0;
    while i < values.len()
        invariant
            i <= values@.len(),
            output@.types == with_types,
            output@.values == exports_upto(Seq::empty(), values@, i as int),
        decreases values@.len() - i,
    {
        output.export_value(&values[i].name, values[i].ty);
        i += 1;
    }
    OutputFile { name, contents: output.finalize(arena) }
}

} // verus!
