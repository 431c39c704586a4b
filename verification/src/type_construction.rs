//! From names to declarations across modules: what a type annotation
//! denotes, and which members a class or an interface has once the members
//! of what it extends are counted in.

use vstd::prelude::*;

use crate::ast::{
    Accessibility, ClassMember, Decl, EnumMemberInit, InterfaceMember, ModuleItem, PrimitiveKind,
    TypeAnn, TypeBase,
};
use crate::bind_graph_init::{Export, GraphView, ModuleGraph};
use crate::bind_init::ModuleData;
use crate::graph_reduce::{find_module, rooted_in, Namespace};
use crate::structures::CanonPath;
use crate::type_scope::{
    decl_of, find_rooted_decl, find_type_binding, item_decl, rooted_decl, type_binding, DeclRef,
    TypeBinding,
};
use crate::type_structs::{primitive_handle, primitive_slot, Handle};

verus! {

/// A program to be typified: its parsed modules and its reduced graph,
/// module `i` of the one being module `i` of the other.
pub struct Program {
    pub modules: Seq<ModuleData>,
    pub graph: GraphView,
}

impl Program {
    /// The graph has a node and an edge list for each module.
    pub open spec fn wf(self) -> bool {
        self.graph.wf() && self.graph.nodes.len() == self.modules.len()
    }

    /// The items of module `mi`.
    pub open spec fn items(self, mi: int) -> Seq<ModuleItem> {
        self.modules[mi].module_ast@
    }

    /// The declaration at item `ji` of module `mi`.
    pub open spec fn decl(self, mi: int, ji: int) -> Option<Decl> {
        if 0 <= mi < self.modules.len() && 0 <= ji < self.items(mi).len() {
            decl_of(self.items(mi)[ji])
        } else {
            None
        }
    }
}

/// The number of arena positions that are kept for an item: two for a
/// class, its type and its constructor, one for an interface.
pub open spec fn item_slots(item: ModuleItem) -> nat {
    match decl_of(item) {
        Some(Decl::Class(_)) => 2,
        Some(Decl::TsInterface(_)) => 1,
        _ => 0,
    }
}

/// The number of positions kept for the first `n` items.
pub open spec fn slots_upto(items: Seq<ModuleItem>, n: int) -> nat
    decreases n,
{
    if n <= 0 {
        0
    } else {
        slots_upto(items, n - 1) + item_slots(items[n - 1])
    }
}

/// The first position kept for module `mi`: the built-in types come
/// first, then the modules in order.
pub open spec fn module_base(modules: Seq<ModuleData>, mi: int) -> nat
    decreases mi,
{
    if mi <= 0 {
        7
    } else {
        module_base(modules, mi - 1) + slots_upto(
            modules[mi - 1].module_ast@,
            modules[mi - 1].module_ast@.len() as int,
        )
    }
}

/// The first position kept for item `ji` of module `mi`.
pub open spec fn slot_of(modules: Seq<ModuleData>, mi: int, ji: int) -> nat {
    module_base(modules, mi) + slots_upto(modules[mi].module_ast@, ji)
}

/// The number of positions kept in all: for the built-in types and for
/// the classes and interfaces of every module.
pub open spec fn planned(modules: Seq<ModuleData>) -> nat {
    module_base(modules, modules.len() as int)
}

/// Whether `layout` holds, for each item of each module, the first
/// position kept for it.
pub open spec fn layout_ok(layout: Seq<Vec<usize>>, modules: Seq<ModuleData>) -> bool {
    &&& layout.len() == modules.len()
    &&& planned(modules) <= usize::MAX
    &&& forall|mi: int|
        0 <= mi < modules.len() ==> (#[trigger] layout[mi])@.len()
            == modules[mi].module_ast@.len()
    &&& forall|mi: int, ji: int|
        0 <= mi < modules.len() && 0 <= ji < modules[mi].module_ast@.len() ==> {
            &&& (#[trigger] layout[mi]@[ji]) == slot_of(modules, mi, ji)
            &&& slot_of(modules, mi, ji) + item_slots(modules[mi].module_ast@[ji]) <= planned(
                modules,
            )
        }
}

/// The first typed edge at or after `from` that exports under `key` in
/// `ns`.
pub open spec fn first_edge(edges: Seq<Export>, key: Seq<char>, ns: Namespace, from: int)
    -> Option<Export>
    decreases edges.len() - from,
{
    if from < 0 || from >= edges.len() {
        None
    } else if edges[from].names(key) && match ns {
        Namespace::Type => edges[from] is NamedType,
        Namespace::Value => edges[from] is NamedValue,
    } {
        Some(edges[from])
    } else {
        first_edge(edges, key, ns, from + 1)
    }
}

/// The declaration that module `si` declares and exports as `key` in `ns`.
pub open spec fn own_export(p: Program, si: int, key: Seq<char>, ns: Namespace) -> Option<
    (usize, DeclRef),
> {
    match rooted_decl(p.items(si), key, ns, 0) {
        Some(d) => Some((si as usize, d)),
        None => None,
    }
}

/// The declaration behind what `source` exports as `src_key` in `ns`: a
/// rooted export of `source` itself, or the rooted export that the first
/// edge of `source` under that key points at.
pub open spec fn imported_decl(p: Program, source: CanonPath, src_key: String, ns: Namespace)
    -> Option<(usize, DeclRef)> {
    match p.graph.module_at(source@) {
        None => None,
        Some(si) => if rooted_in(p.graph.nodes[si], src_key@, ns) {
            own_export(p, si, src_key@, ns)
        } else {
            match first_edge(p.graph.export_edges[si], src_key@, ns, 0) {
                Some(e) => match p.graph.module_at(e.source()@) {
                    Some(ti) => own_export(p, ti, e.src_key()@, ns),
                    None => None,
                },
                None => None,
            }
        },
    }
}

/// The declaration that the type name `name` stands for in module `mi`,
/// as the position of its module and its place there.
pub open spec fn type_ref(p: Program, mi: int, name: Seq<char>) -> Option<(usize, DeclRef)> {
    match type_binding(p.items(mi), p.modules[mi].dependencies@, name) {
        Some(TypeBinding::Local(j)) => Some((mi as usize, DeclRef { item: j, pat: 0 })),
        Some(TypeBinding::Imported { source, src_key }) => imported_decl(
            p,
            source,
            src_key,
            Namespace::Type,
        ),
        None => None,
    }
}

/// What an annotation denotes: the position of a descriptor that is no
/// array, under `rank` levels of arrays.
#[derive(Debug, Clone, Copy, PartialEq, Eq, Structural)]
pub struct Resolved {
    pub base: Handle,
    pub rank: u64,
}

/// The built-in type that an enum counts as: number where every member is
/// numeric, string where every member is a string, else any.
pub open spec fn enum_kind(members: Seq<EnumMemberInit>) -> PrimitiveKind {
    if forall|i: int|
        0 <= i < members.len() ==> (#[trigger] members[i]) is Auto || members[i] is Number {
        PrimitiveKind::Number
    } else if forall|i: int| 0 <= i < members.len() ==> (#[trigger] members[i]) is Str {
        PrimitiveKind::String
    } else {
        PrimitiveKind::Any
    }
}

/// The sum of two ranks, held at the largest rank there is.
pub open spec fn rank_sum(a: u64, b: u64) -> u64 {
    if a + b > u64::MAX {
        u64::MAX
    } else {
        (a + b) as u64
    }
}

/// A place in a program: a module and an item of it.
pub struct Place {
    pub module: usize,
    pub item: usize,
}

/// Whether the item `ji` of module `mi` is among `visited`.
pub open spec fn entered(visited: Seq<Place>, mi: int, ji: int) -> bool {
    exists|j: int|
        0 <= j < visited.len() && (#[trigger] visited[j]).module == mi && visited[j].item == ji
}

/// What the annotation `ann`, written in module `mi`, denotes. A built-in
/// name denotes its built-in type. A name of a class or an interface
/// denotes the position kept for that declaration, an enum the built-in
/// type it counts as, an alias what its right-hand side denotes in the
/// module of the alias. Array brackets add to the rank, also across an
/// alias. Whatever else is written, and a name that stands for nothing,
/// denotes `any`; so does an alias met again while it is being expanded:
/// `visited` holds the aliases on the way. A chain of `usize::MAX`
/// aliases, which no machine can hold, ends in `any` too.
pub open spec fn resolve_ann(p: Program, mi: int, ann: TypeAnn, visited: Seq<Place>) -> Resolved
    decreases usize::MAX - visited.len(),
{
    let any = Resolved { base: primitive_slot(PrimitiveKind::Any), rank: ann.rank };
    match ann.base {
        TypeBase::Keyword(kind) => Resolved { base: primitive_slot(kind), rank: ann.rank },
        TypeBase::Unsupported => any,
        TypeBase::Ref(name) => match type_ref(p, mi, name@) {
            None => any,
            Some((m2, d)) => match p.decl(m2 as int, d.item as int) {
                Some(Decl::Class(_)) => Resolved {
                    base: slot_of(p.modules, m2 as int, d.item as int) as usize,
                    rank: ann.rank,
                },
                Some(Decl::TsInterface(_)) => Resolved {
                    base: slot_of(p.modules, m2 as int, d.item as int) as usize,
                    rank: ann.rank,
                },
                Some(Decl::TsEnum(e)) => Resolved {
                    base: primitive_slot(enum_kind(e.members@)),
                    rank: ann.rank,
                },
                Some(Decl::TsTypeAlias(a)) => if visited.len() >= usize::MAX || entered(
                    visited,
                    m2 as int,
                    d.item as int,
                ) {
                    any
                } else {
                    let inner = resolve_ann(
                        p,
                        m2 as int,
                        a.ann,
                        visited.push(Place { module: m2, item: d.item }),
                    );
                    Resolved { base: inner.base, rank: rank_sum(inner.rank, ann.rank) }
                },
                _ => any,
            },
        },
    }
}

/// A member of the surface of a class or an interface: its name and the
/// place where it is declared.
pub struct FieldSource {
    pub name: String,
    pub module: usize,
    pub item: usize,
    pub member: usize,
}

/// The name of a class member that belongs to the surface of the class:
/// a public property or method that is not static.
pub open spec fn class_member_name(m: ClassMember) -> Option<String> {
    match m {
        ClassMember::Method { name, is_static, accessibility, .. } => if !is_static
            && accessibility == Accessibility::Public {
            Some(name)
        } else {
            None
        },
        ClassMember::Property { name, is_static, accessibility, .. } => if !is_static
            && accessibility == Accessibility::Public {
            Some(name)
        } else {
            None
        },
        _ => None,
    }
}

/// The name of an interface member that is a property or a method.
pub open spec fn interface_member_name(m: InterfaceMember) -> Option<String> {
    match m {
        InterfaceMember::Property { name, .. } => Some(name),
        InterfaceMember::Method { name, .. } => Some(name),
        InterfaceMember::Other => None,
    }
}

/// The number of members of a class or an interface.
pub open spec fn member_count(decl: Decl) -> nat {
    match decl {
        Decl::Class(c) => c.members@.len(),
        Decl::TsInterface(i) => i.members@.len(),
        _ => 0,
    }
}

/// The name of member `i` of a class or an interface, where the member
/// belongs to the surface.
pub open spec fn member_name(decl: Decl, i: int) -> Option<String> {
    match decl {
        Decl::Class(c) => class_member_name(c.members@[i]),
        Decl::TsInterface(f) => interface_member_name(f.members@[i]),
        _ => None,
    }
}

/// The names after `extends`.
pub open spec fn parents(decl: Decl) -> Seq<String> {
    match decl {
        Decl::Class(c) => match c.super_class {
            Some(name) => seq![name],
            None => Seq::empty(),
        },
        Decl::TsInterface(i) => i.extends@,
        _ => Seq::empty(),
    }
}

/// Whether one of `fields` has the name `name`.
pub open spec fn has_field(fields: Seq<FieldSource>, name: Seq<char>) -> bool {
    exists|i: int| 0 <= i < fields.len() && (#[trigger] fields[i]).name@ == name
}

/// `fields`, with `f` added unless a field of that name is there already.
pub open spec fn with_field(fields: Seq<FieldSource>, f: FieldSource) -> Seq<FieldSource> {
    if has_field(fields, f.name@) {
        fields
    } else {
        fields.push(f)
    }
}

/// `acc`, with each of `fields` added whose name is not there yet.
pub open spec fn fields_onto(acc: Seq<FieldSource>, fields: Seq<FieldSource>) -> Seq<FieldSource>
    decreases fields.len(),
{
    if fields.len() == 0 {
        acc
    } else {
        fields_onto(with_field(acc, fields[0]), fields.skip(1))
    }
}

/// `acc`, with the surface members of `decl` from member `from` on, each
/// under its first declaration.
pub open spec fn own_fields_onto(
    acc: Seq<FieldSource>,
    decl: Decl,
    mi: usize,
    ji: usize,
    from: int,
) -> Seq<FieldSource>
    decreases member_count(decl) - from,
{
    if from < 0 || from >= member_count(decl) {
        acc
    } else {
        let next = match member_name(decl, from) {
            Some(name) => with_field(
                acc,
                FieldSource { name, module: mi, item: ji, member: from as usize },
            ),
            None => acc,
        };
        own_fields_onto(next, decl, mi, ji, from + 1)
    }
}

/// The members of the class or interface at item `ji` of module `mi`: its
/// own surface members in source order, then those of what it extends that
/// it does not declare itself, the first parent first. `visited` holds the
/// declarations on the way: one that extends itself, directly or not,
/// inherits nothing on the way round, and a chain of `usize::MAX`
/// declarations, which no machine can hold, is followed no further.
pub open spec fn flat_fields(p: Program, mi: int, ji: int, visited: Seq<Place>) -> Seq<
    FieldSource,
>
    decreases usize::MAX - visited.len(), 0int, 0int,
{
    if visited.len() >= usize::MAX || entered(visited, mi, ji) {
        Seq::empty()
    } else {
        match p.decl(mi, ji) {
            Some(decl) => parents_onto(
                own_fields_onto(Seq::empty(), decl, mi as usize, ji as usize, 0),
                p,
                mi,
                parents(decl),
                visited.push(Place { module: mi as usize, item: ji as usize }),
            ),
            None => Seq::empty(),
        }
    }
}

/// `acc`, with the members added that the parents `names`, written in
/// module `mi`, bring and `acc` does not hold yet.
pub open spec fn parents_onto(
    acc: Seq<FieldSource>,
    p: Program,
    mi: int,
    names: Seq<String>,
    visited: Seq<Place>,
) -> Seq<FieldSource>
    decreases usize::MAX - visited.len(), 1int, names.len(),
{
    if names.len() == 0 {
        acc
    } else {
        let inherited = match type_ref(p, mi, names[0]@) {
            Some((pm, d)) => flat_fields(p, pm as int, d.item as int, visited),
            None => Seq::empty(),
        };
        parents_onto(fields_onto(acc, inherited), p, mi, names.skip(1), visited)
    }
}

/// The program that `modules` and `graph` stand for.
pub open spec fn program(modules: &Vec<ModuleData>, graph: &ModuleGraph) -> Program {
    Program { modules: modules@, graph: graph@ }
}

/// The first typed edge that exports under `key` in `ns`.
fn find_edge<'a>(edges: &'a Vec<Export>, key: &String, ns: Namespace) -> (r: Option<&'a Export>)
    ensures
        match r {
            Some(e) => first_edge(edges@, key@, ns, 0) == Some(*e) && *e !is All,
            None => first_edge(edges@, key@, ns, 0) is None,
        },
{
    let mut i: usize = 0;
    while i < edges.len()
        invariant
            i <= edges@.len(),
            first_edge(edges@, key@, ns, 0) == first_edge(edges@, key@, ns, i as int),
        decreases edges@.len() - i,
    {
        let typed = match (&edges[i], ns) {
            (Export::NamedType { .. }, Namespace::Type) => true,
            (Export::NamedValue { .. }, Namespace::Value) => true,
            _ => false,
        };
        if typed && edges[i].exports_under(key) {
            return Some(&edges[i]);
        }
        i += 1;
    }
    None
}

/// Whether `r` names an item of a module of `modules`.
pub open spec fn in_program(modules: Seq<ModuleData>, r: Option<(usize, DeclRef)>) -> bool {
    match r {
        Some((m, d)) => m < modules.len() && d.item < modules[m as int].module_ast@.len(),
        None => true,
    }
}

/// The declaration that module `si` declares and exports as `key` in `ns`.
fn find_own_export(modules: &Vec<ModuleData>, si: usize, key: &String, ns: Namespace) -> (r:
    Option<(usize, DeclRef)>)
    requires
        si < modules@.len(),
    ensures
        in_program(modules@, r),
        forall|g: GraphView|
            r == own_export(Program { modules: modules@, graph: g }, si as int, key@, ns),
{
    match find_rooted_decl(&modules[si].module_ast, key, ns) {
        Some(d) => Some((si, d)),
        None => None,
    }
}

/// The declaration behind what `source` exports as `src_key` in `ns`.
fn find_imported_decl(
    modules: &Vec<ModuleData>,
    graph: &ModuleGraph,
    source: &CanonPath,
    src_key: &String,
    ns: Namespace,
) -> (r: Option<(usize, DeclRef)>)
    requires
        program(modules, graph).wf(),
    ensures
        in_program(modules@, r),
        r == imported_decl(program(modules, graph), *source, *src_key, ns),
{
    let si = match find_module(graph, source) {
        Some(si) => si,
        None => {
            return None;
        },
    };
    let rooted = match ns {
        Namespace::Type => graph.nodes[si].is_rooted_type(src_key),
        Namespace::Value => graph.nodes[si].is_rooted_value(src_key),
    };
    if rooted {
        return find_own_export(modules, si, src_key, ns);
    }
    assert(graph.export_edges@[si as int]@ == graph@.export_edges[si as int]);
    match find_edge(&graph.export_edges[si], src_key, ns) {
        Some(e) => {
            let (e_source, e_key) = match e {
                Export::NamedType { source, src_key, .. } => (source, src_key),
                Export::NamedValue { source, src_key, .. } => (source, src_key),
                Export::Named { source, src_key, .. } => (source, src_key),
                Export::All { source } => (source, src_key),
            };
            match find_module(graph, e_source) {
                Some(ti) => find_own_export(modules, ti, e_key, ns),
                None => None,
            }
        },
        None => None,
    }
}

/// The declaration that the type name `name` stands for in module `mi`.
pub fn find_type_ref(modules: &Vec<ModuleData>, graph: &ModuleGraph, mi: usize, name: &String)
    -> (r: Option<(usize, DeclRef)>)
    requires
        program(modules, graph).wf(),
        mi < modules@.len(),
    ensures
        in_program(modules@, r),
        r == type_ref(program(modules, graph), mi as int, name@),
{
    match find_type_binding(&modules[mi].module_ast, &modules[mi].dependencies, name) {
        Some(TypeBinding::Local(j)) => Some((mi, DeclRef { item: j, pat: 0 })),
        Some(TypeBinding::Imported { source, src_key }) => find_imported_decl(
            modules,
            graph,
            &source,
            &src_key,
            Namespace::Type,
        ),
        None => None,
    }
}

/// The built-in type that an enum counts as.
pub fn enum_primitive(members: &Vec<EnumMemberInit>) -> (kind: PrimitiveKind)
    ensures
        kind == enum_kind(members@),
{
    let mut numeric = true;
    let mut text = true;
    let mut i: usize = 0;
    while i < members.len()
        invariant
            i <= members@.len(),
            numeric == forall|j: int|
                0 <= j < i ==> (#[trigger] members@[j]) is Auto || members@[j] is Number,
            text == forall|j: int| 0 <= j < i ==> (#[trigger] members@[j]) is Str,
        decreases members@.len() - i,
    {
        match members[i] {
            EnumMemberInit::Auto => {
                text = false;
            },
            EnumMemberInit::Number => {
                text = false;
            },
            EnumMemberInit::Str => {
                numeric = false;
            },
            EnumMemberInit::Other => {
                numeric = false;
                text = false;
            },
        }
        i += 1;
    }
    if numeric {
        PrimitiveKind::Number
    } else if text {
        PrimitiveKind::String
    } else {
        PrimitiveKind::Any
    }
}

/// Whether the item `ji` of module `mi` is among `visited`.
fn was_entered(visited: &Vec<Place>, mi: usize, ji: usize) -> (r: bool)
    ensures
        r == entered(visited@, mi as int, ji as int),
{
    let mut i: usize = 0;
    while i < visited.len()
        invariant
            i <= visited@.len(),
            forall|j: int|
                0 <= j < i ==> !((#[trigger] visited@[j]).module == mi && visited@[j].item == ji),
        decreases visited@.len() - i,
    {
        if visited[i].module == mi && visited[i].item == ji {
            return true;
        }
        i += 1;
    }
    false
}

/// The sum of two ranks, held at the largest rank there is.
fn add_ranks(a: u64, b: u64) -> (r: u64)
    ensures
        r == rank_sum(a, b),
{
    if a > u64::MAX - b {
        u64::MAX
    } else {
        a + b
    }
}

/// What the annotation `ann`, written in module `mi`, denotes.
pub fn resolve_annotation(
    modules: &Vec<ModuleData>,
    graph: &ModuleGraph,
    layout: &Vec<Vec<usize>>,
    mi: usize,
    ann: &TypeAnn,
    visited: &mut Vec<Place>,
) -> (r: Resolved)
    requires
        program(modules, graph).wf(),
        layout_ok(layout@, modules@),
        mi < modules@.len(),
    ensures
        final(visited)@ == old(visited)@,
        r == resolve_ann(program(modules, graph), mi as int, *ann, old(visited)@),
        r.base < planned(modules@),
    decreases usize::MAX - old(visited)@.len(),
{
    let ghost p = program(modules, graph);
    let any = Resolved { base: primitive_handle(PrimitiveKind::Any), rank: ann.rank };
    assert(planned(modules@) >= 7) by {
        lemma_base_grows(modules@, modules@.len() as int);
    }
    match &ann.base {
        TypeBase::Keyword(kind) => Resolved { base: primitive_handle(*kind), rank: ann.rank },
        TypeBase::Unsupported => any,
        TypeBase::Ref(name) => match find_type_ref(modules, graph, mi, name) {
            None => any,
            Some((m2, d)) => {
                assert(p.decl(m2 as int, d.item as int) == decl_of(
                    modules@[m2 as int].module_ast@[d.item as int],
                ));
                match item_decl(&modules[m2].module_ast[d.item]) {
                    Some(Decl::Class(_)) => Resolved {
                        base: layout[m2][d.item],
                        rank: ann.rank,
                    },
                    Some(Decl::TsInterface(_)) => Resolved {
                        base: layout[m2][d.item],
                        rank: ann.rank,
                    },
                    Some(Decl::TsEnum(e)) => Resolved {
                        base: primitive_handle(enum_primitive(&e.members)),
                        rank: ann.rank,
                    },
                    Some(Decl::TsTypeAlias(a)) => {
                        if visited.len() >= usize::MAX || was_entered(visited, m2, d.item) {
                            any
                        } else {
                            visited.push(Place { module: m2, item: d.item });
                            let inner = resolve_annotation(
                                modules,
                                graph,
                                layout,
                                m2,
                                &a.ann,
                                visited,
                            );
                            visited.pop();
                            assert(visited@ =~= old(visited)@);
                            Resolved { base: inner.base, rank: add_ranks(inner.rank, ann.rank) }
                        }
                    },
                    _ => any,
                }
            },
        },
    }
}

/// The positions kept grow with the modules: none lies before the seven
/// of the built-in types.
pub proof fn lemma_base_grows(modules: Seq<ModuleData>, mi: int)
    ensures
        module_base(modules, mi) >= 7,
    decreases mi,
{
    if mi > 0 {
        lemma_base_grows(modules, mi - 1);
    }
}

/// Whether each of `fields` names a member of a declaration of `modules`.
pub open spec fn fields_in_program(modules: Seq<ModuleData>, fields: Seq<FieldSource>) -> bool {
    forall|i: int|
        0 <= i < fields.len() ==> {
            let f = #[trigger] fields[i];
            &&& f.module < modules.len()
            &&& f.item < modules[f.module as int].module_ast@.len()
            &&& match decl_of(modules[f.module as int].module_ast@[f.item as int]) {
                Some(decl) => f.member < member_count(decl),
                None => false,
            }
        }
}

/// Whether one of `fields` has the name `name`.
fn holds_field(fields: &Vec<FieldSource>, name: &String) -> (r: bool)
    ensures
        r == has_field(fields@, name@),
{
    let mut i: usize = 0;
    while i < fields.len()
        invariant
            i <= fields@.len(),
            forall|j: int| 0 <= j < i ==> (#[trigger] fields@[j]).name@ != name@,
        decreases fields@.len() - i,
    {
        if fields[i].name == *name {
            return true;
        }
        i += 1;
    }
    false
}

/// Adds `f` unless a field of that name is there already.
fn add_field(fields: &mut Vec<FieldSource>, f: FieldSource)
    ensures
        final(fields)@ == with_field(old(fields)@, f),
{
    if !holds_field(fields, &f.name) {
        fields.push(f);
    }
}

/// Adds each of `more` whose name is not there yet.
fn add_fields(fields: &mut Vec<FieldSource>, more: &Vec<FieldSource>)
    ensures
        final(fields)@ == fields_onto(old(fields)@, more@),
{
    assert(more@.skip(0) =~= more@);
    let mut i: usize = 0;
    while i < more.len()
        invariant
            i <= more@.len(),
            fields_onto(old(fields)@, more@) == fields_onto(fields@, more@.skip(i as int)),
        decreases more@.len() - i,
    {
        assert(more@.skip(i as int).skip(1) =~= more@.skip(i as int + 1));
        let f = &more[i];
        add_field(
            fields,
            FieldSource {
                name: f.name.clone(),
                module: f.module,
                item: f.item,
                member: f.member,
            },
        );
        i += 1;
    }
}

/// Adding fields that name members of the program keeps that property.
pub proof fn lemma_fields_onto_in_program(
    modules: Seq<ModuleData>,
    acc: Seq<FieldSource>,
    fields: Seq<FieldSource>,
)
    requires
        fields_in_program(modules, acc),
        fields_in_program(modules, fields),
    ensures
        fields_in_program(modules, fields_onto(acc, fields)),
    decreases fields.len(),
{
    if fields.len() > 0 {
        let next = with_field(acc, fields[0]);
        assert(fields_in_program(modules, next));
        assert forall|i: int| 0 <= i < fields.skip(1).len() implies {
            let f = #[trigger] fields.skip(1)[i];
            &&& f.module < modules.len()
            &&& f.item < modules[f.module as int].module_ast@.len()
            &&& match decl_of(modules[f.module as int].module_ast@[f.item as int]) {
                Some(decl) => f.member < member_count(decl),
                None => false,
            }
        } by {
            assert(fields.skip(1)[i] == fields[i + 1]);
        }
        lemma_fields_onto_in_program(modules, next, fields.skip(1));
    }
}

/// The name of member `i` of a class or an interface, where the member
/// belongs to the surface.
fn surface_name(decl: &Decl, i: usize) -> (r: Option<&String>)
    requires
        i < member_count(*decl),
    ensures
        match r {
            Some(name) => member_name(*decl, i as int) == Some(*name),
            None => member_name(*decl, i as int) is None,
        },
{
    match decl {
        Decl::Class(c) => match &c.members[i] {
            ClassMember::Method { name, is_static, accessibility, .. } => {
                match accessibility {
                    Accessibility::Public => if !*is_static {
                        Some(name)
                    } else {
                        None
                    },
                    _ => None,
                }
            },
            ClassMember::Property { name, is_static, accessibility, .. } => {
                match accessibility {
                    Accessibility::Public => if !*is_static {
                        Some(name)
                    } else {
                        None
                    },
                    _ => None,
                }
            },
            _ => None,
        },
        Decl::TsInterface(f) => match &f.members[i] {
            InterfaceMember::Property { name, .. } => Some(name),
            InterfaceMember::Method { name, .. } => Some(name),
            InterfaceMember::Other => None,
        },
        _ => None,
    }
}

/// The number of members of a class or an interface.
fn count_members(decl: &Decl) -> (n: usize)
    ensures
        n == member_count(*decl),
{
    match decl {
        Decl::Class(c) => c.members.len(),
        Decl::TsInterface(i) => i.members.len(),
        _ => 0,
    }
}

/// The members of the class or interface at item `ji` of module `mi`.
pub fn flatten_fields(
    modules: &Vec<ModuleData>,
    graph: &ModuleGraph,
    mi: usize,
    ji: usize,
    visited: &mut Vec<Place>,
) -> (r: Vec<FieldSource>)
    requires
        program(modules, graph).wf(),
    ensures
        final(visited)@ == old(visited)@,
        r@ == flat_fields(program(modules, graph), mi as int, ji as int, old(visited)@),
        fields_in_program(modules@, r@),
    decreases usize::MAX - old(visited)@.len(),
{
    let ghost p = program(modules, graph);
    let mut acc: Vec<FieldSource> = Vec::new();
    if visited.len() >= usize::MAX || was_entered(visited, mi, ji) {
        return acc;
    }
    if mi >= modules.len() || ji >= modules[mi].module_ast.len() {
        return acc;
    }
    let decl = match item_decl(&modules[mi].module_ast[ji]) {
        Some(decl) => decl,
        None => {
            return acc;
        },
    };
    let count = count_members(decl);
    let mut i: usize = 0;
    while i < count
        invariant
            i <= count,
            count == member_count(*decl),
            mi < modules@.len(),
            ji < modules@[mi as int].module_ast@.len(),
            decl_of(modules@[mi as int].module_ast@[ji as int]) == Some(*decl),
            fields_in_program(modules@, acc@),
            own_fields_onto(Seq::empty(), *decl, mi, ji, 0) == own_fields_onto(
                acc@,
                *decl,
                mi,
                ji,
                i as int,
            ),
        decreases count - i,
    {
        match surface_name(decl, i) {
            Some(name) => {
                add_field(
                    &mut acc,
                    FieldSource { name: name.clone(), module: mi, item: ji, member: i },
                );
            },
            None => {},
        }
        i += 1;
    }
    visited.push(Place { module: mi, item: ji });
    let ghost inner = visited@;
    let ghost own = acc@;
    let single: Vec<String>;
    let names: &Vec<String> = match decl {
        Decl::Class(c) => {
            single =
            match &c.super_class {
                Some(name) => vec![name.clone()],
                None => Vec::new(),
            };
            &single
        },
        Decl::TsInterface(f) => &f.extends,
        _ => {
            single = Vec::new();
            &single
        },
    };
    assert(names@ =~= parents(*decl));
    assert(names@.skip(0) =~= names@);
    let mut i: usize = 0;
    while i < names.len()
        invariant
            p == program(modules, graph),
            p.wf(),
            mi < modules@.len(),
            i <= names@.len(),
            visited@ == inner,
            inner.len() == old(visited)@.len() + 1,
            inner.len() <= usize::MAX,
            fields_in_program(modules@, acc@),
            parents_onto(own, p, mi as int, names@, inner) == parents_onto(
                acc@,
                p,
                mi as int,
                names@.skip(i as int),
                inner,
            ),
        decreases names@.len() - i,
    {
        assert(names@.skip(i as int).skip(1) =~= names@.skip(i as int + 1));
        match find_type_ref(modules, graph, mi, &names[i]) {
            Some((pm, d)) => {
                let inherited = flatten_fields(modules, graph, pm, d.item, visited);
                proof {
                    lemma_fields_onto_in_program(modules@, acc@, inherited@);
                }
                add_fields(&mut acc, &inherited);
            },
            None => {
                assert(fields_onto(acc@, Seq::empty()) == acc@);
            },
        }
        i += 1;
    }
    visited.pop();
    assert(visited@ =~= old(visited)@);
    acc
}

} // verus!
