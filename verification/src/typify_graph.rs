//! Typification: every rooted export of the reduced graph gets a
//! descriptor that stands on its own. All descriptors of a program live in
//! one arena. The arena starts with the built-in types; then comes one
//! position for each interface and two for each class, its type and its
//! constructor, in the order of the modules and their items; whatever else
//! is needed follows. Types that refer to each other, or to themselves, do
//! so by position.

use vstd::prelude::*;

use crate::ast::{ClassMember, Decl, InterfaceMember, ModuleItem, Pat, PrimitiveKind, TypeAnn};
use crate::bind_graph_init::ModuleGraph;
use crate::bind_init::{ModuleData, ParsedModuleCache};
use crate::graph_reduce::Namespace;
use crate::type_construction::{
    enum_kind, enum_primitive, fields_in_program, flat_fields, flatten_fields, item_slots,
    layout_ok, lemma_base_grows, member_count, module_base, planned, program, resolve_ann,
    resolve_annotation, slot_of, slots_upto, FieldSource, Place, Program, Resolved,
};
use crate::type_scope::{decl_of, find_rooted_decl, item_decl, rooted_decl};
use crate::arena_facts::{lemma_typed_wf, sized};
use crate::type_facts::countable;
use crate::type_structs::{
    arena_view, primitive_handle, primitive_slot, primitives, DescrView, Field, Handle,
    TypeDescr, TypedModuleGraph, TypedModuleNode, TypedNodeView, TypedView,
};

verus! {

/// The descriptor at the position of what `r` denotes: the base itself
/// where the rank is zero, else a new array descriptor at the end of the
/// arena.
pub open spec fn ann_entry(arena: Seq<DescrView>, r: Resolved) -> (Seq<DescrView>, Handle) {
    if r.rank == 0 {
        (arena, r.base)
    } else {
        (arena.push(DescrView::Array { elem: r.base, rank: r.rank }), arena.len() as usize)
    }
}

/// What an annotation that may be missing denotes: a missing one denotes
/// the built-in type `default`.
pub open spec fn opt_ann(p: Program, mi: int, ann: Option<TypeAnn>, default: PrimitiveKind)
    -> Resolved {
    match ann {
        Some(a) => resolve_ann(p, mi, a, Seq::empty()),
        None => Resolved { base: primitive_slot(default), rank: 0 },
    }
}

/// The arena and `handles`, after the descriptors of the parameter types
/// `params`, written in module `mi`; a parameter without an annotation is
/// `any`.
pub open spec fn params_onto(
    arena: Seq<DescrView>,
    handles: Seq<Handle>,
    p: Program,
    mi: int,
    params: Seq<Option<TypeAnn>>,
) -> (Seq<DescrView>, Seq<Handle>)
    decreases params.len(),
{
    if params.len() == 0 {
        (arena, handles)
    } else {
        let (next, h) = ann_entry(arena, opt_ann(p, mi, params[0], PrimitiveKind::Any));
        params_onto(next, handles.push(h), p, mi, params.skip(1))
    }
}

/// The arena after the descriptor of a function or method of module `mi`,
/// and the position of that descriptor. A missing return annotation is
/// `void`.
pub open spec fn signature_entry(
    arena: Seq<DescrView>,
    p: Program,
    mi: int,
    params: Seq<Option<TypeAnn>>,
    ret: Option<TypeAnn>,
) -> (Seq<DescrView>, Handle) {
    let (with_params, handles) = params_onto(arena, Seq::empty(), p, mi, params);
    let (with_ret, r) = ann_entry(with_params, opt_ann(p, mi, ret, PrimitiveKind::Void));
    (
        with_ret.push(
            DescrView::Fn { origin: p.modules[mi].path, params: handles, ret: Some(r) },
        ),
        with_ret.len() as usize,
    )
}

/// The arena after the descriptor of the type of a member, and the
/// position of that descriptor: a property has the type of its annotation,
/// `any` without one; a method is a function.
pub open spec fn field_entry(arena: Seq<DescrView>, p: Program, f: FieldSource) -> (
    Seq<DescrView>,
    Handle,
) {
    let any = (arena, primitive_slot(PrimitiveKind::Any));
    match p.decl(f.module as int, f.item as int) {
        Some(Decl::Class(c)) => match c.members@[f.member as int] {
            ClassMember::Property { ann, .. } => ann_entry(
                arena,
                opt_ann(p, f.module as int, ann, PrimitiveKind::Any),
            ),
            ClassMember::Method { sig, .. } => signature_entry(
                arena,
                p,
                f.module as int,
                sig.params@,
                sig.ret,
            ),
            _ => any,
        },
        Some(Decl::TsInterface(i)) => match i.members@[f.member as int] {
            InterfaceMember::Property { ann, .. } => ann_entry(
                arena,
                opt_ann(p, f.module as int, ann, PrimitiveKind::Any),
            ),
            InterfaceMember::Method { sig, .. } => signature_entry(
                arena,
                p,
                f.module as int,
                sig.params@,
                sig.ret,
            ),
            _ => any,
        },
        _ => any,
    }
}

/// The arena and `out`, after the descriptors of the members `fields`.
pub open spec fn fields_onto_arena(
    arena: Seq<DescrView>,
    out: Seq<Field>,
    p: Program,
    fields: Seq<FieldSource>,
) -> (Seq<DescrView>, Seq<Field>)
    decreases fields.len(),
{
    if fields.len() == 0 {
        (arena, out)
    } else {
        let (next, h) = field_entry(arena, p, fields[0]);
        fields_onto_arena(
            next,
            out.push(Field { name: fields[0].name, ty: h }),
            p,
            fields.skip(1),
        )
    }
}

/// The parameters of the first constructor among the members from `from`
/// on; none where there is no constructor.
pub open spec fn ctor_params(members: Seq<ClassMember>, from: int) -> Seq<Option<TypeAnn>>
    decreases members.len() - from,
{
    if from < 0 || from >= members.len() {
        Seq::empty()
    } else {
        match members[from] {
            ClassMember::Constructor { params } => params@,
            _ => ctor_params(members, from + 1),
        }
    }
}

/// The arena after the positions kept for item `ji` of module `mi` are
/// filled. A class fills two: its type, with its name, its module, its
/// constructor and its members; and its constructor, a function from the
/// constructor's parameters to the class. An interface fills one, with its
/// module and its members.
pub open spec fn fill_item(arena: Seq<DescrView>, p: Program, mi: int, ji: int) -> Seq<
    DescrView,
> {
    let slot = slot_of(p.modules, mi, ji);
    let origin = p.modules[mi].path;
    match decl_of(p.items(mi)[ji]) {
        Some(Decl::Class(c)) => {
            let (with_fields, fields) = fields_onto_arena(
                arena,
                Seq::empty(),
                p,
                flat_fields(p, mi, ji, Seq::empty()),
            );
            let (with_params, params) = params_onto(
                with_fields,
                Seq::empty(),
                p,
                mi,
                ctor_params(c.members@, 0),
            );
            with_params.update(
                slot as int,
                DescrView::Class {
                    name: c.name,
                    origin,
                    constructor: (slot + 1) as usize,
                    fields,
                },
            ).update(
                slot as int + 1,
                DescrView::Fn { origin, params, ret: Some(slot as usize) },
            )
        },
        Some(Decl::TsInterface(_)) => {
            let (with_fields, fields) = fields_onto_arena(
                arena,
                Seq::empty(),
                p,
                flat_fields(p, mi, ji, Seq::empty()),
            );
            with_fields.update(slot as int, DescrView::Interface { origin, fields })
        },
        _ => arena,
    }
}

/// The arena after the positions kept for the first `n` items of module
/// `mi` are filled.
pub open spec fn filled_items(arena: Seq<DescrView>, p: Program, mi: int, n: int) -> Seq<
    DescrView,
>
    decreases n,
{
    if n <= 0 {
        arena
    } else {
        fill_item(filled_items(arena, p, mi, n - 1), p, mi, n - 1)
    }
}

/// The arena after the positions kept for the first `n` modules are
/// filled.
pub open spec fn filled_modules(arena: Seq<DescrView>, p: Program, n: int) -> Seq<DescrView>
    decreases n,
{
    if n <= 0 {
        arena
    } else {
        filled_items(
            filled_modules(arena, p, n - 1),
            p,
            n - 1,
            p.items(n - 1).len() as int,
        )
    }
}

/// The arena before anything is filled: the built-in types, then a
/// stand-in at each position kept.
pub open spec fn planned_arena(modules: Seq<ModuleData>) -> Seq<DescrView> {
    Seq::new(
        planned(modules),
        |i: int|
            if 0 <= i < 7 {
                primitives()[i]
            } else {
                DescrView::Primitive(PrimitiveKind::Any)
            },
    )
}

/// The arena after the descriptor of the type that module `mi` declares
/// and exports as `key`, and the position of that descriptor: the position
/// kept for a class or an interface, the built-in type that an enum counts
/// as, what the right-hand side of an alias denotes.
pub open spec fn type_export_entry(arena: Seq<DescrView>, p: Program, mi: int, key: String) -> (
    Seq<DescrView>,
    Handle,
) {
    let any = (arena, primitive_slot(PrimitiveKind::Any));
    match rooted_decl(p.items(mi), key@, Namespace::Type, 0) {
        Some(d) => match decl_of(p.items(mi)[d.item as int]) {
            Some(Decl::Class(_)) => (arena, slot_of(p.modules, mi, d.item as int) as usize),
            Some(Decl::TsInterface(_)) => (arena, slot_of(p.modules, mi, d.item as int) as usize),
            Some(Decl::TsEnum(e)) => (arena, primitive_slot(enum_kind(e.members@))),
            Some(Decl::TsTypeAlias(a)) => ann_entry(
                arena,
                resolve_ann(p, mi, a.ann, seq![Place { module: mi as usize, item: d.item }]),
            ),
            _ => any,
        },
        None => any,
    }
}

/// The arena after the descriptor of the value that module `mi` declares
/// and exports as `key`, and the position of that descriptor: the
/// constructor of a class, the function of a function declaration, the
/// type of a variable's annotation, `any` without one.
pub open spec fn value_export_entry(arena: Seq<DescrView>, p: Program, mi: int, key: String) -> (
    Seq<DescrView>,
    Handle,
) {
    let any = (arena, primitive_slot(PrimitiveKind::Any));
    match rooted_decl(p.items(mi), key@, Namespace::Value, 0) {
        Some(d) => match decl_of(p.items(mi)[d.item as int]) {
            Some(Decl::Class(_)) => (
                arena,
                (slot_of(p.modules, mi, d.item as int) + 1) as usize,
            ),
            Some(Decl::Fn(f)) => signature_entry(arena, p, mi, f.sig.params@, f.sig.ret),
            Some(Decl::Var(v)) => if d.pat < v.decls@.len() {
                match v.decls@[d.pat as int] {
                    Pat::Ident { ann, .. } => ann_entry(
                        arena,
                        opt_ann(p, mi, ann, PrimitiveKind::Any),
                    ),
                    Pat::Other => any,
                }
            } else {
                any
            },
            _ => any,
        },
        None => any,
    }
}

/// The arena after the descriptor of what module `mi` declares and
/// exports as `key` in `ns`, and the position of that descriptor.
pub open spec fn export_entry(
    arena: Seq<DescrView>,
    p: Program,
    mi: int,
    key: String,
    ns: Namespace,
) -> (Seq<DescrView>, Handle) {
    match ns {
        Namespace::Type => type_export_entry(arena, p, mi, key),
        Namespace::Value => value_export_entry(arena, p, mi, key),
    }
}

/// The arena and `out`, after the descriptors of what module `mi`
/// declares and exports under `keys` in `ns`, in the order of the keys.
pub open spec fn exports_onto(
    arena: Seq<DescrView>,
    out: Seq<Field>,
    p: Program,
    mi: int,
    keys: Seq<String>,
    ns: Namespace,
) -> (Seq<DescrView>, Seq<Field>)
    decreases keys.len(),
{
    if keys.len() == 0 {
        (arena, out)
    } else {
        let (next, h) = export_entry(arena, p, mi, keys[0], ns);
        exports_onto(next, out.push(Field { name: keys[0], ty: h }), p, mi, keys.skip(1), ns)
    }
}

/// The arena after the rooted exports of module `mi`, types first, and
/// the typed node of the module.
pub open spec fn typed_node(arena: Seq<DescrView>, p: Program, mi: int) -> (
    Seq<DescrView>,
    TypedNodeView,
) {
    let node = p.graph.nodes[mi];
    let (with_types, types) = exports_onto(
        arena,
        Seq::empty(),
        p,
        mi,
        node.rooted_export_types,
        Namespace::Type,
    );
    let (with_values, values) = exports_onto(
        with_types,
        Seq::empty(),
        p,
        mi,
        node.rooted_export_values,
        Namespace::Value,
    );
    (
        with_values,
        TypedNodeView {
            path: node.path,
            rooted_export_types: types,
            rooted_export_values: values,
        },
    )
}

/// The arena and the typed nodes after the first `n` modules.
pub open spec fn typed_nodes(arena: Seq<DescrView>, p: Program, n: int) -> (
    Seq<DescrView>,
    Seq<TypedNodeView>,
)
    decreases n,
{
    if n <= 0 {
        (arena, Seq::empty())
    } else {
        let (before, nodes) = typed_nodes(arena, p, n - 1);
        let (after, node) = typed_node(before, p, n - 1);
        (after, nodes.push(node))
    }
}

/// The typed graph of a program: its modules with the descriptors of
/// their rooted exports, its edges as they are, and the arena.
pub open spec fn typed_of(p: Program) -> TypedView {
    let filled = filled_modules(planned_arena(p.modules), p, p.modules.len() as int);
    let (arena, nodes) = typed_nodes(filled, p, p.modules.len() as int);
    TypedView { nodes, export_edges: p.graph.export_edges, arena }
}

/// Adding a descriptor at the end of an arena adds its view at the end.
pub proof fn lemma_view_push(arena: Seq<TypeDescr>, d: TypeDescr)
    ensures
        arena_view(arena.push(d)) == arena_view(arena).push(d@),
{
    assert(arena_view(arena.push(d)) =~= arena_view(arena).push(d@));
}

/// Replacing a descriptor of an arena replaces its view.
pub proof fn lemma_view_update(arena: Seq<TypeDescr>, i: int, d: TypeDescr)
    requires
        0 <= i < arena.len(),
    ensures
        arena_view(arena.update(i, d)) == arena_view(arena).update(i, d@),
{
    assert(arena_view(arena.update(i, d)) =~= arena_view(arena).update(i, d@));
}

/// The state of typification: the program, the positions kept for its
/// declarations, and the arena so far.
struct Typifier<'a> {
    modules: &'a Vec<ModuleData>,
    graph: &'a ModuleGraph,
    layout: Vec<Vec<usize>>,
    arena: Vec<TypeDescr>,
}

impl<'a> Typifier<'a> {
    /// The program that is typified.
    spec fn program(&self) -> Program {
        program(self.modules, self.graph)
    }

    /// The arena so far, as contracts see it.
    spec fn descrs(&self) -> Seq<DescrView> {
        arena_view(self.arena@)
    }

    /// The program is well formed, the positions kept are those of its
    /// declarations, and the arena holds them all.
    spec fn wf(&self) -> bool {
        &&& self.program().wf()
        &&& layout_ok(self.layout@, self.modules@)
        &&& planned(self.modules@) <= self.arena@.len()
    }

    /// The same program and the same positions as `other`.
    spec fn same_plan(&self, other: &Self) -> bool {
        &&& self.modules == other.modules
        &&& self.graph == other.graph
        &&& self.layout == other.layout
    }

    /// Adds a descriptor at the end of the arena.
    fn push(&mut self, d: TypeDescr) -> (h: Handle)
        requires
            old(self).wf(),
        ensures
            final(self).wf(),
            final(self).same_plan(old(self)),
            final(self).descrs() == old(self).descrs().push(d@),
            h == old(self).descrs().len(),
    {
        let h = self.arena.len();
        proof {
            lemma_view_push(self.arena@, d);
        }
        self.arena.push(d);
        h
    }

    /// The position of the descriptor of what `r` denotes.
    fn array_or_base(&mut self, r: Resolved) -> (h: Handle)
        requires
            old(self).wf(),
        ensures
            final(self).wf(),
            final(self).same_plan(old(self)),
            (final(self).descrs(), h) == ann_entry(old(self).descrs(), r),
    {
        if r.rank == 0 {
            r.base
        } else {
            self.push(TypeDescr::Array { elem: r.base, rank: r.rank })
        }
    }

    /// The position of the descriptor of the annotation `ann`, written in
    /// module `mi`; of `default` where `ann` is missing.
    fn annotation(&mut self, mi: usize, ann: &Option<TypeAnn>, default: PrimitiveKind) -> (h:
        Handle)
        requires
            old(self).wf(),
            mi < old(self).modules@.len(),
        ensures
            final(self).wf(),
            final(self).same_plan(old(self)),
            (final(self).descrs(), h) == ann_entry(
                old(self).descrs(),
                opt_ann(old(self).program(), mi as int, *ann, default),
            ),
    {
        let r = match ann {
            Some(a) => {
                let mut visited: Vec<Place> = Vec::new();
                resolve_annotation(self.modules, self.graph, &self.layout, mi, a, &mut visited)
            },
            None => Resolved { base: primitive_handle(default), rank: 0 },
        };
        self.array_or_base(r)
    }

    /// The positions of the descriptors of the parameter types `params`,
    /// written in module `mi`.
    fn params(&mut self, mi: usize, params: &Vec<Option<TypeAnn>>) -> (handles: Vec<Handle>)
        requires
            old(self).wf(),
            mi < old(self).modules@.len(),
        ensures
            final(self).wf(),
            final(self).same_plan(old(self)),
            (final(self).descrs(), handles@) == params_onto(
                old(self).descrs(),
                Seq::empty(),
                old(self).program(),
                mi as int,
                params@,
            ),
    {
        let mut handles: Vec<Handle> = Vec::new();
        assert(params@.skip(0) =~= params@);
        let mut i: usize = 0;
        while i < params.len()
            invariant
                self.wf(),
                self.same_plan(old(self)),
                mi < self.modules@.len(),
                i <= params@.len(),
                params_onto(
                    old(self).descrs(),
                    Seq::empty(),
                    old(self).program(),
                    mi as int,
                    params@,
                ) == params_onto(
                    self.descrs(),
                    handles@,
                    old(self).program(),
                    mi as int,
                    params@.skip(i as int),
                ),
            decreases params@.len() - i,
        {
            assert(params@.skip(i as int).skip(1) =~= params@.skip(i as int + 1));
            let h = self.annotation(mi, &params[i], PrimitiveKind::Any);
            handles.push(h);
            i += 1;
        }
        handles
    }

    /// The position of the descriptor of a function or method of module
    /// `mi`.
    fn signature(&mut self, mi: usize, params: &Vec<Option<TypeAnn>>, ret: &Option<TypeAnn>) -> (h:
        Handle)
        requires
            old(self).wf(),
            mi < old(self).modules@.len(),
        ensures
            final(self).wf(),
            final(self).same_plan(old(self)),
            (final(self).descrs(), h) == signature_entry(
                old(self).descrs(),
                old(self).program(),
                mi as int,
                params@,
                *ret,
            ),
    {
        let handles = self.params(mi, params);
        let r = self.annotation(mi, ret, PrimitiveKind::Void);
        self.push(
            TypeDescr::Fn { origin: self.modules[mi].path.clone(), params: handles, ret: Some(r) },
        )
    }

    /// The position of the descriptor of the type of a member.
    fn field(&mut self, f: &FieldSource) -> (h: Handle)
        requires
            old(self).wf(),
            f.module < old(self).modules@.len(),
            f.item < old(self).modules@[f.module as int].module_ast@.len(),
            match decl_of(old(self).modules@[f.module as int].module_ast@[f.item as int]) {
                Some(decl) => f.member < member_count(decl),
                None => false,
            },
        ensures
            final(self).wf(),
            final(self).same_plan(old(self)),
            (final(self).descrs(), h) == field_entry(old(self).descrs(), old(self).program(), *f),
    {
        let any = primitive_handle(PrimitiveKind::Any);
        let modules = self.modules;
        match item_decl(&modules[f.module].module_ast[f.item]) {
            Some(Decl::Class(c)) => match &c.members[f.member] {
                ClassMember::Property { ann, .. } => self.annotation(
                    f.module,
                    ann,
                    PrimitiveKind::Any,
                ),
                ClassMember::Method { sig, .. } => self.signature(f.module, &sig.params, &sig.ret),
                _ => any,
            },
            Some(Decl::TsInterface(i)) => match &i.members[f.member] {
                InterfaceMember::Property { ann, .. } => self.annotation(
                    f.module,
                    ann,
                    PrimitiveKind::Any,
                ),
                InterfaceMember::Method { sig, .. } => self.signature(
                    f.module,
                    &sig.params,
                    &sig.ret,
                ),
                _ => any,
            },
            _ => any,
        }
    }

    /// The members `fields` with the positions of the descriptors of their
    /// types.
    fn fields(&mut self, fields: &Vec<FieldSource>) -> (out: Vec<Field>)
        requires
            old(self).wf(),
            fields_in_program(old(self).modules@, fields@),
        ensures
            final(self).wf(),
            final(self).same_plan(old(self)),
            (final(self).descrs(), out@) == fields_onto_arena(
                old(self).descrs(),
                Seq::empty(),
                old(self).program(),
                fields@,
            ),
    {
        let mut out: Vec<Field> = Vec::new();
        assert(fields@.skip(0) =~= fields@);
        let mut i: usize = 0;
        while i < fields.len()
            invariant
                self.wf(),
                self.same_plan(old(self)),
                fields_in_program(self.modules@, fields@),
                i <= fields@.len(),
                fields_onto_arena(
                    old(self).descrs(),
                    Seq::empty(),
                    old(self).program(),
                    fields@,
                ) == fields_onto_arena(
                    self.descrs(),
                    out@,
                    old(self).program(),
                    fields@.skip(i as int),
                ),
            decreases fields@.len() - i,
        {
            assert(fields@.skip(i as int).skip(1) =~= fields@.skip(i as int + 1));
            let f = &fields[i];
            let h = self.field(f);
            out.push(Field { name: f.name.clone(), ty: h });
            i += 1;
        }
        out
    }

    /// Puts `d` at the position `slot`, which was kept for it.
    fn put(&mut self, slot: usize, d: TypeDescr)
        requires
            old(self).wf(),
            slot < planned(old(self).modules@),
        ensures
            final(self).wf(),
            final(self).same_plan(old(self)),
            final(self).descrs() == old(self).descrs().update(slot as int, d@),
    {
        proof {
            lemma_view_update(self.arena@, slot as int, d);
        }
        self.arena.set(slot, d);
    }

    /// Fills the positions kept for item `ji` of module `mi`.
    fn fill_item(&mut self, mi: usize, ji: usize)
        requires
            old(self).wf(),
            mi < old(self).modules@.len(),
            ji < old(self).modules@[mi as int].module_ast@.len(),
        ensures
            final(self).wf(),
            final(self).same_plan(old(self)),
            final(self).descrs() == fill_item(
                old(self).descrs(),
                old(self).program(),
                mi as int,
                ji as int,
            ),
    {
        let modules = self.modules;
        let slot = self.layout[mi][ji];
        assert(slot == slot_of(modules@, mi as int, ji as int));
        assert(slot + item_slots(modules@[mi as int].module_ast@[ji as int]) <= planned(modules@));
        match item_decl(&modules[mi].module_ast[ji]) {
            Some(Decl::Class(c)) => {
                let mut visited: Vec<Place> = Vec::new();
                let members = flatten_fields(modules, self.graph, mi, ji, &mut visited);
                let fields = self.fields(&members);
                let none: Vec<Option<TypeAnn>> = Vec::new();
                let ctor = match find_ctor(&c.members) {
                    Some(params) => params,
                    None => &none,
                };
                let params = self.params(mi, ctor);
                self.put(
                    slot,
                    TypeDescr::Class {
                        name: c.name.clone(),
                        origin: modules[mi].path.clone(),
                        constructor: slot + 1,
                        fields,
                    },
                );
                self.put(
                    slot + 1,
                    TypeDescr::Fn { origin: modules[mi].path.clone(), params, ret: Some(slot) },
                );
            },
            Some(Decl::TsInterface(_)) => {
                let mut visited: Vec<Place> = Vec::new();
                let members = flatten_fields(modules, self.graph, mi, ji, &mut visited);
                let fields = self.fields(&members);
                self.put(
                    slot,
                    TypeDescr::Interface { origin: modules[mi].path.clone(), fields },
                );
            },
            _ => {},
        }
    }

    /// The position of the descriptor of what module `mi` declares and
    /// exports as `key` in `ns`.
    fn export(&mut self, mi: usize, key: &String, ns: Namespace) -> (h: Handle)
        requires
            old(self).wf(),
            mi < old(self).modules@.len(),
        ensures
            final(self).wf(),
            final(self).same_plan(old(self)),
            (final(self).descrs(), h) == export_entry(
                old(self).descrs(),
                old(self).program(),
                mi as int,
                *key,
                ns,
            ),
    {
        let any = primitive_handle(PrimitiveKind::Any);
        let modules = self.modules;
        let d = match find_rooted_decl(&modules[mi].module_ast, key, ns) {
            Some(d) => d,
            None => {
                return any;
            },
        };
        let decl = item_decl(&modules[mi].module_ast[d.item]);
        let slot = self.layout[mi][d.item];
        assert(slot == slot_of(modules@, mi as int, d.item as int));
        assert(slot + item_slots(modules@[mi as int].module_ast@[d.item as int]) <= planned(
            modules@,
        ));
        match ns {
            Namespace::Type => match decl {
                Some(Decl::Class(_)) => slot,
                Some(Decl::TsInterface(_)) => slot,
                Some(Decl::TsEnum(e)) => primitive_handle(enum_primitive(&e.members)),
                Some(Decl::TsTypeAlias(a)) => {
                    let mut visited: Vec<Place> = Vec::new();
                    visited.push(Place { module: mi, item: d.item });
                    assert(visited@ =~= seq![Place { module: mi, item: d.item }]);
                    let r = resolve_annotation(
                        modules,
                        self.graph,
                        &self.layout,
                        mi,
                        &a.ann,
                        &mut visited,
                    );
                    self.array_or_base(r)
                },
                _ => any,
            },
            Namespace::Value => match decl {
                Some(Decl::Class(_)) => slot + 1,
                Some(Decl::Fn(f)) => self.signature(mi, &f.sig.params, &f.sig.ret),
                Some(Decl::Var(v)) => {
                    if d.pat < v.decls.len() {
                        match &v.decls[d.pat] {
                            Pat::Ident { ann, .. } => self.annotation(mi, ann, PrimitiveKind::Any),
                            Pat::Other => any,
                        }
                    } else {
                        any
                    }
                },
                _ => any,
            },
        }
    }

    /// The keys `keys` with the positions of the descriptors of what
    /// module `mi` declares and exports under them in `ns`.
    fn exports(&mut self, mi: usize, keys: &Vec<String>, ns: Namespace) -> (out: Vec<Field>)
        requires
            old(self).wf(),
            mi < old(self).modules@.len(),
        ensures
            final(self).wf(),
            final(self).same_plan(old(self)),
            (final(self).descrs(), out@) == exports_onto(
                old(self).descrs(),
                Seq::empty(),
                old(self).program(),
                mi as int,
                keys@,
                ns,
            ),
    {
        let mut out: Vec<Field> = Vec::new();
        assert(keys@.skip(0) =~= keys@);
        let mut i: usize = 0;
        while i < keys.len()
            invariant
                self.wf(),
                self.same_plan(old(self)),
                mi < self.modules@.len(),
                i <= keys@.len(),
                exports_onto(
                    old(self).descrs(),
                    Seq::empty(),
                    old(self).program(),
                    mi as int,
                    keys@,
                    ns,
                ) == exports_onto(
                    self.descrs(),
                    out@,
                    old(self).program(),
                    mi as int,
                    keys@.skip(i as int),
                    ns,
                ),
            decreases keys@.len() - i,
        {
            assert(keys@.skip(i as int).skip(1) =~= keys@.skip(i as int + 1));
            let h = self.export(mi, &keys[i], ns);
            out.push(Field { name: keys[i].clone(), ty: h });
            i += 1;
        }
        out
    }
}

/// The parameters of the first constructor among the members.
fn find_ctor(members: &Vec<ClassMember>) -> (r: Option<&Vec<Option<TypeAnn>>>)
    ensures
        match r {
            Some(params) => params@ == ctor_params(members@, 0),
            None => ctor_params(members@, 0) == Seq::<Option<TypeAnn>>::empty(),
        },
{
    let mut i: usize = 0;
    while i < members.len()
        invariant
            i <= members@.len(),
            ctor_params(members@, 0) == ctor_params(members@, i as int),
        decreases members@.len() - i,
    {
        match &members[i] {
            ClassMember::Constructor { params } => {
                return Some(params);
            },
            _ => {},
        }
        i += 1;
    }
    None
}

/// The positions kept for the first `n` items grow with `n`.
pub proof fn lemma_slots_grow(items: Seq<ModuleItem>, n: int, later: int)
    requires
        n <= later,
    ensures
        slots_upto(items, n) <= slots_upto(items, later),
    decreases later - n,
{
    if n < later {
        lemma_slots_grow(items, n, later - 1);
    }
}

/// The first position kept for a module grows with the module.
pub proof fn lemma_bases_grow(modules: Seq<ModuleData>, mi: int, later: int)
    requires
        mi <= later,
    ensures
        module_base(modules, mi) <= module_base(modules, later),
    decreases later - mi,
{
    if mi < later {
        lemma_bases_grow(modules, mi, later - 1);
    }
}

/// The positions kept for an item lie among the positions kept in all.
pub proof fn lemma_slot_bound(modules: Seq<ModuleData>, mi: int, ji: int)
    requires
        0 <= mi < modules.len(),
        0 <= ji < modules[mi].module_ast@.len(),
    ensures
        slot_of(modules, mi, ji) + item_slots(modules[mi].module_ast@[ji]) <= planned(modules),
{
    let items = modules[mi].module_ast@;
    lemma_slots_grow(items, ji + 1, items.len() as int);
    lemma_bases_grow(modules, mi + 1, modules.len() as int);
}

/// A descriptor that stands in for one that is filled in later.
fn stand_in() -> (d: TypeDescr)
    ensures
        d@ == DescrView::Primitive(PrimitiveKind::Any),
{
    TypeDescr::Primitive(PrimitiveKind::Any)
}

/// Keeps the positions: for each item of each module the first position
/// kept for it, and the arena with the built-in types and a stand-in at
/// each position kept.
fn plan(modules: &Vec<ModuleData>) -> (r: (Vec<Vec<usize>>, Vec<TypeDescr>))
    ensures
        layout_ok(r.0@, modules@),
        arena_view(r.1@) == planned_arena(modules@),
{
    let mut arena: Vec<TypeDescr> = Vec::new();
    arena.push(TypeDescr::Primitive(PrimitiveKind::Boolean));
    arena.push(TypeDescr::Primitive(PrimitiveKind::Number));
    arena.push(TypeDescr::Primitive(PrimitiveKind::String));
    arena.push(TypeDescr::Primitive(PrimitiveKind::Void));
    arena.push(TypeDescr::Primitive(PrimitiveKind::Object));
    arena.push(TypeDescr::Primitive(PrimitiveKind::Any));
    arena.push(TypeDescr::Primitive(PrimitiveKind::Never));
    let mut layout: Vec<Vec<usize>> = Vec::new();
    let mut mi: usize = 0;
    while mi < modules.len()
        invariant
            mi <= modules@.len(),
            layout@.len() == mi,
            arena@.len() == module_base(modules@, mi as int),
            forall|i: int|
                0 <= i < arena@.len() ==> (#[trigger] arena@[i])@ == if i < 7 {
                    primitives()[i]
                } else {
                    DescrView::Primitive(PrimitiveKind::Any)
                },
            forall|m: int|
                0 <= m < mi ==> (#[trigger] layout@[m])@.len() == modules@[m].module_ast@.len(),
            forall|m: int, j: int|
                0 <= m < mi && 0 <= j < modules@[m].module_ast@.len() ==> (
                #[trigger] layout@[m]@[j]) == slot_of(modules@, m, j),
        decreases modules@.len() - mi,
    {
        let items = &modules[mi].module_ast;
        let mut row: Vec<usize> = Vec::new();
        let mut ji: usize = 0;
        while ji < items.len()
            invariant
                mi < modules@.len(),
                items@ == modules@[mi as int].module_ast@,
                ji <= items@.len(),
                row@.len() == ji,
                arena@.len() == slot_of(modules@, mi as int, ji as int),
                forall|i: int|
                    0 <= i < arena@.len() ==> (#[trigger] arena@[i])@ == if i < 7 {
                        primitives()[i]
                    } else {
                        DescrView::Primitive(PrimitiveKind::Any)
                    },
                forall|j: int| 0 <= j < ji ==> (#[trigger] row@[j]) == slot_of(modules@, mi as int, j),
            decreases items@.len() - ji,
        {
            proof {
                lemma_base_grows(modules@, mi as int);
            }
            row.push(arena.len());
            match item_decl(&items[ji]) {
                Some(Decl::Class(_)) => {
                    arena.push(stand_in());
                    arena.push(stand_in());
                },
                Some(Decl::TsInterface(_)) => {
                    arena.push(stand_in());
                },
                _ => {},
            }
            ji += 1;
        }
        layout.push(row);
        mi += 1;
    }
    let total = arena.len();
    proof {
        assert(total == planned(modules@));
        assert(arena_view(arena@) =~= planned_arena(modules@));
        assert forall|m: int, j: int|
            0 <= m < modules@.len() && 0 <= j < modules@[m].module_ast@.len() implies {
            &&& (#[trigger] layout@[m]@[j]) == slot_of(modules@, m, j)
            &&& slot_of(modules@, m, j) + item_slots(modules@[m].module_ast@[j]) <= planned(
                modules@,
            )
        } by {
            lemma_slot_bound(modules@, m, j);
        }
    }
    (layout, arena)
}

/// The nodes of a typed graph, as contracts see them.
pub open spec fn nodes_view(nodes: Seq<TypedModuleNode>) -> Seq<TypedNodeView> {
    Seq::new(nodes.len(), |i: int| nodes[i]@)
}

/// Typifies a program: the typed graph holds, for every module and in the
/// order of its rooted export keys, the descriptor of each type and each
/// value that the module declares and exports; the export edges of the
/// reduced graph as they are; and the arena of all descriptors.
pub fn typify(cache: &ParsedModuleCache, graph: ModuleGraph) -> (typed: TypedModuleGraph)
    requires
        graph@.wf(),
        graph@.nodes.len() == cache.modules@.len(),
    ensures
        typed@ == typed_of(Program { modules: cache.modules@, graph: graph@ }),
        countable(Program { modules: cache.modules@, graph: graph@ }),
        sized(Program { modules: cache.modules@, graph: graph@ }),
        typed@.wf(),
{
    let modules = &cache.modules;
    let ghost p = Program { modules: cache.modules@, graph: graph@ };
    let (layout, arena) = plan(modules);
    assert(arena_view(arena@).len() == planned(modules@));
    let mut t = Typifier { modules, graph: &graph, layout, arena };
    assert(t.program() == p);
    let mut mi: usize = 0;
    while mi < modules.len()
        invariant
            t.wf(),
            t.modules == modules,
            t.graph == &graph,
            t.program() == p,
            mi <= modules@.len(),
            t.descrs() == filled_modules(planned_arena(modules@), p, mi as int),
        decreases modules@.len() - mi,
    {
        let ghost start = t.descrs();
        let count = modules[mi].module_ast.len();
        let mut ji: usize = 0;
        while ji < count
            invariant
                t.wf(),
                t.modules == modules,
                t.graph == &graph,
                t.program() == p,
                mi < modules@.len(),
                count == modules@[mi as int].module_ast@.len(),
                ji <= count,
                t.descrs() == filled_items(start, p, mi as int, ji as int),
            decreases count - ji,
        {
            t.fill_item(mi, ji);
            ji += 1;
        }
        mi += 1;
    }
    let ghost filled = t.descrs();
    let mut nodes: Vec<TypedModuleNode> = Vec::new();
    let mut mi: usize = 0;
    while mi < modules.len()
        invariant
            t.wf(),
            t.modules == modules,
            t.graph == &graph,
            t.program() == p,
            mi <= modules@.len(),
            (t.descrs(), nodes_view(nodes@)) == typed_nodes(filled, p, mi as int),
        decreases modules@.len() - mi,
    {
        let ghost before = nodes_view(nodes@);
        let node = &graph.nodes[mi];
        assert(node@ == p.graph.nodes[mi as int]);
        let types = t.exports(mi, &node.rooted_export_types, Namespace::Type);
        let values = t.exports(mi, &node.rooted_export_values, Namespace::Value);
        let typed_node = TypedModuleNode {
            path: node.path.clone(),
            rooted_export_types: types,
            rooted_export_values: values,
        };
        nodes.push(typed_node);
        assert(nodes_view(nodes@) =~= before.push(typed_node@));
        mi += 1;
    }
    proof {
        assert forall|m: int| 0 <= m < p.modules.len() implies (#[trigger] p.items(m)).len()
            <= usize::MAX by {
            assert(layout_ok(t.layout@, modules@));
            assert(t.layout@[m]@.len() == modules@[m].module_ast@.len());
            vstd::std_specs::vec::axiom_spec_len(&t.layout@[m]);
        }
    }
    let count = modules.len();
    proof {
        assert(layout_ok(t.layout@, modules@));
        assert(sized(p));
    }
    let arena = t.arena;
    let typed = TypedModuleGraph { nodes, export_edges: graph.export_edges, arena };
    let total = typed.arena.len();
    proof {
        assert(typed@.nodes =~= nodes_view(nodes@));
        assert(typed@.export_edges =~= p.graph.export_edges);
        assert(typed@.arena.len() == total);
        lemma_typed_wf(p);
    }
    typed
}

} // verus!
