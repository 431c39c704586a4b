//! The arena of a typed graph is closed: whatever a descriptor names, and
//! whatever a module exports, is a descriptor of the arena.

use vstd::prelude::*;

use crate::ast::{ClassMember, Decl, InterfaceMember, Pat, PrimitiveKind, TypeAnn, TypeBase};
use crate::graph_reduce::Namespace;
use crate::type_construction::{entered, first_edge, flat_fields, in_program, lemma_base_grows, own_export, planned, resolve_ann, slot_of, type_ref, FieldSource, Place, Program, Resolved};
use crate::type_facts::{lemma_export_grows, lemma_exports_grows, lemma_field_grows, lemma_fields_grows, lemma_params_grows, lemma_typed_node_grows, lemma_typed_nodes_grows};
use crate::type_scope::{decl_of, lemma_local_decl_in_range, lemma_rooted_decl_in_range, rooted_decl, type_binding, TypeBinding};
use crate::type_structs::{children, closed_arena, fields_in_arena, DescrView, Field, Handle, TypedNodeView};
use crate::typify_graph::{
    ann_entry, ctor_params, export_entry, exports_onto, field_entry, fields_onto_arena,
    fill_item, filled_items, filled_modules, lemma_slot_bound, opt_ann, params_onto,
    planned_arena, signature_entry, typed_node, typed_nodes, typed_of,
};

verus! {

/// Whether a program can be counted in a machine word: its modules, the
/// items of each module, and the positions kept for its declarations.
pub open spec fn sized(p: Program) -> bool {
    &&& p.wf()
    &&& p.modules.len() <= usize::MAX
    &&& planned(p.modules) <= usize::MAX
    &&& forall|m: int| 0 <= m < p.modules.len() ==> (#[trigger] p.items(m)).len() <= usize::MAX
}

/// Whether each of `hs` is in the arena.
pub open spec fn handles_in(arena: Seq<DescrView>, hs: Seq<Handle>) -> bool {
    forall|i: int| 0 <= i < hs.len() ==> #[trigger] hs[i] < arena.len()
}

/// What a module declares and exports is an item of the module.
pub proof fn lemma_own_export_in_program(p: Program, si: int, key: Seq<char>, ns: Namespace)
    requires
        sized(p),
        0 <= si < p.modules.len(),
    ensures
        in_program(p.modules, own_export(p, si, key, ns)),
{
    assert(p.items(si).len() <= usize::MAX);
    lemma_rooted_decl_in_range(p.items(si), key, ns, 0);
}

/// What a type name stands for is an item of a module of the program.
pub proof fn lemma_type_ref_in_program(p: Program, mi: int, name: Seq<char>)
    requires
        sized(p),
        0 <= mi < p.modules.len(),
    ensures
        in_program(p.modules, type_ref(p, mi, name)),
{
    assert(p.items(mi).len() <= usize::MAX);
    lemma_local_decl_in_range(p.items(mi), name, Namespace::Type, 0);
    match type_binding(p.items(mi), p.modules[mi].dependencies@, name) {
        Some(TypeBinding::Imported { source, src_key }) => {
            match p.graph.module_at(source@) {
                Some(si) => {
                    assert(p.graph.is_first(source@, si));
                    lemma_own_export_in_program(p, si, src_key@, Namespace::Type);
                    match first_edge(p.graph.export_edges[si], src_key@, Namespace::Type, 0) {
                        Some(e) => {
                            match p.graph.module_at(e.source()@) {
                                Some(ti) => {
                                    assert(p.graph.is_first(e.source()@, ti));
                                    lemma_own_export_in_program(
                                        p,
                                        ti,
                                        e.src_key()@,
                                        Namespace::Type,
                                    );
                                },
                                None => {},
                            }
                        },
                        None => {},
                    }
                },
                None => {},
            }
        },
        _ => {},
    }
}

/// What an annotation denotes has its base among the positions kept.
pub proof fn lemma_resolve_base(p: Program, mi: int, ann: TypeAnn, visited: Seq<Place>)
    requires
        sized(p),
        0 <= mi < p.modules.len(),
    ensures
        resolve_ann(p, mi, ann, visited).base < planned(p.modules),
    decreases usize::MAX - visited.len(),
{
    lemma_base_grows(p.modules, p.modules.len() as int);
    match ann.base {
        TypeBase::Ref(name) => {
            lemma_type_ref_in_program(p, mi, name@);
            match type_ref(p, mi, name@) {
                Some((m2, d)) => {
                    lemma_slot_bound(p.modules, m2 as int, d.item as int);
                    match p.decl(m2 as int, d.item as int) {
                        Some(Decl::TsTypeAlias(a)) => {
                            if !(visited.len() >= usize::MAX || entered(
                                visited,
                                m2 as int,
                                d.item as int,
                            )) {
                                lemma_resolve_base(
                                    p,
                                    m2 as int,
                                    a.ann,
                                    visited.push(Place { module: m2, item: d.item }),
                                );
                            }
                        },
                        _ => {},
                    }
                },
                None => {},
            }
        },
        _ => {},
    }
}

/// What an annotation that may be missing denotes has its base among the
/// positions kept.
pub proof fn lemma_opt_base(p: Program, mi: int, ann: Option<TypeAnn>, default: PrimitiveKind)
    requires
        sized(p),
        0 <= mi < p.modules.len(),
    ensures
        opt_ann(p, mi, ann, default).base < planned(p.modules),
{
    lemma_base_grows(p.modules, p.modules.len() as int);
    match ann {
        Some(a) => {
            lemma_resolve_base(p, mi, a, Seq::empty());
        },
        None => {},
    }
}

/// A closed arena stays closed when a descriptor is added that names
/// descriptors of the arena only.
pub proof fn lemma_push_closed(arena: Seq<DescrView>, d: DescrView)
    requires
        closed_arena(arena),
        handles_in(arena.push(d), children(d)),
    ensures
        closed_arena(arena.push(d)),
{
    let out = arena.push(d);
    assert forall|i: int, j: int|
        0 <= i < out.len() && 0 <= j < children(out[i]).len() implies #[trigger] children(
        out[i],
    )[j] < out.len() by {
        if i < arena.len() {
            assert(out[i] == arena[i]);
            assert(children(arena[i])[j] < arena.len());
        }
    }
}

/// A closed arena stays closed when a descriptor is replaced by one that
/// names descriptors of the arena only.
pub proof fn lemma_update_closed(arena: Seq<DescrView>, at: int, d: DescrView)
    requires
        closed_arena(arena),
        0 <= at < arena.len(),
        handles_in(arena, children(d)),
    ensures
        closed_arena(arena.update(at, d)),
{
    let out = arena.update(at, d);
    assert forall|i: int, j: int|
        0 <= i < out.len() && 0 <= j < children(out[i]).len() implies #[trigger] children(
        out[i],
    )[j] < out.len() by {
        if i != at {
            assert(out[i] == arena[i]);
            assert(children(arena[i])[j] < arena.len());
        }
    }
}

/// The descriptor of an annotation is in the arena, which stays closed.
pub proof fn lemma_ann_closed(arena: Seq<DescrView>, r: Resolved, n0: nat)
    requires
        closed_arena(arena),
        r.base < n0 <= arena.len(),
        ann_entry(arena, r).0.len() <= usize::MAX,
    ensures
        closed_arena(ann_entry(arena, r).0),
        ann_entry(arena, r).1 < ann_entry(arena, r).0.len(),
{
    if r.rank != 0 {
        let d = DescrView::Array { elem: r.base, rank: r.rank };
        assert(children(d)[0] == r.base);
        lemma_push_closed(arena, d);
    }
}

/// The descriptors of parameters are in the arena, which stays closed.
pub proof fn lemma_params_closed(
    arena: Seq<DescrView>,
    handles: Seq<Handle>,
    p: Program,
    mi: int,
    params: Seq<Option<TypeAnn>>,
)
    requires
        sized(p),
        0 <= mi < p.modules.len(),
        closed_arena(arena),
        planned(p.modules) <= arena.len(),
        handles_in(arena, handles),
        params_onto(arena, handles, p, mi, params).0.len() <= usize::MAX,
    ensures
        closed_arena(params_onto(arena, handles, p, mi, params).0),
        handles_in(
            params_onto(arena, handles, p, mi, params).0,
            params_onto(arena, handles, p, mi, params).1,
        ),
    decreases params.len(),
{
    if params.len() > 0 {
        let r0 = opt_ann(p, mi, params[0], PrimitiveKind::Any);
        let (next, h) = ann_entry(arena, r0);
        lemma_params_grows(next, handles.push(h), p, mi, params.skip(1));
        lemma_opt_base(p, mi, params[0], PrimitiveKind::Any);
        lemma_ann_closed(arena, r0, planned(p.modules));
        assert(handles_in(next, handles.push(h))) by {
            assert forall|i: int| 0 <= i < handles.push(h).len() implies #[trigger] handles.push(
                h,
            )[i] < next.len() by {
                if i < handles.len() {
                    assert(handles.push(h)[i] == handles[i]);
                }
            }
        }
        lemma_params_closed(next, handles.push(h), p, mi, params.skip(1));
    }
}

/// The descriptor of a function is in the arena, which stays closed.
pub proof fn lemma_signature_closed(
    arena: Seq<DescrView>,
    p: Program,
    mi: int,
    params: Seq<Option<TypeAnn>>,
    ret: Option<TypeAnn>,
)
    requires
        sized(p),
        0 <= mi < p.modules.len(),
        closed_arena(arena),
        planned(p.modules) <= arena.len(),
        signature_entry(arena, p, mi, params, ret).0.len() <= usize::MAX,
    ensures
        closed_arena(signature_entry(arena, p, mi, params, ret).0),
        signature_entry(arena, p, mi, params, ret).1 < signature_entry(
            arena,
            p,
            mi,
            params,
            ret,
        ).0.len(),
{
    let none = Seq::<Handle>::empty();
    let (with_params, handles) = params_onto(arena, none, p, mi, params);
    let rr = opt_ann(p, mi, ret, PrimitiveKind::Void);
    let (with_ret, r) = ann_entry(with_params, rr);
    lemma_params_grows(arena, none, p, mi, params);
    lemma_params_closed(arena, none, p, mi, params);
    lemma_opt_base(p, mi, ret, PrimitiveKind::Void);
    lemma_ann_closed(with_params, rr, planned(p.modules));
    let d = DescrView::Fn { origin: p.modules[mi].path, params: handles, ret: Some(r) };
    assert(handles_in(with_ret.push(d), children(d))) by {
        assert forall|i: int| 0 <= i < children(d).len() implies #[trigger] children(d)[i]
            < with_ret.push(d).len() by {
            if i < handles.len() {
                assert(children(d)[i] == handles[i]);
            }
        }
    }
    lemma_push_closed(with_ret, d);
}

/// The descriptor of the type of a member is in the arena, which stays
/// closed.
pub proof fn lemma_field_closed(arena: Seq<DescrView>, p: Program, f: FieldSource)
    requires
        sized(p),
        closed_arena(arena),
        planned(p.modules) <= arena.len(),
        field_entry(arena, p, f).0.len() <= usize::MAX,
    ensures
        closed_arena(field_entry(arena, p, f).0),
        field_entry(arena, p, f).1 < field_entry(arena, p, f).0.len(),
{
    let n0 = planned(p.modules);
    lemma_base_grows(p.modules, p.modules.len() as int);
    match p.decl(f.module as int, f.item as int) {
        Some(Decl::Class(c)) => match c.members@[f.member as int] {
            ClassMember::Property { ann, .. } => {
                lemma_opt_base(p, f.module as int, ann, PrimitiveKind::Any);
                lemma_ann_closed(
                    arena,
                    opt_ann(p, f.module as int, ann, PrimitiveKind::Any),
                    n0,
                );
            },
            ClassMember::Method { sig, .. } => {
                lemma_signature_closed(arena, p, f.module as int, sig.params@, sig.ret);
            },
            _ => {},
        },
        Some(Decl::TsInterface(i)) => match i.members@[f.member as int] {
            InterfaceMember::Property { ann, .. } => {
                lemma_opt_base(p, f.module as int, ann, PrimitiveKind::Any);
                lemma_ann_closed(
                    arena,
                    opt_ann(p, f.module as int, ann, PrimitiveKind::Any),
                    n0,
                );
            },
            InterfaceMember::Method { sig, .. } => {
                lemma_signature_closed(arena, p, f.module as int, sig.params@, sig.ret);
            },
            _ => {},
        },
        _ => {},
    }
}

/// The descriptors of the types of members are in the arena, which stays
/// closed.
pub proof fn lemma_fields_closed(
    arena: Seq<DescrView>,
    out: Seq<Field>,
    p: Program,
    fields: Seq<FieldSource>,
)
    requires
        sized(p),
        closed_arena(arena),
        planned(p.modules) <= arena.len(),
        fields_in_arena(arena, out),
        fields_onto_arena(arena, out, p, fields).0.len() <= usize::MAX,
    ensures
        closed_arena(fields_onto_arena(arena, out, p, fields).0),
        fields_in_arena(
            fields_onto_arena(arena, out, p, fields).0,
            fields_onto_arena(arena, out, p, fields).1,
        ),
    decreases fields.len(),
{
    if fields.len() > 0 {
        let (next, h) = field_entry(arena, p, fields[0]);
        let one = Field { name: fields[0].name, ty: h };
        lemma_field_grows(arena, p, fields[0]);
        lemma_fields_grows(next, out.push(one), p, fields.skip(1));
        lemma_field_closed(arena, p, fields[0]);
        assert(fields_in_arena(next, out.push(one))) by {
            assert forall|k: int| 0 <= k < out.push(one).len() implies (#[trigger] out.push(
                one,
            )[k]).ty < next.len() by {
                if k < out.len() {
                    assert(out.push(one)[k] == out[k]);
                }
            }
        }
        lemma_fields_closed(next, out.push(one), p, fields.skip(1));
    }
}

/// Filling the positions of an item keeps the arena closed.
pub proof fn lemma_fill_closed(arena: Seq<DescrView>, p: Program, mi: int, ji: int)
    requires
        sized(p),
        0 <= mi < p.modules.len(),
        0 <= ji < p.items(mi).len(),
        closed_arena(arena),
        planned(p.modules) <= arena.len(),
        fill_item(arena, p, mi, ji).len() <= usize::MAX,
    ensures
        closed_arena(fill_item(arena, p, mi, ji)),
        arena.len() <= fill_item(arena, p, mi, ji).len(),
{
    let slot = slot_of(p.modules, mi, ji) as int;
    let origin = p.modules[mi].path;
    let flat = flat_fields(p, mi, ji, Seq::empty());
    let none = Seq::<Field>::empty();
    lemma_slot_bound(p.modules, mi, ji);
    match decl_of(p.items(mi)[ji]) {
        Some(Decl::Class(c)) => {
            let (with_fields, fields) = fields_onto_arena(arena, none, p, flat);
            let ctor = ctor_params(c.members@, 0);
            let (with_params, params) = params_onto(with_fields, Seq::empty(), p, mi, ctor);
            lemma_fields_grows(arena, none, p, flat);
            lemma_params_grows(with_fields, Seq::empty(), p, mi, ctor);
            lemma_fields_closed(arena, none, p, flat);
            lemma_params_closed(with_fields, Seq::empty(), p, mi, ctor);
            let class = DescrView::Class {
                name: c.name,
                origin,
                constructor: (slot + 1) as usize,
                fields,
            };
            assert(handles_in(with_params, children(class))) by {
                assert forall|i: int| 0 <= i < children(class).len() implies #[trigger] children(
                    class,
                )[i] < with_params.len() by {
                    if i > 0 {
                        assert(children(class)[i] == fields[i - 1].ty);
                    }
                }
            }
            lemma_update_closed(with_params, slot, class);
            let with_class = with_params.update(slot, class);
            let function = DescrView::Fn { origin, params, ret: Some(slot as usize) };
            assert(handles_in(with_class, children(function))) by {
                assert forall|i: int|
                    0 <= i < children(function).len() implies #[trigger] children(function)[i]
                    < with_class.len() by {
                    if i < params.len() {
                        assert(children(function)[i] == params[i]);
                    }
                }
            }
            lemma_update_closed(with_class, slot + 1, function);
        },
        Some(Decl::TsInterface(_)) => {
            let (with_fields, fields) = fields_onto_arena(arena, none, p, flat);
            lemma_fields_grows(arena, none, p, flat);
            lemma_fields_closed(arena, none, p, flat);
            let interface = DescrView::Interface { origin, fields };
            assert(handles_in(with_fields, children(interface))) by {
                assert forall|i: int|
                    0 <= i < children(interface).len() implies #[trigger] children(interface)[i]
                    < with_fields.len() by {
                    assert(children(interface)[i] == fields[i].ty);
                }
            }
            lemma_update_closed(with_fields, slot, interface);
        },
        _ => {},
    }
}

/// Filling the positions of the first `n` items of a module keeps the
/// arena closed.
pub proof fn lemma_filled_items_closed(arena: Seq<DescrView>, p: Program, mi: int, n: int)
    requires
        sized(p),
        0 <= mi < p.modules.len(),
        0 <= n <= p.items(mi).len(),
        closed_arena(arena),
        planned(p.modules) <= arena.len(),
        filled_items(arena, p, mi, n).len() <= usize::MAX,
    ensures
        closed_arena(filled_items(arena, p, mi, n)),
        arena.len() <= filled_items(arena, p, mi, n).len(),
    decreases n,
{
    if n > 0 {
        let prev = filled_items(arena, p, mi, n - 1);
        lemma_fill_len(prev, arena, p, mi, n - 1);
        lemma_filled_items_closed(arena, p, mi, n - 1);
        lemma_fill_closed(prev, p, mi, n - 1);
    }
}

/// Filling the positions of an item leaves the arena at least as long.
pub proof fn lemma_fill_len(prev: Seq<DescrView>, arena: Seq<DescrView>, p: Program, mi: int, ji: int)
    requires
        sized(p),
        0 <= mi < p.modules.len(),
        0 <= ji < p.items(mi).len(),
        planned(p.modules) <= arena.len(),
        prev == filled_items(arena, p, mi, ji),
    ensures
        arena.len() <= prev.len() <= fill_item(prev, p, mi, ji).len(),
    decreases ji,
{
    if ji > 0 {
        lemma_fill_len(filled_items(arena, p, mi, ji - 1), arena, p, mi, ji - 1);
    }
    let slot = slot_of(p.modules, mi, ji) as int;
    let flat = flat_fields(p, mi, ji, Seq::empty());
    let none = Seq::<Field>::empty();
    lemma_slot_bound(p.modules, mi, ji);
    match decl_of(p.items(mi)[ji]) {
        Some(Decl::Class(c)) => {
            let (with_fields, fields) = fields_onto_arena(prev, none, p, flat);
            lemma_fields_grows(prev, none, p, flat);
            lemma_params_grows(with_fields, Seq::empty(), p, mi, ctor_params(c.members@, 0));
        },
        Some(Decl::TsInterface(_)) => {
            lemma_fields_grows(prev, none, p, flat);
        },
        _ => {},
    }
}

/// Filling the positions of the first `n` modules leaves the arena at
/// least as long.
pub proof fn lemma_filled_modules_len(arena: Seq<DescrView>, p: Program, n: int)
    requires
        sized(p),
        0 <= n <= p.modules.len(),
        planned(p.modules) <= arena.len(),
    ensures
        arena.len() <= filled_modules(arena, p, n).len(),
    decreases n,
{
    if n > 0 {
        let prev = filled_modules(arena, p, n - 1);
        lemma_filled_modules_len(arena, p, n - 1);
        let count = p.items(n - 1).len() as int;
        if count > 0 {
            lemma_fill_len(filled_items(prev, p, n - 1, count - 1), prev, p, n - 1, count - 1);
        }
    }
}

/// Filling the positions of the first `n` modules keeps the arena
/// closed.
pub proof fn lemma_filled_modules_closed(arena: Seq<DescrView>, p: Program, n: int)
    requires
        sized(p),
        0 <= n <= p.modules.len(),
        closed_arena(arena),
        planned(p.modules) <= arena.len(),
        filled_modules(arena, p, n).len() <= usize::MAX,
    ensures
        closed_arena(filled_modules(arena, p, n)),
    decreases n,
{
    if n > 0 {
        let prev = filled_modules(arena, p, n - 1);
        let count = p.items(n - 1).len() as int;
        lemma_filled_modules_len(arena, p, n - 1);
        if count > 0 {
            lemma_fill_len(filled_items(prev, p, n - 1, count - 1), prev, p, n - 1, count - 1);
        }
        lemma_filled_modules_closed(arena, p, n - 1);
        lemma_filled_items_closed(prev, p, n - 1, count);
    }
}

/// The descriptor of an export is in the arena, which stays closed.
pub proof fn lemma_export_closed(
    arena: Seq<DescrView>,
    p: Program,
    mi: int,
    key: String,
    ns: Namespace,
)
    requires
        sized(p),
        0 <= mi < p.modules.len(),
        closed_arena(arena),
        planned(p.modules) <= arena.len(),
        export_entry(arena, p, mi, key, ns).0.len() <= usize::MAX,
    ensures
        closed_arena(export_entry(arena, p, mi, key, ns).0),
        export_entry(arena, p, mi, key, ns).1 < export_entry(arena, p, mi, key, ns).0.len(),
{
    let n0 = planned(p.modules);
    lemma_base_grows(p.modules, p.modules.len() as int);
    lemma_export_grows(arena, p, mi, key, ns);
    assert(p.items(mi).len() <= usize::MAX);
    lemma_rooted_decl_in_range(p.items(mi), key@, ns, 0);
    match rooted_decl(p.items(mi), key@, ns, 0) {
        Some(d) => {
            lemma_slot_bound(p.modules, mi, d.item as int);
            match (ns, decl_of(p.items(mi)[d.item as int])) {
                (Namespace::Type, Some(Decl::TsTypeAlias(al))) => {
                    let visited = seq![Place { module: mi as usize, item: d.item }];
                    lemma_resolve_base(p, mi, al.ann, visited);
                    lemma_ann_closed(arena, resolve_ann(p, mi, al.ann, visited), n0);
                },
                (Namespace::Value, Some(Decl::Fn(f))) => {
                    lemma_signature_closed(arena, p, mi, f.sig.params@, f.sig.ret);
                },
                (Namespace::Value, Some(Decl::Var(v))) => {
                    if d.pat < v.decls@.len() {
                        match v.decls@[d.pat as int] {
                            Pat::Ident { ann, .. } => {
                                lemma_opt_base(p, mi, ann, PrimitiveKind::Any);
                                lemma_ann_closed(
                                    arena,
                                    opt_ann(p, mi, ann, PrimitiveKind::Any),
                                    n0,
                                );
                            },
                            Pat::Other => {},
                        }
                    }
                },
                _ => {},
            }
        },
        None => {},
    }
}

/// The descriptors of exports are in the arena, which stays closed.
pub proof fn lemma_exports_closed(
    arena: Seq<DescrView>,
    out: Seq<Field>,
    p: Program,
    mi: int,
    keys: Seq<String>,
    ns: Namespace,
)
    requires
        sized(p),
        0 <= mi < p.modules.len(),
        closed_arena(arena),
        planned(p.modules) <= arena.len(),
        fields_in_arena(arena, out),
        exports_onto(arena, out, p, mi, keys, ns).0.len() <= usize::MAX,
    ensures
        closed_arena(exports_onto(arena, out, p, mi, keys, ns).0),
        fields_in_arena(
            exports_onto(arena, out, p, mi, keys, ns).0,
            exports_onto(arena, out, p, mi, keys, ns).1,
        ),
    decreases keys.len(),
{
    if keys.len() > 0 {
        let (next, h) = export_entry(arena, p, mi, keys[0], ns);
        let one = Field { name: keys[0], ty: h };
        lemma_export_grows(arena, p, mi, keys[0], ns);
        lemma_exports_grows(next, out.push(one), p, mi, keys.skip(1), ns);
        lemma_export_closed(arena, p, mi, keys[0], ns);
        assert(fields_in_arena(next, out.push(one))) by {
            assert forall|k: int| 0 <= k < out.push(one).len() implies (#[trigger] out.push(
                one,
            )[k]).ty < next.len() by {
                if k < out.len() {
                    assert(out.push(one)[k] == out[k]);
                }
            }
        }
        lemma_exports_closed(next, out.push(one), p, mi, keys.skip(1), ns);
    }
}

/// Whether the exports of a typed node are in the arena.
pub open spec fn node_in_arena(arena: Seq<DescrView>, node: TypedNodeView) -> bool {
    fields_in_arena(arena, node.rooted_export_types) && fields_in_arena(
        arena,
        node.rooted_export_values,
    )
}

/// The exports of a typed node are in the arena, which stays closed.
pub proof fn lemma_typed_node_closed(arena: Seq<DescrView>, p: Program, mi: int)
    requires
        sized(p),
        0 <= mi < p.modules.len(),
        closed_arena(arena),
        planned(p.modules) <= arena.len(),
        typed_node(arena, p, mi).0.len() <= usize::MAX,
    ensures
        closed_arena(typed_node(arena, p, mi).0),
        node_in_arena(typed_node(arena, p, mi).0, typed_node(arena, p, mi).1),
{
    let node = p.graph.nodes[mi];
    let none = Seq::<Field>::empty();
    let (with_types, types) = exports_onto(
        arena,
        none,
        p,
        mi,
        node.rooted_export_types,
        Namespace::Type,
    );
    lemma_exports_grows(arena, none, p, mi, node.rooted_export_types, Namespace::Type);
    lemma_exports_grows(with_types, none, p, mi, node.rooted_export_values, Namespace::Value);
    lemma_exports_closed(arena, none, p, mi, node.rooted_export_types, Namespace::Type);
    lemma_exports_closed(with_types, none, p, mi, node.rooted_export_values, Namespace::Value);
}

/// The exports of the typed nodes are in the arena, which stays closed.
pub proof fn lemma_typed_nodes_closed(arena: Seq<DescrView>, p: Program, n: int)
    requires
        sized(p),
        0 <= n <= p.modules.len(),
        closed_arena(arena),
        planned(p.modules) <= arena.len(),
        typed_nodes(arena, p, n).0.len() <= usize::MAX,
    ensures
        closed_arena(typed_nodes(arena, p, n).0),
        forall|m: int|
            0 <= m < n ==> node_in_arena(
                typed_nodes(arena, p, n).0,
                #[trigger] typed_nodes(arena, p, n).1[m],
            ),
    decreases n,
{
    if n > 0 {
        let (before, nodes) = typed_nodes(arena, p, n - 1);
        let (after, node) = typed_node(before, p, n - 1);
        lemma_typed_nodes_grows(arena, p, n - 1);
        lemma_typed_node_grows(before, p, n - 1);
        lemma_typed_nodes_closed(arena, p, n - 1);
        lemma_typed_node_closed(before, p, n - 1);
        assert forall|m: int| 0 <= m < n implies node_in_arena(
            after,
            #[trigger] nodes.push(node)[m],
        ) by {
            if m < n - 1 {
                assert(nodes.push(node)[m] == nodes[m]);
                assert(node_in_arena(before, nodes[m]));
            }
        }
    }
}

/// The typed graph of a program is well formed: every module has its
/// edge list, and every descriptor that a descriptor names or that a module
/// exports is a descriptor of the arena.
pub proof fn lemma_typed_wf(p: Program)
    requires
        sized(p),
        typed_of(p).arena.len() <= usize::MAX,
    ensures
        typed_of(p).wf(),
{
    let count = p.modules.len() as int;
    let start = planned_arena(p.modules);
    let filled = filled_modules(start, p, count);
    lemma_base_grows(p.modules, count);
    assert(closed_arena(start)) by {
        assert forall|i: int, j: int|
            0 <= i < start.len() && 0 <= j < children(start[i]).len() implies #[trigger] children(
            start[i],
        )[j] < start.len() by {
            assert(start[i] is Primitive);
        }
    }
    lemma_filled_modules_len(start, p, count);
    lemma_typed_nodes_grows(filled, p, count);
    lemma_filled_modules_closed(start, p, count);
    lemma_typed_nodes_closed(filled, p, count);
}

} // verus!
