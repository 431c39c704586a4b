//! What the arena of a typed graph holds, said declaration by declaration:
//! the descriptor of a declaration is fixed by the declaration and by what
//! its annotations denote, whatever else the program holds and in whatever
//! order the arena was filled.

use vstd::prelude::*;

use crate::ast::{ClassMember, Decl, InterfaceMember, Pat, PrimitiveKind, TypeAnn};
use crate::graph_reduce::Namespace;
use crate::type_construction::{
    type_ref,enum_kind, flat_fields, item_slots, lemma_base_grows, module_base, planned, resolve_ann, slot_of, FieldSource, Place, Program, Resolved};
use crate::type_scope::{decl_of, lemma_rooted_decl_in_range, rooted_decl};
use crate::type_structs::{primitive_slot, DescrView, Field, Handle, TypedNodeView};
use crate::typify_graph::{ann_entry, ctor_params, export_entry, exports_onto, field_entry, fields_onto_arena, fill_item, filled_items, filled_modules, lemma_bases_grow, lemma_slot_bound, lemma_slots_grow, opt_ann, params_onto, planned_arena, signature_entry, typed_node, typed_nodes, typed_of};

verus! {

/// Whether `b` starts with `a`.
pub open spec fn grows(a: Seq<DescrView>, b: Seq<DescrView>) -> bool {
    a.len() <= b.len() && forall|i: int| 0 <= i < a.len() ==> #[trigger] b[i] == a[i]
}

/// Whether `b` is at least as long as `a` and holds what `a` holds from
/// position `n0` on.
pub open spec fn kept(a: Seq<DescrView>, b: Seq<DescrView>, n0: nat) -> bool {
    a.len() <= b.len() && forall|i: int| n0 <= i < a.len() ==> #[trigger] b[i] == a[i]
}

/// Whether the descriptor at `h` stands for what `r` denotes: `h` is the
/// base itself where the rank is zero; else the arena holds at `h`, behind
/// the positions kept, the array of that rank over the base.
pub open spec fn denotes(arena: Seq<DescrView>, h: Handle, r: Resolved, n0: nat) -> bool {
    if r.rank == 0 {
        h == r.base
    } else {
        n0 <= h < arena.len() && arena[h as int] == (DescrView::Array {
            elem: r.base,
            rank: r.rank,
        })
    }
}

/// Whether `hs` stand for what the parameter annotations `params`,
/// written in module `mi`, denote, one by one.
pub open spec fn all_denote(
    arena: Seq<DescrView>,
    hs: Seq<Handle>,
    p: Program,
    mi: int,
    params: Seq<Option<TypeAnn>>,
    n0: nat,
) -> bool {
    &&& hs.len() == params.len()
    &&& forall|i: int|
        0 <= i < hs.len() ==> denotes(
            arena,
            #[trigger] hs[i],
            opt_ann(p, mi, params[i], PrimitiveKind::Any),
            n0,
        )
}

/// Whether the arena holds at `h`, behind the positions kept, the function
/// of module `mi` with the parameters `params` and the return annotation
/// `ret`.
pub open spec fn fn_denotes(
    arena: Seq<DescrView>,
    h: Handle,
    p: Program,
    mi: int,
    params: Seq<Option<TypeAnn>>,
    ret: Option<TypeAnn>,
    n0: nat,
) -> bool {
    &&& n0 <= h < arena.len()
    &&& match arena[h as int] {
        DescrView::Fn { origin, params: hs, ret: Some(r) } => {
            &&& origin == p.modules[mi].path
            &&& all_denote(arena, hs, p, mi, params, n0)
            &&& denotes(arena, r, opt_ann(p, mi, ret, PrimitiveKind::Void), n0)
        },
        _ => false,
    }
}

/// Whether the descriptor at `h` stands for the type of the member `f`: a
/// property has the type of its annotation, `any` without one; a method is
/// a function of the module that declares it.
pub open spec fn field_denotes(arena: Seq<DescrView>, h: Handle, p: Program, f: FieldSource, n0: nat)
    -> bool {
    let any = h == primitive_slot(PrimitiveKind::Any);
    match p.decl(f.module as int, f.item as int) {
        Some(Decl::Class(c)) => match c.members@[f.member as int] {
            ClassMember::Property { ann, .. } => denotes(
                arena,
                h,
                opt_ann(p, f.module as int, ann, PrimitiveKind::Any),
                n0,
            ),
            ClassMember::Method { sig, .. } => fn_denotes(
                arena,
                h,
                p,
                f.module as int,
                sig.params@,
                sig.ret,
                n0,
            ),
            _ => any,
        },
        Some(Decl::TsInterface(i)) => match i.members@[f.member as int] {
            InterfaceMember::Property { ann, .. } => denotes(
                arena,
                h,
                opt_ann(p, f.module as int, ann, PrimitiveKind::Any),
                n0,
            ),
            InterfaceMember::Method { sig, .. } => fn_denotes(
                arena,
                h,
                p,
                f.module as int,
                sig.params@,
                sig.ret,
                n0,
            ),
            _ => any,
        },
        _ => any,
    }
}

/// Whether `fields` are the members `flat`, one by one: each under its
/// name, with the descriptor of its type.
pub open spec fn fields_denote(
    arena: Seq<DescrView>,
    fields: Seq<Field>,
    p: Program,
    flat: Seq<FieldSource>,
    n0: nat,
) -> bool {
    &&& fields.len() == flat.len()
    &&& forall|k: int|
        0 <= k < fields.len() ==> (#[trigger] fields[k]).name == flat[k].name && field_denotes(
            arena,
            fields[k].ty,
            p,
            flat[k],
            n0,
        )
}

/// Whether the arena holds, at the positions kept for item `ji` of module
/// `mi`, what the declaration there says. For a class: its type, with its
/// name, its module, its members, and its constructor at the next
/// position; there, the function from the constructor's parameters to the
/// class. For an interface: its module and its members. The members are
/// those of the declaration and of what it extends.
pub open spec fn entry_ok(arena: Seq<DescrView>, p: Program, mi: int, ji: int, n0: nat) -> bool {
    let slot = slot_of(p.modules, mi, ji) as int;
    let flat = flat_fields(p, mi, ji, Seq::empty());
    match decl_of(p.items(mi)[ji]) {
        Some(Decl::Class(c)) => {
            &&& match arena[slot] {
                DescrView::Class { name, origin, constructor, fields } => {
                    &&& name == c.name
                    &&& origin == p.modules[mi].path
                    &&& constructor == slot + 1
                    &&& fields_denote(arena, fields, p, flat, n0)
                },
                _ => false,
            }
            &&& match arena[slot + 1] {
                DescrView::Fn { origin, params, ret } => {
                    &&& origin == p.modules[mi].path
                    &&& ret == Some(slot as usize)
                    &&& all_denote(arena, params, p, mi, ctor_params(c.members@, 0), n0)
                },
                _ => false,
            }
        },
        Some(Decl::TsInterface(_)) => match arena[slot] {
            DescrView::Interface { origin, fields } => {
                &&& origin == p.modules[mi].path
                &&& fields_denote(arena, fields, p, flat, n0)
            },
            _ => false,
        },
        _ => true,
    }
}

/// Whether the descriptor at `h` stands for what module `mi` declares and
/// exports as `key` in `ns`. A type: the position kept for a class or an
/// interface, the built-in type that an enum counts as, what the
/// right-hand side of an alias denotes. A value: the constructor of a
/// class, the function of a function declaration, what the annotation of a
/// variable denotes.
pub open spec fn export_denotes(
    arena: Seq<DescrView>,
    h: Handle,
    p: Program,
    mi: int,
    key: String,
    ns: Namespace,
    n0: nat,
) -> bool {
    let any = h == primitive_slot(PrimitiveKind::Any);
    match rooted_decl(p.items(mi), key@, ns, 0) {
        Some(d) => {
            let slot = slot_of(p.modules, mi, d.item as int);
            match (ns, decl_of(p.items(mi)[d.item as int])) {
                (Namespace::Type, Some(Decl::Class(_))) => h == slot,
                (Namespace::Type, Some(Decl::TsInterface(_))) => h == slot,
                (Namespace::Type, Some(Decl::TsEnum(e))) => h == primitive_slot(
                    enum_kind(e.members@),
                ),
                (Namespace::Type, Some(Decl::TsTypeAlias(a))) => denotes(
                    arena,
                    h,
                    resolve_ann(p, mi, a.ann, seq![Place { module: mi as usize, item: d.item }]),
                    n0,
                ),
                (Namespace::Value, Some(Decl::Class(_))) => h == slot + 1,
                (Namespace::Value, Some(Decl::Fn(f))) => fn_denotes(
                    arena,
                    h,
                    p,
                    mi,
                    f.sig.params@,
                    f.sig.ret,
                    n0,
                ),
                (Namespace::Value, Some(Decl::Var(v))) => if d.pat < v.decls@.len() {
                    match v.decls@[d.pat as int] {
                        Pat::Ident { ann, .. } => denotes(
                            arena,
                            h,
                            opt_ann(p, mi, ann, PrimitiveKind::Any),
                            n0,
                        ),
                        Pat::Other => any,
                    }
                } else {
                    any
                },
                _ => any,
            }
        },
        None => any,
    }
}

/// What was kept stays kept when the arena is kept again.
pub proof fn lemma_kept_trans(a: Seq<DescrView>, b: Seq<DescrView>, c: Seq<DescrView>, n0: nat)
    requires
        kept(a, b, n0),
        kept(b, c, n0),
    ensures
        kept(a, c, n0),
{
    assert forall|i: int| n0 <= i < a.len() implies #[trigger] c[i] == a[i] by {
        assert(b[i] == a[i]);
    }
}

/// A longer arena that starts with a shorter one keeps what it held.
pub proof fn lemma_grows_kept(a: Seq<DescrView>, b: Seq<DescrView>, n0: nat)
    requires
        grows(a, b),
    ensures
        kept(a, b, n0),
{
}

/// Growing twice is growing.
pub proof fn lemma_grows_trans(a: Seq<DescrView>, b: Seq<DescrView>, c: Seq<DescrView>)
    requires
        grows(a, b),
        grows(b, c),
    ensures
        grows(a, c),
{
    assert forall|i: int| 0 <= i < a.len() implies #[trigger] c[i] == a[i] by {
        assert(b[i] == a[i]);
    }
}

/// What a position stands for, it stands for in an arena that keeps the
/// first.
pub proof fn lemma_denotes_kept(
    a: Seq<DescrView>,
    b: Seq<DescrView>,
    h: Handle,
    r: Resolved,
    n0: nat,
)
    requires
        kept(a, b, n0),
        denotes(a, h, r, n0),
    ensures
        denotes(b, h, r, n0),
{
    if r.rank != 0 {
        assert(b[h as int] == a[h as int]);
    }
}

/// Positions that stand for parameters do so in an arena that keeps the
/// first.
pub proof fn lemma_all_denote_kept(
    a: Seq<DescrView>,
    b: Seq<DescrView>,
    hs: Seq<Handle>,
    p: Program,
    mi: int,
    params: Seq<Option<TypeAnn>>,
    n0: nat,
)
    requires
        kept(a, b, n0),
        all_denote(a, hs, p, mi, params, n0),
    ensures
        all_denote(b, hs, p, mi, params, n0),
{
    assert forall|i: int| 0 <= i < hs.len() implies denotes(
        b,
        #[trigger] hs[i],
        opt_ann(p, mi, params[i], PrimitiveKind::Any),
        n0,
    ) by {
        lemma_denotes_kept(a, b, hs[i], opt_ann(p, mi, params[i], PrimitiveKind::Any), n0);
    }
}

/// A position that stands for a function does so in an arena that keeps
/// the first.
pub proof fn lemma_fn_denotes_kept(
    a: Seq<DescrView>,
    b: Seq<DescrView>,
    h: Handle,
    p: Program,
    mi: int,
    params: Seq<Option<TypeAnn>>,
    ret: Option<TypeAnn>,
    n0: nat,
)
    requires
        kept(a, b, n0),
        fn_denotes(a, h, p, mi, params, ret, n0),
    ensures
        fn_denotes(b, h, p, mi, params, ret, n0),
{
    assert(b[h as int] == a[h as int]);
    match a[h as int] {
        DescrView::Fn { origin, params: hs, ret: Some(r) } => {
            lemma_all_denote_kept(a, b, hs, p, mi, params, n0);
            lemma_denotes_kept(a, b, r, opt_ann(p, mi, ret, PrimitiveKind::Void), n0);
        },
        _ => {},
    }
}

/// A position that stands for the type of a member does so in an arena
/// that keeps the first.
pub proof fn lemma_field_denotes_kept(
    a: Seq<DescrView>,
    b: Seq<DescrView>,
    h: Handle,
    p: Program,
    f: FieldSource,
    n0: nat,
)
    requires
        kept(a, b, n0),
        field_denotes(a, h, p, f, n0),
    ensures
        field_denotes(b, h, p, f, n0),
{
    match p.decl(f.module as int, f.item as int) {
        Some(Decl::Class(c)) => match c.members@[f.member as int] {
            ClassMember::Property { ann, .. } => {
                lemma_denotes_kept(
                    a,
                    b,
                    h,
                    opt_ann(p, f.module as int, ann, PrimitiveKind::Any),
                    n0,
                );
            },
            ClassMember::Method { sig, .. } => {
                lemma_fn_denotes_kept(a, b, h, p, f.module as int, sig.params@, sig.ret, n0);
            },
            _ => {},
        },
        Some(Decl::TsInterface(i)) => match i.members@[f.member as int] {
            InterfaceMember::Property { ann, .. } => {
                lemma_denotes_kept(
                    a,
                    b,
                    h,
                    opt_ann(p, f.module as int, ann, PrimitiveKind::Any),
                    n0,
                );
            },
            InterfaceMember::Method { sig, .. } => {
                lemma_fn_denotes_kept(a, b, h, p, f.module as int, sig.params@, sig.ret, n0);
            },
            _ => {},
        },
        _ => {},
    }
}

/// Fields that are the members of a declaration are so in an arena that
/// keeps the first.
pub proof fn lemma_fields_denote_kept(
    a: Seq<DescrView>,
    b: Seq<DescrView>,
    fields: Seq<Field>,
    p: Program,
    flat: Seq<FieldSource>,
    n0: nat,
)
    requires
        kept(a, b, n0),
        fields_denote(a, fields, p, flat, n0),
    ensures
        fields_denote(b, fields, p, flat, n0),
{
    assert forall|k: int| 0 <= k < fields.len() implies (#[trigger] fields[k]).name
        == flat[k].name && field_denotes(b, fields[k].ty, p, flat[k], n0) by {
        lemma_field_denotes_kept(a, b, fields[k].ty, p, flat[k], n0);
    }
}

/// What the positions of a declaration hold, they hold in an arena that
/// keeps the first and leaves these positions as they are.
pub proof fn lemma_entry_kept(
    a: Seq<DescrView>,
    b: Seq<DescrView>,
    p: Program,
    mi: int,
    ji: int,
    n0: nat,
)
    requires
        kept(a, b, n0),
        entry_ok(a, p, mi, ji, n0),
        b[slot_of(p.modules, mi, ji) as int] == a[slot_of(p.modules, mi, ji) as int],
        b[slot_of(p.modules, mi, ji) as int + 1] == a[slot_of(p.modules, mi, ji) as int + 1],
    ensures
        entry_ok(b, p, mi, ji, n0),
{
    let slot = slot_of(p.modules, mi, ji) as int;
    let flat = flat_fields(p, mi, ji, Seq::empty());
    match decl_of(p.items(mi)[ji]) {
        Some(Decl::Class(c)) => {
            match a[slot] {
                DescrView::Class { name, origin, constructor, fields } => {
                    lemma_fields_denote_kept(a, b, fields, p, flat, n0);
                },
                _ => {},
            }
            match a[slot + 1] {
                DescrView::Fn { origin, params, ret } => {
                    lemma_all_denote_kept(a, b, params, p, mi, ctor_params(c.members@, 0), n0);
                },
                _ => {},
            }
        },
        Some(Decl::TsInterface(_)) => {
            match a[slot] {
                DescrView::Interface { origin, fields } => {
                    lemma_fields_denote_kept(a, b, fields, p, flat, n0);
                },
                _ => {},
            }
        },
        _ => {},
    }
}

/// What a position stands for as an export, it stands for in an arena
/// that keeps the first.
pub proof fn lemma_export_denotes_kept(
    a: Seq<DescrView>,
    b: Seq<DescrView>,
    h: Handle,
    p: Program,
    mi: int,
    key: String,
    ns: Namespace,
    n0: nat,
)
    requires
        kept(a, b, n0),
        export_denotes(a, h, p, mi, key, ns, n0),
    ensures
        export_denotes(b, h, p, mi, key, ns, n0),
{
    match rooted_decl(p.items(mi), key@, ns, 0) {
        Some(d) => {
            match (ns, decl_of(p.items(mi)[d.item as int])) {
                (Namespace::Type, Some(Decl::TsTypeAlias(al))) => {
                    lemma_denotes_kept(
                        a,
                        b,
                        h,
                        resolve_ann(
                            p,
                            mi,
                            al.ann,
                            seq![Place { module: mi as usize, item: d.item }],
                        ),
                        n0,
                    );
                },
                (Namespace::Value, Some(Decl::Fn(f))) => {
                    lemma_fn_denotes_kept(a, b, h, p, mi, f.sig.params@, f.sig.ret, n0);
                },
                (Namespace::Value, Some(Decl::Var(v))) => {
                    if d.pat < v.decls@.len() {
                        match v.decls@[d.pat as int] {
                            Pat::Ident { ann, .. } => {
                                lemma_denotes_kept(
                                    a,
                                    b,
                                    h,
                                    opt_ann(p, mi, ann, PrimitiveKind::Any),
                                    n0,
                                );
                            },
                            Pat::Other => {},
                        }
                    }
                },
                _ => {},
            }
        },
        None => {},
    }
}

/// The descriptor of an annotation is added at the end, if at all.
pub proof fn lemma_ann_grows(arena: Seq<DescrView>, r: Resolved)
    ensures
        grows(arena, ann_entry(arena, r).0),
{
}

/// The descriptor of an annotation stands for what the annotation
/// denotes.
pub proof fn lemma_ann_denotes(arena: Seq<DescrView>, r: Resolved, n0: nat)
    requires
        n0 <= arena.len(),
        ann_entry(arena, r).0.len() <= usize::MAX,
    ensures
        denotes(ann_entry(arena, r).0, ann_entry(arena, r).1, r, n0),
{
}

/// The descriptors of parameters are added at the end; their positions
/// follow those gathered before.
pub proof fn lemma_params_grows(
    arena: Seq<DescrView>,
    handles: Seq<Handle>,
    p: Program,
    mi: int,
    params: Seq<Option<TypeAnn>>,
)
    ensures
        grows(arena, params_onto(arena, handles, p, mi, params).0),
        params_onto(arena, handles, p, mi, params).1.len() == handles.len() + params.len(),
        forall|i: int|
            0 <= i < handles.len() ==> #[trigger] params_onto(arena, handles, p, mi, params).1[i]
                == handles[i],
    decreases params.len(),
{
    if params.len() > 0 {
        let (next, h) = ann_entry(arena, opt_ann(p, mi, params[0], PrimitiveKind::Any));
        lemma_params_grows(next, handles.push(h), p, mi, params.skip(1));
        let out = params_onto(next, handles.push(h), p, mi, params.skip(1));
        lemma_grows_trans(arena, next, out.0);
        assert forall|i: int| 0 <= i < handles.len() implies #[trigger] out.1[i]
            == handles[i] by {
            assert(handles.push(h)[i] == handles[i]);
        }
    }
}

/// The positions gathered for parameters stand for what the annotations
/// of the parameters denote.
pub proof fn lemma_params_denote(
    arena: Seq<DescrView>,
    handles: Seq<Handle>,
    p: Program,
    mi: int,
    params: Seq<Option<TypeAnn>>,
    n0: nat,
)
    requires
        n0 <= arena.len(),
        params_onto(arena, handles, p, mi, params).0.len() <= usize::MAX,
    ensures
        forall|i: int|
            0 <= i < params.len() ==> denotes(
                params_onto(arena, handles, p, mi, params).0,
                #[trigger] params_onto(arena, handles, p, mi, params).1[handles.len() + i],
                opt_ann(p, mi, params[i], PrimitiveKind::Any),
                n0,
            ),
    decreases params.len(),
{
    if params.len() > 0 {
        let r0 = opt_ann(p, mi, params[0], PrimitiveKind::Any);
        let (next, h) = ann_entry(arena, r0);
        let rest = params.skip(1);
        let out = params_onto(next, handles.push(h), p, mi, rest);
        lemma_params_grows(next, handles.push(h), p, mi, rest);
        lemma_ann_denotes(arena, r0, n0);
        lemma_params_denote(next, handles.push(h), p, mi, rest, n0);
        lemma_grows_kept(next, out.0, n0);
        assert forall|i: int| 0 <= i < params.len() implies denotes(
            out.0,
            #[trigger] out.1[handles.len() + i],
            opt_ann(p, mi, params[i], PrimitiveKind::Any),
            n0,
        ) by {
            if i == 0 {
                assert(out.1[handles.len() as int] == handles.push(h)[handles.len() as int]);
                lemma_denotes_kept(next, out.0, h, r0, n0);
            } else {
                assert(rest[i - 1] == params[i]);
                assert(out.1[handles.push(h).len() + (i - 1)] == out.1[handles.len() + i]);
            }
        }
    }
}

/// The positions of the parameters of a function, gathered from nothing,
/// stand for the parameters.
pub proof fn lemma_params_all_denote(
    arena: Seq<DescrView>,
    p: Program,
    mi: int,
    params: Seq<Option<TypeAnn>>,
    n0: nat,
)
    requires
        n0 <= arena.len(),
        params_onto(arena, Seq::empty(), p, mi, params).0.len() <= usize::MAX,
    ensures
        all_denote(
            params_onto(arena, Seq::empty(), p, mi, params).0,
            params_onto(arena, Seq::empty(), p, mi, params).1,
            p,
            mi,
            params,
            n0,
        ),
        grows(arena, params_onto(arena, Seq::empty(), p, mi, params).0),
{
    let none = Seq::<Handle>::empty();
    lemma_params_grows(arena, none, p, mi, params);
    lemma_params_denote(arena, none, p, mi, params, n0);
    let out = params_onto(arena, none, p, mi, params);
    assert forall|i: int| 0 <= i < out.1.len() implies denotes(
        out.0,
        #[trigger] out.1[i],
        opt_ann(p, mi, params[i], PrimitiveKind::Any),
        n0,
    ) by {
        assert(out.1[none.len() + i] == out.1[i]);
    }
}

/// The descriptor of a function is added at the end, after those of its
/// parameters and of its return type.
pub proof fn lemma_signature_grows(
    arena: Seq<DescrView>,
    p: Program,
    mi: int,
    params: Seq<Option<TypeAnn>>,
    ret: Option<TypeAnn>,
)
    ensures
        grows(arena, signature_entry(arena, p, mi, params, ret).0),
{
    let (with_params, handles) = params_onto(arena, Seq::empty(), p, mi, params);
    lemma_params_grows(arena, Seq::empty(), p, mi, params);
    let (with_ret, r) = ann_entry(with_params, opt_ann(p, mi, ret, PrimitiveKind::Void));
    lemma_grows_trans(arena, with_params, with_ret);
    let out = signature_entry(arena, p, mi, params, ret).0;
    assert(grows(with_ret, out));
    lemma_grows_trans(arena, with_ret, out);
}

/// The descriptor of a function stands for the function.
pub proof fn lemma_signature_denotes(
    arena: Seq<DescrView>,
    p: Program,
    mi: int,
    params: Seq<Option<TypeAnn>>,
    ret: Option<TypeAnn>,
    n0: nat,
)
    requires
        n0 <= arena.len(),
        signature_entry(arena, p, mi, params, ret).0.len() <= usize::MAX,
    ensures
        fn_denotes(
            signature_entry(arena, p, mi, params, ret).0,
            signature_entry(arena, p, mi, params, ret).1,
            p,
            mi,
            params,
            ret,
            n0,
        ),
{
    let (with_params, handles) = params_onto(arena, Seq::empty(), p, mi, params);
    let rr = opt_ann(p, mi, ret, PrimitiveKind::Void);
    let (with_ret, r) = ann_entry(with_params, rr);
    let out = signature_entry(arena, p, mi, params, ret);
    lemma_params_all_denote(arena, p, mi, params, n0);
    lemma_ann_denotes(with_params, rr, n0);
    lemma_grows_kept(with_params, with_ret, n0);
    lemma_all_denote_kept(with_params, with_ret, handles, p, mi, params, n0);
    assert(grows(with_ret, out.0));
    lemma_grows_kept(with_ret, out.0, n0);
    lemma_all_denote_kept(with_ret, out.0, handles, p, mi, params, n0);
    lemma_denotes_kept(with_ret, out.0, r, rr, n0);
    assert(out.1 == with_ret.len());
    assert(out.0[out.1 as int] == (DescrView::Fn {
        origin: p.modules[mi].path,
        params: handles,
        ret: Some(r),
    }));
}

/// The descriptor of the type of a member is added at the end, if at
/// all.
pub proof fn lemma_field_grows(arena: Seq<DescrView>, p: Program, f: FieldSource)
    ensures
        grows(arena, field_entry(arena, p, f).0),
{
    match p.decl(f.module as int, f.item as int) {
        Some(Decl::Class(c)) => match c.members@[f.member as int] {
            ClassMember::Method { sig, .. } => {
                lemma_signature_grows(arena, p, f.module as int, sig.params@, sig.ret);
            },
            _ => {},
        },
        Some(Decl::TsInterface(i)) => match i.members@[f.member as int] {
            InterfaceMember::Method { sig, .. } => {
                lemma_signature_grows(arena, p, f.module as int, sig.params@, sig.ret);
            },
            _ => {},
        },
        _ => {},
    }
}

/// The descriptor of the type of a member stands for that type.
pub proof fn lemma_field_denotes(arena: Seq<DescrView>, p: Program, f: FieldSource, n0: nat)
    requires
        n0 <= arena.len(),
        field_entry(arena, p, f).0.len() <= usize::MAX,
    ensures
        field_denotes(field_entry(arena, p, f).0, field_entry(arena, p, f).1, p, f, n0),
{
    match p.decl(f.module as int, f.item as int) {
        Some(Decl::Class(c)) => match c.members@[f.member as int] {
            ClassMember::Property { ann, .. } => {
                lemma_ann_denotes(
                    arena,
                    opt_ann(p, f.module as int, ann, PrimitiveKind::Any),
                    n0,
                );
            },
            ClassMember::Method { sig, .. } => {
                lemma_signature_denotes(arena, p, f.module as int, sig.params@, sig.ret, n0);
            },
            _ => {},
        },
        Some(Decl::TsInterface(i)) => match i.members@[f.member as int] {
            InterfaceMember::Property { ann, .. } => {
                lemma_ann_denotes(
                    arena,
                    opt_ann(p, f.module as int, ann, PrimitiveKind::Any),
                    n0,
                );
            },
            InterfaceMember::Method { sig, .. } => {
                lemma_signature_denotes(arena, p, f.module as int, sig.params@, sig.ret, n0);
            },
            _ => {},
        },
        _ => {},
    }
}

/// The descriptors of the types of members are added at the end; the
/// fields follow those gathered before.
pub proof fn lemma_fields_grows(
    arena: Seq<DescrView>,
    out: Seq<Field>,
    p: Program,
    fields: Seq<FieldSource>,
)
    ensures
        grows(arena, fields_onto_arena(arena, out, p, fields).0),
        fields_onto_arena(arena, out, p, fields).1.len() == out.len() + fields.len(),
        forall|i: int|
            0 <= i < out.len() ==> #[trigger] fields_onto_arena(arena, out, p, fields).1[i]
                == out[i],
    decreases fields.len(),
{
    if fields.len() > 0 {
        let (next, h) = field_entry(arena, p, fields[0]);
        let one = Field { name: fields[0].name, ty: h };
        lemma_field_grows(arena, p, fields[0]);
        lemma_fields_grows(next, out.push(one), p, fields.skip(1));
        let res = fields_onto_arena(next, out.push(one), p, fields.skip(1));
        lemma_grows_trans(arena, next, res.0);
        assert forall|i: int| 0 <= i < out.len() implies #[trigger] res.1[i] == out[i] by {
            assert(out.push(one)[i] == out[i]);
        }
    }
}

/// The fields gathered for members are the members, each under its name
/// and with the descriptor of its type.
pub proof fn lemma_fields_denote(
    arena: Seq<DescrView>,
    out: Seq<Field>,
    p: Program,
    fields: Seq<FieldSource>,
    n0: nat,
)
    requires
        n0 <= arena.len(),
        fields_onto_arena(arena, out, p, fields).0.len() <= usize::MAX,
    ensures
        forall|i: int|
            0 <= i < fields.len() ==> (#[trigger] fields_onto_arena(arena, out, p, fields).1[out.len()
                + i]).name == fields[i].name && field_denotes(
                fields_onto_arena(arena, out, p, fields).0,
                fields_onto_arena(arena, out, p, fields).1[out.len() + i].ty,
                p,
                fields[i],
                n0,
            ),
    decreases fields.len(),
{
    if fields.len() > 0 {
        let (next, h) = field_entry(arena, p, fields[0]);
        let one = Field { name: fields[0].name, ty: h };
        let rest = fields.skip(1);
        let res = fields_onto_arena(next, out.push(one), p, rest);
        lemma_field_grows(arena, p, fields[0]);
        lemma_fields_grows(next, out.push(one), p, rest);
        lemma_field_denotes(arena, p, fields[0], n0);
        lemma_fields_denote(next, out.push(one), p, rest, n0);
        lemma_grows_kept(next, res.0, n0);
        assert forall|i: int| 0 <= i < fields.len() implies (#[trigger] res.1[out.len()
            + i]).name == fields[i].name && field_denotes(
            res.0,
            res.1[out.len() + i].ty,
            p,
            fields[i],
            n0,
        ) by {
            if i == 0 {
                assert(res.1[out.len() as int] == out.push(one)[out.len() as int]);
                lemma_field_denotes_kept(next, res.0, h, p, fields[0], n0);
            } else {
                assert(rest[i - 1] == fields[i]);
                assert(res.1[out.push(one).len() + (i - 1)] == res.1[out.len() + i]);
            }
        }
    }
}

/// The fields of a declaration, gathered from nothing, are its members.
pub proof fn lemma_fields_all_denote(
    arena: Seq<DescrView>,
    p: Program,
    fields: Seq<FieldSource>,
    n0: nat,
)
    requires
        n0 <= arena.len(),
        fields_onto_arena(arena, Seq::empty(), p, fields).0.len() <= usize::MAX,
    ensures
        fields_denote(
            fields_onto_arena(arena, Seq::empty(), p, fields).0,
            fields_onto_arena(arena, Seq::empty(), p, fields).1,
            p,
            fields,
            n0,
        ),
        grows(arena, fields_onto_arena(arena, Seq::empty(), p, fields).0),
{
    let none = Seq::<Field>::empty();
    lemma_fields_grows(arena, none, p, fields);
    lemma_fields_denote(arena, none, p, fields, n0);
    let res = fields_onto_arena(arena, none, p, fields);
    assert forall|k: int| 0 <= k < res.1.len() implies (#[trigger] res.1[k]).name
        == fields[k].name && field_denotes(res.0, res.1[k].ty, p, fields[k], n0) by {
        assert(res.1[none.len() + k] == res.1[k]);
    }
}

/// Whether module `mi` and its item `ji` are in the program.
pub open spec fn in_range(p: Program, mi: int, ji: int) -> bool {
    0 <= mi < p.modules.len() && 0 <= ji < p.items(mi).len()
}

/// Filling the positions of an item leaves the arena at least as long,
/// keeps what lies behind the positions kept, and changes no position kept
/// but those of the item.
pub proof fn lemma_fill_keeps(arena: Seq<DescrView>, p: Program, mi: int, ji: int)
    requires
        in_range(p, mi, ji),
        planned(p.modules) <= arena.len(),
    ensures
        kept(arena, fill_item(arena, p, mi, ji), planned(p.modules)),
        forall|i: int|
            0 <= i < planned(p.modules) && !(slot_of(p.modules, mi, ji) <= i < slot_of(
                p.modules,
                mi,
                ji,
            ) + item_slots(p.items(mi)[ji])) ==> #[trigger] fill_item(arena, p, mi, ji)[i]
                == arena[i],
{
    let n0 = planned(p.modules);
    let slot = slot_of(p.modules, mi, ji) as int;
    lemma_slot_bound(p.modules, mi, ji);
    let flat = flat_fields(p, mi, ji, Seq::empty());
    match decl_of(p.items(mi)[ji]) {
        Some(Decl::Class(c)) => {
            let (with_fields, fields) = fields_onto_arena(arena, Seq::empty(), p, flat);
            lemma_fields_grows(arena, Seq::empty(), p, flat);
            let (with_params, params) = params_onto(
                with_fields,
                Seq::empty(),
                p,
                mi,
                ctor_params(c.members@, 0),
            );
            lemma_params_grows(with_fields, Seq::empty(), p, mi, ctor_params(c.members@, 0));
            lemma_grows_trans(arena, with_fields, with_params);
        },
        Some(Decl::TsInterface(_)) => {
            lemma_fields_grows(arena, Seq::empty(), p, flat);
        },
        _ => {},
    }
}

/// After the positions of an item are filled, they hold what the
/// declaration of the item says.
pub proof fn lemma_fill_entry(arena: Seq<DescrView>, p: Program, mi: int, ji: int)
    requires
        in_range(p, mi, ji),
        planned(p.modules) <= arena.len(),
        fill_item(arena, p, mi, ji).len() <= usize::MAX,
    ensures
        entry_ok(fill_item(arena, p, mi, ji), p, mi, ji, planned(p.modules)),
{
    let n0 = planned(p.modules);
    let slot = slot_of(p.modules, mi, ji) as int;
    lemma_slot_bound(p.modules, mi, ji);
    let flat = flat_fields(p, mi, ji, Seq::empty());
    let origin = p.modules[mi].path;
    let done = fill_item(arena, p, mi, ji);
    match decl_of(p.items(mi)[ji]) {
        Some(Decl::Class(c)) => {
            let (with_fields, fields) = fields_onto_arena(arena, Seq::empty(), p, flat);
            let ctor = ctor_params(c.members@, 0);
            let (with_params, params) = params_onto(with_fields, Seq::empty(), p, mi, ctor);
            lemma_fields_grows(arena, Seq::empty(), p, flat);
            lemma_params_grows(with_fields, Seq::empty(), p, mi, ctor);
            lemma_fields_all_denote(arena, p, flat, n0);
            lemma_params_all_denote(with_fields, p, mi, ctor, n0);
            lemma_grows_kept(with_fields, with_params, n0);
            lemma_fields_denote_kept(with_fields, with_params, fields, p, flat, n0);
            assert(kept(with_params, done, n0));
            lemma_fields_denote_kept(with_params, done, fields, p, flat, n0);
            lemma_all_denote_kept(with_params, done, params, p, mi, ctor, n0);
            assert(done[slot] == (DescrView::Class {
                name: c.name,
                origin,
                constructor: (slot + 1) as usize,
                fields,
            }));
            assert(done[slot + 1] == (DescrView::Fn { origin, params, ret: Some(slot as usize) }));
        },
        Some(Decl::TsInterface(_)) => {
            let (with_fields, fields) = fields_onto_arena(arena, Seq::empty(), p, flat);
            lemma_fields_grows(arena, Seq::empty(), p, flat);
            lemma_fields_all_denote(arena, p, flat, n0);
            assert(kept(with_fields, done, n0));
            lemma_fields_denote_kept(with_fields, done, fields, p, flat, n0);
            assert(done[slot] == (DescrView::Interface { origin, fields }));
        },
        _ => {},
    }
}

/// Filling the positions of the first `n` items of a module keeps what
/// lies behind the positions kept and changes no position kept but those
/// of these items.
pub proof fn lemma_filled_items_keep(arena: Seq<DescrView>, p: Program, mi: int, n: int)
    requires
        0 <= mi < p.modules.len(),
        0 <= n <= p.items(mi).len(),
        planned(p.modules) <= arena.len(),
    ensures
        kept(arena, filled_items(arena, p, mi, n), planned(p.modules)),
        forall|i: int|
            0 <= i < planned(p.modules) && !(slot_of(p.modules, mi, 0) <= i < slot_of(
                p.modules,
                mi,
                n,
            )) ==> #[trigger] filled_items(arena, p, mi, n)[i] == arena[i],
    decreases n,
{
    if n > 0 {
        let n0 = planned(p.modules);
        let prev = filled_items(arena, p, mi, n - 1);
        let done = filled_items(arena, p, mi, n);
        lemma_filled_items_keep(arena, p, mi, n - 1);
        lemma_fill_keeps(prev, p, mi, n - 1);
        lemma_kept_trans(arena, prev, done, n0);
        lemma_slots_grow(p.items(mi), 0, n - 1);
        assert forall|i: int|
            0 <= i < n0 && !(slot_of(p.modules, mi, 0) <= i < slot_of(
                p.modules,
                mi,
                n,
            )) implies #[trigger] done[i] == arena[i] by {
            assert(prev[i] == arena[i]);
            assert(done[i] == prev[i]);
        }
    }
}

/// After the positions of the first `n` items of a module are filled,
/// they hold what the declarations of these items say.
pub proof fn lemma_filled_items_entries(arena: Seq<DescrView>, p: Program, mi: int, n: int, ji: int)
    requires
        0 <= mi < p.modules.len(),
        0 <= ji < n <= p.items(mi).len(),
        planned(p.modules) <= arena.len(),
        filled_items(arena, p, mi, n).len() <= usize::MAX,
    ensures
        entry_ok(filled_items(arena, p, mi, n), p, mi, ji, planned(p.modules)),
    decreases n,
{
    let n0 = planned(p.modules);
    let prev = filled_items(arena, p, mi, n - 1);
    let done = filled_items(arena, p, mi, n);
    lemma_filled_items_keep(arena, p, mi, n - 1);
    lemma_fill_keeps(prev, p, mi, n - 1);
    if ji == n - 1 {
        lemma_fill_entry(prev, p, mi, n - 1);
    } else {
        lemma_filled_items_entries(arena, p, mi, n - 1, ji);
        lemma_slots_grow(p.items(mi), ji + 1, n - 1);
        lemma_slot_bound(p.modules, mi, ji);
        lemma_slot_bound(p.modules, mi, n - 1);
        let slot = slot_of(p.modules, mi, ji) as int;
        match decl_of(p.items(mi)[ji]) {
            Some(Decl::Class(_)) => {
                assert(done[slot] == prev[slot]);
                assert(done[slot + 1] == prev[slot + 1]);
                lemma_entry_kept(prev, done, p, mi, ji, n0);
            },
            Some(Decl::TsInterface(_)) => {
                assert(done[slot] == prev[slot]);
                lemma_interface_entry_kept(prev, done, p, mi, ji, n0);
            },
            _ => {},
        }
    }
}

/// What the position of an interface holds, it holds in an arena that
/// keeps the first and leaves this position as it is.
pub proof fn lemma_interface_entry_kept(
    a: Seq<DescrView>,
    b: Seq<DescrView>,
    p: Program,
    mi: int,
    ji: int,
    n0: nat,
)
    requires
        kept(a, b, n0),
        entry_ok(a, p, mi, ji, n0),
        decl_of(p.items(mi)[ji]) matches Some(Decl::TsInterface(_)),
        b[slot_of(p.modules, mi, ji) as int] == a[slot_of(p.modules, mi, ji) as int],
    ensures
        entry_ok(b, p, mi, ji, n0),
{
    let slot = slot_of(p.modules, mi, ji) as int;
    let flat = flat_fields(p, mi, ji, Seq::empty());
    match a[slot] {
        DescrView::Interface { origin, fields } => {
            lemma_fields_denote_kept(a, b, fields, p, flat, n0);
        },
        _ => {},
    }
}

/// What the positions of an item hold, they hold in an arena that keeps
/// the first and leaves the positions of the item as they are.
pub proof fn lemma_entry_stays(
    a: Seq<DescrView>,
    b: Seq<DescrView>,
    p: Program,
    mi: int,
    ji: int,
)
    requires
        in_range(p, mi, ji),
        kept(a, b, planned(p.modules)),
        entry_ok(a, p, mi, ji, planned(p.modules)),
        forall|i: int|
            slot_of(p.modules, mi, ji) <= i < slot_of(p.modules, mi, ji) + item_slots(
                p.items(mi)[ji],
            ) ==> #[trigger] b[i] == a[i],
    ensures
        entry_ok(b, p, mi, ji, planned(p.modules)),
{
    let n0 = planned(p.modules);
    let slot = slot_of(p.modules, mi, ji) as int;
    match decl_of(p.items(mi)[ji]) {
        Some(Decl::Class(_)) => {
            assert(b[slot] == a[slot]);
            assert(b[slot + 1] == a[slot + 1]);
            lemma_entry_kept(a, b, p, mi, ji, n0);
        },
        Some(Decl::TsInterface(_)) => {
            assert(b[slot] == a[slot]);
            lemma_interface_entry_kept(a, b, p, mi, ji, n0);
        },
        _ => {},
    }
}

/// Filling the positions of the first `n` modules keeps what lies behind
/// the positions kept and changes no position kept but those of these
/// modules.
pub proof fn lemma_filled_modules_keep(arena: Seq<DescrView>, p: Program, n: int)
    requires
        0 <= n <= p.modules.len(),
        planned(p.modules) <= arena.len(),
    ensures
        kept(arena, filled_modules(arena, p, n), planned(p.modules)),
        forall|i: int|
            0 <= i < planned(p.modules) && !(7 <= i < module_base(p.modules, n))
                ==> #[trigger] filled_modules(arena, p, n)[i] == arena[i],
    decreases n,
{
    if n > 0 {
        let n0 = planned(p.modules);
        let prev = filled_modules(arena, p, n - 1);
        let done = filled_modules(arena, p, n);
        lemma_filled_modules_keep(arena, p, n - 1);
        lemma_filled_items_keep(prev, p, n - 1, p.items(n - 1).len() as int);
        lemma_kept_trans(arena, prev, done, n0);
        lemma_base_grows(p.modules, n - 1);
        assert forall|i: int|
            0 <= i < n0 && !(7 <= i < module_base(p.modules, n)) implies #[trigger] done[i]
            == arena[i] by {
            assert(prev[i] == arena[i]);
            assert(done[i] == prev[i]);
        }
    }
}

/// After the positions of the first `n` modules are filled, they hold
/// what the declarations of these modules say.
pub proof fn lemma_filled_modules_entries(
    arena: Seq<DescrView>,
    p: Program,
    n: int,
    mi: int,
    ji: int,
)
    requires
        0 <= mi < n <= p.modules.len(),
        0 <= ji < p.items(mi).len(),
        planned(p.modules) <= arena.len(),
        filled_modules(arena, p, n).len() <= usize::MAX,
    ensures
        entry_ok(filled_modules(arena, p, n), p, mi, ji, planned(p.modules)),
    decreases n,
{
    let n0 = planned(p.modules);
    let prev = filled_modules(arena, p, n - 1);
    let done = filled_modules(arena, p, n);
    let count = p.items(n - 1).len() as int;
    lemma_filled_modules_keep(arena, p, n - 1);
    lemma_filled_items_keep(prev, p, n - 1, count);
    if mi == n - 1 {
        lemma_filled_items_entries(prev, p, mi, count, ji);
    } else {
        lemma_filled_modules_entries(arena, p, n - 1, mi, ji);
        lemma_slot_bound(p.modules, mi, ji);
        lemma_slots_grow(p.items(mi), ji + 1, p.items(mi).len() as int);
        lemma_bases_grow(p.modules, mi + 1, n - 1);
        assert forall|i: int|
            slot_of(p.modules, mi, ji) <= i < slot_of(p.modules, mi, ji) + item_slots(
                p.items(mi)[ji],
            ) implies #[trigger] done[i] == prev[i] by {
            assert(i < slot_of(p.modules, n - 1, 0));
        }
        lemma_entry_stays(prev, done, p, mi, ji);
    }
}

/// The descriptor of an export is added at the end, if at all.
pub proof fn lemma_export_grows(
    arena: Seq<DescrView>,
    p: Program,
    mi: int,
    key: String,
    ns: Namespace,
)
    ensures
        grows(arena, export_entry(arena, p, mi, key, ns).0),
{
    match rooted_decl(p.items(mi), key@, ns, 0) {
        Some(d) => {
            match (ns, decl_of(p.items(mi)[d.item as int])) {
                (Namespace::Value, Some(Decl::Fn(f))) => {
                    lemma_signature_grows(arena, p, mi, f.sig.params@, f.sig.ret);
                },
                _ => {},
            }
        },
        None => {},
    }
}

/// The descriptor of an export stands for what is exported.
pub proof fn lemma_export_denotes(
    arena: Seq<DescrView>,
    p: Program,
    mi: int,
    key: String,
    ns: Namespace,
)
    requires
        0 <= mi < p.modules.len(),
        p.items(mi).len() <= usize::MAX,
        planned(p.modules) <= arena.len(),
        export_entry(arena, p, mi, key, ns).0.len() <= usize::MAX,
    ensures
        export_denotes(
            export_entry(arena, p, mi, key, ns).0,
            export_entry(arena, p, mi, key, ns).1,
            p,
            mi,
            key,
            ns,
            planned(p.modules),
        ),
{
    let n0 = planned(p.modules);
    lemma_export_grows(arena, p, mi, key, ns);
    lemma_rooted_decl_in_range(p.items(mi), key@, ns, 0);
    match rooted_decl(p.items(mi), key@, ns, 0) {
        Some(d) => {
            lemma_slot_bound(p.modules, mi, d.item as int);
            match (ns, decl_of(p.items(mi)[d.item as int])) {
                (Namespace::Type, Some(Decl::TsTypeAlias(al))) => {
                    lemma_ann_denotes(
                        arena,
                        resolve_ann(
                            p,
                            mi,
                            al.ann,
                            seq![Place { module: mi as usize, item: d.item }],
                        ),
                        n0,
                    );
                },
                (Namespace::Value, Some(Decl::Fn(f))) => {
                    lemma_signature_denotes(arena, p, mi, f.sig.params@, f.sig.ret, n0);
                },
                (Namespace::Value, Some(Decl::Var(v))) => {
                    if d.pat < v.decls@.len() {
                        match v.decls@[d.pat as int] {
                            Pat::Ident { ann, .. } => {
                                lemma_ann_denotes(
                                    arena,
                                    opt_ann(p, mi, ann, PrimitiveKind::Any),
                                    n0,
                                );
                            },
                            Pat::Other => {},
                        }
                    }
                },
                _ => {},
            }
        },
        None => {},
    }
}

/// The descriptors of exports are added at the end; the fields follow
/// those gathered before.
pub proof fn lemma_exports_grows(
    arena: Seq<DescrView>,
    out: Seq<Field>,
    p: Program,
    mi: int,
    keys: Seq<String>,
    ns: Namespace,
)
    ensures
        grows(arena, exports_onto(arena, out, p, mi, keys, ns).0),
        exports_onto(arena, out, p, mi, keys, ns).1.len() == out.len() + keys.len(),
        forall|i: int|
            0 <= i < out.len() ==> #[trigger] exports_onto(arena, out, p, mi, keys, ns).1[i]
                == out[i],
    decreases keys.len(),
{
    if keys.len() > 0 {
        let (next, h) = export_entry(arena, p, mi, keys[0], ns);
        let one = Field { name: keys[0], ty: h };
        lemma_export_grows(arena, p, mi, keys[0], ns);
        lemma_exports_grows(next, out.push(one), p, mi, keys.skip(1), ns);
        let res = exports_onto(next, out.push(one), p, mi, keys.skip(1), ns);
        lemma_grows_trans(arena, next, res.0);
        assert forall|i: int| 0 <= i < out.len() implies #[trigger] res.1[i] == out[i] by {
            assert(out.push(one)[i] == out[i]);
        }
    }
}

/// The fields gathered for exports are the exports, each under its key
/// and with the descriptor of what is exported.
pub proof fn lemma_exports_denote(
    arena: Seq<DescrView>,
    out: Seq<Field>,
    p: Program,
    mi: int,
    keys: Seq<String>,
    ns: Namespace,
)
    requires
        0 <= mi < p.modules.len(),
        p.items(mi).len() <= usize::MAX,
        planned(p.modules) <= arena.len(),
        exports_onto(arena, out, p, mi, keys, ns).0.len() <= usize::MAX,
    ensures
        forall|i: int|
            0 <= i < keys.len() ==> (#[trigger] exports_onto(arena, out, p, mi, keys, ns).1[out.len()
                + i]).name == keys[i] && export_denotes(
                exports_onto(arena, out, p, mi, keys, ns).0,
                exports_onto(arena, out, p, mi, keys, ns).1[out.len() + i].ty,
                p,
                mi,
                keys[i],
                ns,
                planned(p.modules),
            ),
    decreases keys.len(),
{
    if keys.len() > 0 {
        let n0 = planned(p.modules);
        let (next, h) = export_entry(arena, p, mi, keys[0], ns);
        let one = Field { name: keys[0], ty: h };
        let rest = keys.skip(1);
        let res = exports_onto(next, out.push(one), p, mi, rest, ns);
        lemma_export_grows(arena, p, mi, keys[0], ns);
        lemma_exports_grows(next, out.push(one), p, mi, rest, ns);
        lemma_export_denotes(arena, p, mi, keys[0], ns);
        lemma_exports_denote(next, out.push(one), p, mi, rest, ns);
        lemma_grows_kept(next, res.0, n0);
        assert forall|i: int| 0 <= i < keys.len() implies (#[trigger] res.1[out.len() + i]).name
            == keys[i] && export_denotes(res.0, res.1[out.len() + i].ty, p, mi, keys[i], ns, n0) by {
            if i == 0 {
                assert(res.1[out.len() as int] == out.push(one)[out.len() as int]);
                lemma_export_denotes_kept(next, res.0, h, p, mi, keys[0], ns, n0);
            } else {
                assert(rest[i - 1] == keys[i]);
                assert(res.1[out.push(one).len() + (i - 1)] == res.1[out.len() + i]);
            }
        }
    }
}

/// Whether `fields` are the exports of module `mi` under `keys` in `ns`,
/// one by one.
pub open spec fn exports_denote(
    arena: Seq<DescrView>,
    fields: Seq<Field>,
    p: Program,
    mi: int,
    keys: Seq<String>,
    ns: Namespace,
    n0: nat,
) -> bool {
    &&& fields.len() == keys.len()
    &&& forall|k: int|
        0 <= k < fields.len() ==> (#[trigger] fields[k]).name == keys[k] && export_denotes(
            arena,
            fields[k].ty,
            p,
            mi,
            keys[k],
            ns,
            n0,
        )
}

/// Fields that are the exports of a module are so in an arena that keeps
/// the first.
pub proof fn lemma_exports_denote_kept(
    a: Seq<DescrView>,
    b: Seq<DescrView>,
    fields: Seq<Field>,
    p: Program,
    mi: int,
    keys: Seq<String>,
    ns: Namespace,
    n0: nat,
)
    requires
        kept(a, b, n0),
        exports_denote(a, fields, p, mi, keys, ns, n0),
    ensures
        exports_denote(b, fields, p, mi, keys, ns, n0),
{
    assert forall|k: int| 0 <= k < fields.len() implies (#[trigger] fields[k]).name == keys[k]
        && export_denotes(b, fields[k].ty, p, mi, keys[k], ns, n0) by {
        lemma_export_denotes_kept(a, b, fields[k].ty, p, mi, keys[k], ns, n0);
    }
}

/// Whether the typed node `node` is that of module `mi`: it has the path
/// of the module and, for each rooted export key of the module, in order,
/// the descriptor of what is exported there.
pub open spec fn node_ok(arena: Seq<DescrView>, node: TypedNodeView, p: Program, mi: int) -> bool {
    &&& node.path == p.graph.nodes[mi].path
    &&& exports_denote(
        arena,
        node.rooted_export_types,
        p,
        mi,
        p.graph.nodes[mi].rooted_export_types,
        Namespace::Type,
        planned(p.modules),
    )
    &&& exports_denote(
        arena,
        node.rooted_export_values,
        p,
        mi,
        p.graph.nodes[mi].rooted_export_values,
        Namespace::Value,
        planned(p.modules),
    )
}

/// The typed node of a module is added behind what the arena held.
pub proof fn lemma_typed_node_grows(arena: Seq<DescrView>, p: Program, mi: int)
    ensures
        grows(arena, typed_node(arena, p, mi).0),
{
    let node = p.graph.nodes[mi];
    let none = Seq::<Field>::empty();
    let (with_types, types) = exports_onto(
        arena,
        none,
        p,
        mi,
        node.rooted_export_types,
        Namespace::Type,
    );
    lemma_exports_grows(arena, none, p, mi, node.rooted_export_types, Namespace::Type);
    lemma_exports_grows(with_types, none, p, mi, node.rooted_export_values, Namespace::Value);
    lemma_grows_trans(arena, with_types, typed_node(arena, p, mi).0);
}

/// The typed node of a module holds the exports of the module.
pub proof fn lemma_typed_node_ok(arena: Seq<DescrView>, p: Program, mi: int)
    requires
        0 <= mi < p.modules.len(),
        p.items(mi).len() <= usize::MAX,
        planned(p.modules) <= arena.len(),
        typed_node(arena, p, mi).0.len() <= usize::MAX,
    ensures
        node_ok(typed_node(arena, p, mi).0, typed_node(arena, p, mi).1, p, mi),
{
    let n0 = planned(p.modules);
    let node = p.graph.nodes[mi];
    let none = Seq::<Field>::empty();
    let (with_types, types) = exports_onto(
        arena,
        none,
        p,
        mi,
        node.rooted_export_types,
        Namespace::Type,
    );
    let (with_values, values) = exports_onto(
        with_types,
        none,
        p,
        mi,
        node.rooted_export_values,
        Namespace::Value,
    );
    lemma_exports_grows(arena, none, p, mi, node.rooted_export_types, Namespace::Type);
    lemma_exports_grows(with_types, none, p, mi, node.rooted_export_values, Namespace::Value);
    lemma_exports_denote(arena, none, p, mi, node.rooted_export_types, Namespace::Type);
    lemma_exports_denote(with_types, none, p, mi, node.rooted_export_values, Namespace::Value);
    assert(exports_denote(
        with_types,
        types,
        p,
        mi,
        node.rooted_export_types,
        Namespace::Type,
        n0,
    )) by {
        assert forall|k: int| 0 <= k < types.len() implies (#[trigger] types[k]).name
            == node.rooted_export_types[k] && export_denotes(
            with_types,
            types[k].ty,
            p,
            mi,
            node.rooted_export_types[k],
            Namespace::Type,
            n0,
        ) by {
            assert(types[none.len() + k] == types[k]);
        }
    }
    assert(exports_denote(
        with_values,
        values,
        p,
        mi,
        node.rooted_export_values,
        Namespace::Value,
        n0,
    )) by {
        assert forall|k: int| 0 <= k < values.len() implies (#[trigger] values[k]).name
            == node.rooted_export_values[k] && export_denotes(
            with_values,
            values[k].ty,
            p,
            mi,
            node.rooted_export_values[k],
            Namespace::Value,
            n0,
        ) by {
            assert(values[none.len() + k] == values[k]);
        }
    }
    lemma_grows_kept(with_types, with_values, n0);
    lemma_exports_denote_kept(
        with_types,
        with_values,
        types,
        p,
        mi,
        node.rooted_export_types,
        Namespace::Type,
        n0,
    );
}

/// The typed nodes are added behind what the arena held, one for each
/// module.
pub proof fn lemma_typed_nodes_grows(arena: Seq<DescrView>, p: Program, n: int)
    requires
        0 <= n,
    ensures
        grows(arena, typed_nodes(arena, p, n).0),
        typed_nodes(arena, p, n).1.len() == n,
    decreases n,
{
    if n > 0 {
        let (before, nodes) = typed_nodes(arena, p, n - 1);
        lemma_typed_nodes_grows(arena, p, n - 1);
        lemma_typed_node_grows(before, p, n - 1);
        lemma_grows_trans(arena, before, typed_nodes(arena, p, n).0);
    }
}

/// Each typed node holds the exports of its module.
pub proof fn lemma_typed_nodes_ok(arena: Seq<DescrView>, p: Program, n: int, mi: int)
    requires
        0 <= mi < n <= p.modules.len(),
        forall|m: int| 0 <= m < p.modules.len() ==> (#[trigger] p.items(m)).len() <= usize::MAX,
        planned(p.modules) <= arena.len(),
        typed_nodes(arena, p, n).0.len() <= usize::MAX,
    ensures
        node_ok(typed_nodes(arena, p, n).0, typed_nodes(arena, p, n).1[mi], p, mi),
    decreases n,
{
    let n0 = planned(p.modules);
    let (before, nodes) = typed_nodes(arena, p, n - 1);
    let (after, node) = typed_node(before, p, n - 1);
    lemma_typed_nodes_grows(arena, p, n - 1);
    lemma_typed_node_grows(before, p, n - 1);
    assert(p.items(n - 1).len() <= usize::MAX);
    if mi == n - 1 {
        lemma_typed_node_ok(before, p, mi);
    } else {
        assert(p.items(mi).len() <= usize::MAX);
        lemma_typed_nodes_ok(arena, p, n - 1, mi);
        lemma_grows_kept(before, after, n0);
        let old_node = nodes[mi];
        lemma_exports_denote_kept(
            before,
            after,
            old_node.rooted_export_types,
            p,
            mi,
            p.graph.nodes[mi].rooted_export_types,
            Namespace::Type,
            n0,
        );
        lemma_exports_denote_kept(
            before,
            after,
            old_node.rooted_export_values,
            p,
            mi,
            p.graph.nodes[mi].rooted_export_values,
            Namespace::Value,
            n0,
        );
    }
}

/// Whether the modules of a program, and what they declare, can be
/// counted in a machine word.
pub open spec fn countable(p: Program) -> bool {
    &&& typed_of(p).arena.len() <= usize::MAX
    &&& forall|m: int| 0 <= m < p.modules.len() ==> (#[trigger] p.items(m)).len() <= usize::MAX
}

/// In the typed graph of a program, the positions kept for a class or an
/// interface hold what the declaration says: the descriptor is fixed by
/// the declaration, by the members of what it extends, and by what the
/// annotations of its members denote. Nothing else of the program bears on
/// it, nor the order in which the arena was filled.
pub proof fn lemma_typed_entry(p: Program, mi: int, ji: int)
    requires
        countable(p),
        in_range(p, mi, ji),
    ensures
        entry_ok(typed_of(p).arena, p, mi, ji, planned(p.modules)),
{
    let n0 = planned(p.modules);
    let count = p.modules.len() as int;
    let start = planned_arena(p.modules);
    let filled = filled_modules(start, p, count);
    let arena = typed_of(p).arena;
    lemma_filled_modules_keep(start, p, count);
    lemma_typed_nodes_grows(filled, p, count);
    lemma_filled_modules_entries(start, p, count, mi, ji);
    lemma_grows_kept(filled, arena, n0);
    lemma_slot_bound(p.modules, mi, ji);
    lemma_entry_stays(filled, arena, p, mi, ji);
}

/// In the typed graph of a program, the node of a module has the path of
/// the module and, for each rooted export key of the module and in the
/// order of the keys, the descriptor of what the module declares and
/// exports there.
pub proof fn lemma_typed_node(p: Program, mi: int)
    requires
        countable(p),
        0 <= mi < p.modules.len(),
    ensures
        typed_of(p).nodes.len() == p.modules.len(),
        node_ok(typed_of(p).arena, typed_of(p).nodes[mi], p, mi),
{
    let count = p.modules.len() as int;
    let start = planned_arena(p.modules);
    let filled = filled_modules(start, p, count);
    lemma_filled_modules_keep(start, p, count);
    lemma_typed_nodes_grows(filled, p, count);
    lemma_typed_nodes_ok(filled, p, count, mi);
}

/// A class that a module declares and exports under one key has two
/// entries of its own: as a type, the descriptor of the class; as a value,
/// the descriptor of its constructor, a function that returns the class.
pub proof fn lemma_class_is_type_and_value(p: Program, mi: int, ji: int, kt: int, kv: int)
    requires
        countable(p),
        in_range(p, mi, ji),
        decl_of(p.items(mi)[ji]) matches Some(Decl::Class(_)),
        0 <= kt < p.graph.nodes[mi].rooted_export_types.len(),
        0 <= kv < p.graph.nodes[mi].rooted_export_values.len(),
        rooted_decl(p.items(mi), p.graph.nodes[mi].rooted_export_types[kt]@, Namespace::Type, 0)
            matches Some(d) && d.item == ji,
        rooted_decl(p.items(mi), p.graph.nodes[mi].rooted_export_values[kv]@, Namespace::Value, 0)
            matches Some(d) && d.item == ji,
    ensures
        typed_of(p).nodes[mi].rooted_export_types[kt].ty == slot_of(p.modules, mi, ji),
        typed_of(p).nodes[mi].rooted_export_values[kv].ty == slot_of(p.modules, mi, ji) + 1,
        typed_of(p).arena[slot_of(p.modules, mi, ji) as int] is Class,
        typed_of(p).arena[slot_of(p.modules, mi, ji) as int + 1] is Fn,
{
    lemma_typed_entry(p, mi, ji);
    lemma_typed_node(p, mi);
    let node = typed_of(p).nodes[mi];
    assert(node.rooted_export_types[kt].name == p.graph.nodes[mi].rooted_export_types[kt]);
    assert(node.rooted_export_values[kv].name == p.graph.nodes[mi].rooted_export_values[kv]);
}


/// An annotation that names a class or an interface denotes the position
/// kept for that declaration, whatever was met on the way: a type that
/// refers to itself, directly or through other types, does so by position,
/// and nothing is unfolded.
pub proof fn lemma_reference_is_a_position(p: Program, mi: int, ann: TypeAnn, visited: Seq<Place>)
    requires
        ann.base is Ref,
        type_ref(p, mi, ann.base->Ref_0@) is Some,
        ({
            let r = type_ref(p, mi, ann.base->Ref_0@)->Some_0;
            p.decl(r.0 as int, r.1.item as int) matches Some(d) && (d is Class || d is TsInterface)
        }),
    ensures
        ({
            let r = type_ref(p, mi, ann.base->Ref_0@)->Some_0;
            resolve_ann(p, mi, ann, visited) == (Resolved {
                base: slot_of(p.modules, r.0 as int, r.1.item as int) as usize,
                rank: ann.rank,
            })
        }),
{
}


} // verus!
