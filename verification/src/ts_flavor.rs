//! Flavors: which features of the language a typed graph uses, and
//! whether a target that supports only some features can take it.

use vstd::prelude::*;

use crate::ast::PrimitiveKind;
use crate::type_structs::{children, primitive_slot, DescrView, Field, Handle, TypeDescr, TypedModuleGraph, TypedNodeView, TypedView};

verus! {

/// A feature that a typed graph may use.
#[derive(Debug, Clone, Copy, PartialEq, Eq, Structural)]
pub enum Feature {
    Function,
    Class,
    Interface,
    Array,
    Primitive(PrimitiveKind),
}

/// A set of features.
#[derive(Debug, Clone, Copy, PartialEq, Eq, Structural)]
pub struct FeatureSet {
    pub function: bool,
    pub class: bool,
    pub interface: bool,
    pub array: bool,
    pub boolean: bool,
    pub number: bool,
    pub string: bool,
    pub void: bool,
    pub object: bool,
    pub any: bool,
    pub never: bool,
}

impl FeatureSet {
    /// Whether `f` is in the set.
    pub open spec fn has(self, f: Feature) -> bool {
        match f {
            Feature::Function => self.function,
            Feature::Class => self.class,
            Feature::Interface => self.interface,
            Feature::Array => self.array,
            Feature::Primitive(PrimitiveKind::Boolean) => self.boolean,
            Feature::Primitive(PrimitiveKind::Number) => self.number,
            Feature::Primitive(PrimitiveKind::String) => self.string,
            Feature::Primitive(PrimitiveKind::Void) => self.void,
            Feature::Primitive(PrimitiveKind::Object) => self.object,
            Feature::Primitive(PrimitiveKind::Any) => self.any,
            Feature::Primitive(PrimitiveKind::Never) => self.never,
        }
    }

    /// Whether `f` is in the set.
    pub fn contains(&self, f: Feature) -> (r: bool)
        ensures
            r == self.has(f),
    {
        match f {
            Feature::Function => self.function,
            Feature::Class => self.class,
            Feature::Interface => self.interface,
            Feature::Array => self.array,
            Feature::Primitive(PrimitiveKind::Boolean) => self.boolean,
            Feature::Primitive(PrimitiveKind::Number) => self.number,
            Feature::Primitive(PrimitiveKind::String) => self.string,
            Feature::Primitive(PrimitiveKind::Void) => self.void,
            Feature::Primitive(PrimitiveKind::Object) => self.object,
            Feature::Primitive(PrimitiveKind::Any) => self.any,
            Feature::Primitive(PrimitiveKind::Never) => self.never,
        }
    }

    /// The set without features.
    pub fn empty() -> (r: Self)
        ensures
            forall|f: Feature| !r.has(f),
    {
        FeatureSet {
            function: false,
            class: false,
            interface: false,
            array: false,
            boolean: false,
            number: false,
            string: false,
            void: false,
            object: false,
            any: false,
            never: false,
        }
    }

    /// The set of all features.
    pub fn all() -> (r: Self)
        ensures
            forall|f: Feature| r.has(f),
    {
        FeatureSet {
            function: true,
            class: true,
            interface: true,
            array: true,
            boolean: true,
            number: true,
            string: true,
            void: true,
            object: true,
            any: true,
            never: true,
        }
    }
}

/// A target of binding generation, by the features it can take.
#[derive(Debug, Clone, Copy, PartialEq, Eq, Structural)]
pub enum TsFlavor {
    /// Functions over numbers.
    TsNum,
    /// Every feature.
    TsFull,
    /// The features given.
    TsCustom(FeatureSet),
}

impl TsFlavor {
    /// The features that the flavor supports.
    pub open spec fn supported(self) -> FeatureSet {
        match self {
            TsFlavor::TsNum => FeatureSet {
                function: true,
                class: false,
                interface: false,
                array: false,
                boolean: false,
                number: true,
                string: false,
                void: true,
                object: false,
                any: false,
                never: false,
            },
            TsFlavor::TsFull => FeatureSet {
                function: true,
                class: true,
                interface: true,
                array: true,
                boolean: true,
                number: true,
                string: true,
                void: true,
                object: true,
                any: true,
                never: true,
            },
            TsFlavor::TsCustom(set) => set,
        }
    }

    /// The features that the flavor supports.
    pub fn features(&self) -> (r: FeatureSet)
        ensures
            r == self.supported(),
    {
        match self {
            TsFlavor::TsNum => FeatureSet {
                function: true,
                class: false,
                interface: false,
                array: false,
                boolean: false,
                number: true,
                string: false,
                void: true,
                object: false,
                any: false,
                never: false,
            },
            TsFlavor::TsFull => FeatureSet {
                function: true,
                class: true,
                interface: true,
                array: true,
                boolean: true,
                number: true,
                string: true,
                void: true,
                object: true,
                any: true,
                never: true,
            },
            TsFlavor::TsCustom(set) => *set,
        }
    }
}

/// Whether the descriptor at `h` is named: by a descriptor of the arena
/// or as the type of a rooted export of a module.
pub open spec fn named(t: TypedView, h: Handle) -> bool {
    ||| exists|i: int, j: int|
        0 <= i < t.arena.len() && 0 <= j < children(t.arena[i]).len() && #[trigger] children(
            t.arena[i],
        )[j] == h
    ||| exists|m: int, j: int|
        0 <= m < t.nodes.len() && 0 <= j < t.nodes[m].rooted_export_types.len()
            && #[trigger] t.nodes[m].rooted_export_types[j].ty == h
    ||| exists|m: int, j: int|
        0 <= m < t.nodes.len() && 0 <= j < t.nodes[m].rooted_export_values.len()
            && #[trigger] t.nodes[m].rooted_export_values[j].ty == h
}

/// Whether a typed graph uses the feature `f`: functions, classes,
/// interfaces and arrays are used where the arena holds a descriptor of
/// that kind; a built-in type is used where its descriptor is named.
pub open spec fn uses(t: TypedView, f: Feature) -> bool {
    match f {
        Feature::Function => exists|i: int| 0 <= i < t.arena.len() && #[trigger] t.arena[i] is Fn,
        Feature::Class => exists|i: int| 0 <= i < t.arena.len() && #[trigger] t.arena[i] is Class,
        Feature::Interface => exists|i: int|
            0 <= i < t.arena.len() && #[trigger] t.arena[i] is Interface,
        Feature::Array => exists|i: int| 0 <= i < t.arena.len() && #[trigger] t.arena[i] is Array,
        Feature::Primitive(kind) => named(t, primitive_slot(kind)),
    }
}

/// The features that a typed graph uses.
pub open spec fn features_of(t: TypedView) -> FeatureSet {
    FeatureSet {
        function: uses(t, Feature::Function),
        class: uses(t, Feature::Class),
        interface: uses(t, Feature::Interface),
        array: uses(t, Feature::Array),
        boolean: uses(t, Feature::Primitive(PrimitiveKind::Boolean)),
        number: uses(t, Feature::Primitive(PrimitiveKind::Number)),
        string: uses(t, Feature::Primitive(PrimitiveKind::String)),
        void: uses(t, Feature::Primitive(PrimitiveKind::Void)),
        object: uses(t, Feature::Primitive(PrimitiveKind::Object)),
        any: uses(t, Feature::Primitive(PrimitiveKind::Any)),
        never: uses(t, Feature::Primitive(PrimitiveKind::Never)),
    }
}

/// Whether `seen` tells for each of the seven built-in types whether one
/// of `handles` names it.
pub open spec fn marks(seen: Seq<bool>, handles: Set<Handle>) -> bool {
    &&& seen.len() == 7
    &&& forall|s: int| 0 <= s < 7 ==> (#[trigger] seen[s] <==> handles.contains(s as usize))
}

/// Marks the built-in type that `h` names, if it names one.
fn mark(seen: &mut Vec<bool>, h: Handle, Ghost(handles): Ghost<Set<Handle>>)
    requires
        marks(old(seen)@, handles),
    ensures
        marks(final(seen)@, handles.insert(h)),
{
    if h < 7 {
        seen.set(h, true);
    }
}

/// `handles`, with the types of the first `n` of `fields`.
pub open spec fn with_fields(handles: Set<Handle>, fields: Seq<Field>, n: int) -> Set<Handle> {
    handles.union(Set::new(|h: Handle| exists|j: int| 0 <= j < n && #[trigger] fields[j].ty == h))
}

/// Marks the built-in types that the types of `fields` name.
fn mark_fields(seen: &mut Vec<bool>, fields: &Vec<Field>, Ghost(handles): Ghost<Set<Handle>>)
    requires
        marks(old(seen)@, handles),
    ensures
        marks(final(seen)@, with_fields(handles, fields@, fields@.len() as int)),
{
    assert(with_fields(handles, fields@, 0) =~= handles);
    let mut j: usize = 0;
    while j < fields.len()
        invariant
            j <= fields@.len(),
            marks(seen@, with_fields(handles, fields@, j as int)),
        decreases fields@.len() - j,
    {
        mark(seen, fields[j].ty, Ghost(with_fields(handles, fields@, j as int)));
        assert(with_fields(handles, fields@, j as int).insert(fields@[j as int].ty)
            =~= with_fields(handles, fields@, j as int + 1));
        j += 1;
    }
}

/// `handles`, with the first `n` of `more`.
pub open spec fn with_handles(handles: Set<Handle>, more: Seq<Handle>, n: int) -> Set<Handle> {
    handles.union(Set::new(|h: Handle| exists|j: int| 0 <= j < n && #[trigger] more[j] == h))
}

/// Marks the built-in types that `more` name.
fn mark_handles(seen: &mut Vec<bool>, more: &Vec<Handle>, Ghost(handles): Ghost<Set<Handle>>)
    requires
        marks(old(seen)@, handles),
    ensures
        marks(final(seen)@, with_handles(handles, more@, more@.len() as int)),
{
    assert(with_handles(handles, more@, 0) =~= handles);
    let mut j: usize = 0;
    while j < more.len()
        invariant
            j <= more@.len(),
            marks(seen@, with_handles(handles, more@, j as int)),
        decreases more@.len() - j,
    {
        mark(seen, more[j], Ghost(with_handles(handles, more@, j as int)));
        assert(with_handles(handles, more@, j as int).insert(more@[j as int]) =~= with_handles(
            handles,
            more@,
            j as int + 1,
        ));
        j += 1;
    }
}

/// The descriptors that the first `n` descriptors of the arena name.
pub open spec fn named_by_arena(arena: Seq<DescrView>, n: int) -> Set<Handle> {
    Set::new(
        |h: Handle|
            exists|i: int, j: int|
                0 <= i < n && 0 <= j < children(arena[i]).len() && #[trigger] children(
                    arena[i],
                )[j] == h,
    )
}

/// The descriptors that the rooted exports of the first `n` modules name.
pub open spec fn named_by_nodes(nodes: Seq<TypedNodeView>, n: int) -> Set<Handle> {
    Set::new(
        |h: Handle|
            (exists|m: int, j: int|
                0 <= m < n && 0 <= j < nodes[m].rooted_export_types.len()
                    && #[trigger] nodes[m].rooted_export_types[j].ty == h) || (exists|
                m: int,
                j: int,
            |
                0 <= m < n && 0 <= j < nodes[m].rooted_export_values.len()
                    && #[trigger] nodes[m].rooted_export_values[j].ty == h),
    )
}

/// Marks the built-in types that the descriptor `d` names.
fn mark_children(seen: &mut Vec<bool>, d: &TypeDescr, Ghost(handles): Ghost<Set<Handle>>)
    requires
        marks(old(seen)@, handles),
    ensures
        marks(
            final(seen)@,
            handles.union(
                Set::new(
                    |h: Handle|
                        exists|j: int| 0 <= j < children(d@).len() && #[trigger] children(d@)[j] == h,
                ),
            ),
        ),
{
    let ghost want = handles.union(
        Set::new(
            |h: Handle| exists|j: int| 0 <= j < children(d@).len() && #[trigger] children(d@)[j] == h,
        ),
    );
    match d {
        TypeDescr::Primitive(_) => {
            assert(want =~= handles);
        },
        TypeDescr::Array { elem, .. } => {
            mark(seen, *elem, Ghost(handles));
            assert(children(d@)[0] == *elem);
            assert(want =~= handles.insert(*elem));
        },
        TypeDescr::Fn { params, ret, .. } => {
            mark_handles(seen, params, Ghost(handles));
            let ghost mid = with_handles(handles, params@, params@.len() as int);
            match ret {
                Some(r) => {
                    mark(seen, *r, Ghost(mid));
                    assert(children(d@)[params@.len() as int] == *r);
                    assert forall|h: Handle| want.contains(h) <==> mid.insert(*r).contains(h) by {
                        if mid.contains(h) && !handles.contains(h) {
                            let j = choose|j: int| 0 <= j < params@.len() && params@[j] == h;
                            assert(children(d@)[j] == h);
                        }
                    }
                    assert(want =~= mid.insert(*r));
                },
                None => {
                    assert(want =~= mid);
                },
            }
        },
        TypeDescr::Class { constructor, fields, .. } => {
            mark(seen, *constructor, Ghost(handles));
            let ghost first = handles.insert(*constructor);
            mark_fields(seen, fields, Ghost(first));
            let ghost got = with_fields(first, fields@, fields@.len() as int);
            assert(children(d@)[0] == *constructor);
            assert forall|h: Handle| want.contains(h) <==> got.contains(h) by {
                if got.contains(h) && !first.contains(h) {
                    let j = choose|j: int| 0 <= j < fields@.len() && fields@[j].ty == h;
                    assert(children(d@)[j + 1] == h);
                }
                if want.contains(h) && !handles.contains(h) {
                    let j = choose|j: int| 0 <= j < children(d@).len() && children(d@)[j] == h;
                    if j > 0 {
                        assert(fields@[j - 1].ty == h);
                    }
                }
            }
            assert(want =~= got);
        },
        TypeDescr::Interface { fields, .. } => {
            mark_fields(seen, fields, Ghost(handles));
            let ghost got = with_fields(handles, fields@, fields@.len() as int);
            assert forall|h: Handle| want.contains(h) <==> got.contains(h) by {
                if got.contains(h) && !handles.contains(h) {
                    let j = choose|j: int| 0 <= j < fields@.len() && fields@[j].ty == h;
                    assert(children(d@)[j] == h);
                }
                if want.contains(h) && !handles.contains(h) {
                    let j = choose|j: int| 0 <= j < children(d@).len() && children(d@)[j] == h;
                    assert(fields@[j].ty == h);
                }
            }
            assert(want =~= got);
        },
    }
}

/// Records the features that a typed graph uses.
pub fn detect(typed: &TypedModuleGraph) -> (r: FeatureSet)
    ensures
        r == features_of(typed@),
        forall|f: Feature| r.has(f) <==> uses(typed@, f),
{
    let ghost t = typed@;
    let mut function = false;
    let mut class = false;
    let mut interface = false;
    let mut array = false;
    let mut seen: Vec<bool> = Vec::new();
    seen.push(false);
    seen.push(false);
    seen.push(false);
    seen.push(false);
    seen.push(false);
    seen.push(false);
    seen.push(false);
    assert(marks(seen@, named_by_arena(t.arena, 0)));
    let mut i: usize = 0;
    while i < typed.arena.len()
        invariant
            t == typed@,
            i <= typed.arena@.len(),
            function <==> exists|k: int| 0 <= k < i && #[trigger] t.arena[k] is Fn,
            class <==> exists|k: int| 0 <= k < i && #[trigger] t.arena[k] is Class,
            interface <==> exists|k: int| 0 <= k < i && #[trigger] t.arena[k] is Interface,
            array <==> exists|k: int| 0 <= k < i && #[trigger] t.arena[k] is Array,
            marks(seen@, named_by_arena(t.arena, i as int)),
        decreases typed.arena@.len() - i,
    {
        let d = &typed.arena[i];
        assert(d@ == t.arena[i as int]);
        match d {
            TypeDescr::Fn { .. } => {
                function = true;
            },
            TypeDescr::Class { .. } => {
                class = true;
            },
            TypeDescr::Interface { .. } => {
                interface = true;
            },
            TypeDescr::Array { .. } => {
                array = true;
            },
            TypeDescr::Primitive(_) => {},
        }
        mark_children(&mut seen, d, Ghost(named_by_arena(t.arena, i as int)));
        assert(named_by_arena(t.arena, i as int).union(
            Set::new(
                |h: Handle|
                    exists|j: int| 0 <= j < children(d@).len() && #[trigger] children(d@)[j] == h,
            ),
        ) =~= named_by_arena(t.arena, i as int + 1));
        i += 1;
    }
    let ghost by_arena = named_by_arena(t.arena, t.arena.len() as int);
    assert(by_arena.union(named_by_nodes(t.nodes, 0)) =~= by_arena);
    let mut m: usize = 0;
    while m < typed.nodes.len()
        invariant
            t == typed@,
            by_arena == named_by_arena(t.arena, t.arena.len() as int),
            m <= typed.nodes@.len(),
            marks(seen@, by_arena.union(named_by_nodes(t.nodes, m as int))),
        decreases typed.nodes@.len() - m,
    {
        let node = &typed.nodes[m];
        assert(node@ == t.nodes[m as int]);
        let ghost before = by_arena.union(named_by_nodes(t.nodes, m as int));
        mark_fields(&mut seen, &node.rooted_export_types, Ghost(before));
        let ghost mid = with_fields(
            before,
            node.rooted_export_types@,
            node.rooted_export_types@.len() as int,
        );
        mark_fields(&mut seen, &node.rooted_export_values, Ghost(mid));
        proof {
            let types = node.rooted_export_types@;
            let values = node.rooted_export_values@;
            let after = with_fields(mid, values, values.len() as int);
            let want = by_arena.union(named_by_nodes(t.nodes, m as int + 1));
            assert forall|h: Handle| after.contains(h) <==> want.contains(h) by {
                if after.contains(h) {
                    if exists|j: int| 0 <= j < values.len() && #[trigger] values[j].ty == h {
                        let j = choose|j: int| 0 <= j < values.len() && #[trigger] values[j].ty == h;
                        assert(t.nodes[m as int].rooted_export_values[j].ty == h);
                    } else if exists|j: int| 0 <= j < types.len() && #[trigger] types[j].ty == h {
                        let j = choose|j: int| 0 <= j < types.len() && #[trigger] types[j].ty == h;
                        assert(t.nodes[m as int].rooted_export_types[j].ty == h);
                    } else {
                        assert(before.contains(h));
                        if !by_arena.contains(h) {
                            assert(named_by_nodes(t.nodes, m as int).contains(h));
                            if exists|mm: int, j: int|
                                0 <= mm < m && 0 <= j < t.nodes[mm].rooted_export_types.len()
                                    && #[trigger] t.nodes[mm].rooted_export_types[j].ty == h {
                                let (mm, j) = choose|mm: int, j: int|
                                    0 <= mm < m && 0 <= j < t.nodes[mm].rooted_export_types.len()
                                        && #[trigger] t.nodes[mm].rooted_export_types[j].ty == h;
                                assert(t.nodes[mm].rooted_export_types[j].ty == h);
                            } else {
                                let (mm, j) = choose|mm: int, j: int|
                                    0 <= mm < m && 0 <= j < t.nodes[mm].rooted_export_values.len()
                                        && #[trigger] t.nodes[mm].rooted_export_values[j].ty == h;
                                assert(t.nodes[mm].rooted_export_values[j].ty == h);
                            }
                        }
                    }
                }
                if want.contains(h) && !by_arena.contains(h) {
                    if exists|mm: int, j: int|
                        0 <= mm < m + 1 && 0 <= j < t.nodes[mm].rooted_export_types.len()
                            && #[trigger] t.nodes[mm].rooted_export_types[j].ty == h {
                        let (mm, j) = choose|mm: int, j: int|
                            0 <= mm < m + 1 && 0 <= j < t.nodes[mm].rooted_export_types.len()
                                && #[trigger] t.nodes[mm].rooted_export_types[j].ty == h;
                        if mm < m {
                            assert(named_by_nodes(t.nodes, m as int).contains(h));
                        } else {
                            assert(types[j].ty == h);
                        }
                    } else {
                        let (mm, j) = choose|mm: int, j: int|
                            0 <= mm < m + 1 && 0 <= j < t.nodes[mm].rooted_export_values.len()
                                && #[trigger] t.nodes[mm].rooted_export_values[j].ty == h;
                        if mm < m {
                            assert(named_by_nodes(t.nodes, m as int).contains(h));
                        } else {
                            assert(values[j].ty == h);
                        }
                    }
                }
            }
            assert(after =~= want);
        }
        m += 1;
    }
    let r = FeatureSet {
        function,
        class,
        interface,
        array,
        boolean: seen[0],
        number: seen[1],
        string: seen[2],
        void: seen[3],
        object: seen[4],
        any: seen[5],
        never: seen[6],
    };
    proof {
        let all = by_arena.union(named_by_nodes(t.nodes, t.nodes.len() as int));
        assert forall|h: Handle| all.contains(h) <==> named(t, h) by {}
        assert forall|f: Feature| #[trigger] r.has(f) <==> uses(t, f) by {
            match f {
                Feature::Primitive(kind) => {
                    assert(seen@[primitive_slot(kind) as int] <==> all.contains(
                        primitive_slot(kind),
                    ));
                },
                _ => {},
            }
        }
        assert(r.has(Feature::Function) <==> uses(t, Feature::Function));
        assert(r.has(Feature::Class) <==> uses(t, Feature::Class));
        assert(r.has(Feature::Interface) <==> uses(t, Feature::Interface));
        assert(r.has(Feature::Array) <==> uses(t, Feature::Array));
        assert(r.has(Feature::Primitive(PrimitiveKind::Boolean)) <==> uses(
            t,
            Feature::Primitive(PrimitiveKind::Boolean),
        ));
        assert(r.has(Feature::Primitive(PrimitiveKind::Number)) <==> uses(
            t,
            Feature::Primitive(PrimitiveKind::Number),
        ));
        assert(r.has(Feature::Primitive(PrimitiveKind::String)) <==> uses(
            t,
            Feature::Primitive(PrimitiveKind::String),
        ));
        assert(r.has(Feature::Primitive(PrimitiveKind::Void)) <==> uses(
            t,
            Feature::Primitive(PrimitiveKind::Void),
        ));
        assert(r.has(Feature::Primitive(PrimitiveKind::Object)) <==> uses(
            t,
            Feature::Primitive(PrimitiveKind::Object),
        ));
        assert(r.has(Feature::Primitive(PrimitiveKind::Any)) <==> uses(
            t,
            Feature::Primitive(PrimitiveKind::Any),
        ));
        assert(r.has(Feature::Primitive(PrimitiveKind::Never)) <==> uses(
            t,
            Feature::Primitive(PrimitiveKind::Never),
        ));
    }
    r
}

/// The features in their fixed order.
pub open spec fn all_features() -> Seq<Feature> {
    seq![
        Feature::Function,
        Feature::Class,
        Feature::Interface,
        Feature::Array,
        Feature::Primitive(PrimitiveKind::Boolean),
        Feature::Primitive(PrimitiveKind::Number),
        Feature::Primitive(PrimitiveKind::String),
        Feature::Primitive(PrimitiveKind::Void),
        Feature::Primitive(PrimitiveKind::Object),
        Feature::Primitive(PrimitiveKind::Any),
        Feature::Primitive(PrimitiveKind::Never),
    ]
}

/// The first `n` features, in their fixed order, that `detected` holds and
/// `target` lacks.
pub open spec fn missing_upto(detected: FeatureSet, target: FeatureSet, n: int) -> Seq<Feature>
    decreases n,
{
    if n <= 0 {
        Seq::empty()
    } else {
        let f = all_features()[n - 1];
        if detected.has(f) && !target.has(f) {
            missing_upto(detected, target, n - 1).push(f)
        } else {
            missing_upto(detected, target, n - 1)
        }
    }
}

/// The features that `detected` holds and `target` lacks, in the fixed
/// order of the features.
pub open spec fn missing(detected: FeatureSet, target: FeatureSet) -> Seq<Feature> {
    missing_upto(detected, target, 11)
}

/// The features in their fixed order.
fn feature_list() -> (r: Vec<Feature>)
    ensures
        r@ == all_features(),
{
    let mut list: Vec<Feature> = Vec::new();
    list.push(Feature::Function);
    list.push(Feature::Class);
    list.push(Feature::Interface);
    list.push(Feature::Array);
    list.push(Feature::Primitive(PrimitiveKind::Boolean));
    list.push(Feature::Primitive(PrimitiveKind::Number));
    list.push(Feature::Primitive(PrimitiveKind::String));
    list.push(Feature::Primitive(PrimitiveKind::Void));
    list.push(Feature::Primitive(PrimitiveKind::Object));
    list.push(Feature::Primitive(PrimitiveKind::Any));
    list.push(Feature::Primitive(PrimitiveKind::Never));
    assert(list@ =~= all_features());
    list
}

/// Whether a target that supports `target` can take a graph that uses
/// `detected`: the features that are used and not supported are the
/// errors.
pub fn compatible(detected: &FeatureSet, target: &FeatureSet) -> (r: Result<(), Vec<Feature>>)
    ensures
        match r {
            Ok(()) => missing(*detected, *target).len() == 0,
            Err(errors) => errors@ == missing(*detected, *target) && errors@.len() > 0,
        },
{
    let list = feature_list();
    let mut errors: Vec<Feature> = Vec::new();
    let mut i: usize = 0;
    while i < list.len()
        invariant
            list@ == all_features(),
            i <= 11,
            errors@ == missing_upto(*detected, *target, i as int),
        decreases 11 - i,
    {
        let f = list[i];
        if detected.contains(f) && !target.contains(f) {
            errors.push(f);
        }
        i += 1;
    }
    if errors.len() == 0 {
        Ok(())
    } else {
        Err(errors)
    }
}

/// The errors are exactly the features that are used and not supported.
pub proof fn lemma_missing_is_difference(detected: FeatureSet, target: FeatureSet, f: Feature)
    ensures
        missing(detected, target).contains(f) <==> detected.has(f) && !target.has(f),
{
    reveal_with_fuel(missing_upto, 12);
    let m = missing(detected, target);
    if detected.has(f) && !target.has(f) {
        lemma_missing_holds(detected, target, f, 11);
    }
    if m.contains(f) {
        lemma_missing_only(detected, target, f, 11);
    }
}

/// A feature that is used and not supported is among the errors.
proof fn lemma_missing_holds(detected: FeatureSet, target: FeatureSet, f: Feature, n: int)
    requires
        0 <= n <= 11,
        detected.has(f) && !target.has(f),
        exists|k: int| 0 <= k < n && all_features()[k] == f,
    ensures
        missing_upto(detected, target, n).contains(f),
    decreases n,
{
    let k = choose|k: int| 0 <= k < n && all_features()[k] == f;
    if k == n - 1 {
        let s = missing_upto(detected, target, n - 1).push(f);
        assert(s[s.len() - 1] == f);
    } else {
        lemma_missing_holds(detected, target, f, n - 1);
        let prev = missing_upto(detected, target, n - 1);
        let j = choose|j: int| 0 <= j < prev.len() && prev[j] == f;
        let g = all_features()[n - 1];
        if detected.has(g) && !target.has(g) {
            assert(prev.push(g)[j] == f);
        }
    }
}

/// Every error is a feature that is used and not supported.
proof fn lemma_missing_only(detected: FeatureSet, target: FeatureSet, f: Feature, n: int)
    requires
        0 <= n <= 11,
        missing_upto(detected, target, n).contains(f),
    ensures
        detected.has(f) && !target.has(f),
    decreases n,
{
    if n > 0 {
        let prev = missing_upto(detected, target, n - 1);
        let g = all_features()[n - 1];
        let cur = missing_upto(detected, target, n);
        let j = choose|j: int| 0 <= j < cur.len() && cur[j] == f;
        if detected.has(g) && !target.has(g) {
            if j < prev.len() {
                assert(prev[j] == f);
                lemma_missing_only(detected, target, f, n - 1);
            }
        } else {
            lemma_missing_only(detected, target, f, n - 1);
        }
    }
}

} // verus!
