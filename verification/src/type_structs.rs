//! Type descriptors and the typed module graph. Descriptors live in an
//! arena and name each other by their position in it, so that types that
//! refer to each other need no ownership cycle.

use vstd::prelude::*;

use crate::ast::PrimitiveKind;
use crate::bind_graph_init::Export;
use crate::structures::CanonPath;

verus! {

/// A position in the arena of descriptors.
pub type Handle = usize;

/// A named member of a class or an interface, or a named export, with the
/// descriptor of its type.
#[derive(Debug, Clone, PartialEq, Eq)]
pub struct Field {
    pub name: String,
    pub ty: Handle,
}

/// The description of a type.
#[derive(Debug, Clone, PartialEq, Eq)]
pub enum TypeDescr {
    Primitive(PrimitiveKind),
    /// `rank` levels of arrays over an element that is no array itself.
    Array { elem: Handle, rank: u64 },
    Fn { origin: CanonPath, params: Vec<Handle>, ret: Option<Handle> },
    Class { name: String, origin: CanonPath, constructor: Handle, fields: Vec<Field> },
    Interface { origin: CanonPath, fields: Vec<Field> },
}

/// A descriptor, as contracts see it.
pub enum DescrView {
    Primitive(PrimitiveKind),
    Array { elem: Handle, rank: u64 },
    Fn { origin: CanonPath, params: Seq<Handle>, ret: Option<Handle> },
    Class { name: String, origin: CanonPath, constructor: Handle, fields: Seq<Field> },
    Interface { origin: CanonPath, fields: Seq<Field> },
}

impl View for TypeDescr {
    type V = DescrView;

    open spec fn view(&self) -> DescrView {
        match *self {
            TypeDescr::Primitive(kind) => DescrView::Primitive(kind),
            TypeDescr::Array { elem, rank } => DescrView::Array { elem, rank },
            TypeDescr::Fn { origin, params, ret } => DescrView::Fn {
                origin,
                params: params@,
                ret,
            },
            TypeDescr::Class { name, origin, constructor, fields } => DescrView::Class {
                name,
                origin,
                constructor,
                fields: fields@,
            },
            TypeDescr::Interface { origin, fields } => DescrView::Interface {
                origin,
                fields: fields@,
            },
        }
    }
}

/// The descriptors of an arena, as contracts see them.
pub open spec fn arena_view(arena: Seq<TypeDescr>) -> Seq<DescrView> {
    Seq::new(arena.len(), |i: int| arena[i]@)
}

/// The position of the descriptor of a built-in type: the arena of a typed
/// graph starts with the seven of them.
pub open spec fn primitive_slot(kind: PrimitiveKind) -> Handle {
    match kind {
        PrimitiveKind::Boolean => 0,
        PrimitiveKind::Number => 1,
        PrimitiveKind::String => 2,
        PrimitiveKind::Void => 3,
        PrimitiveKind::Object => 4,
        PrimitiveKind::Any => 5,
        PrimitiveKind::Never => 6,
    }
}

/// The descriptors of the built-in types, in the order of their positions.
pub open spec fn primitives() -> Seq<DescrView> {
    seq![
        DescrView::Primitive(PrimitiveKind::Boolean),
        DescrView::Primitive(PrimitiveKind::Number),
        DescrView::Primitive(PrimitiveKind::String),
        DescrView::Primitive(PrimitiveKind::Void),
        DescrView::Primitive(PrimitiveKind::Object),
        DescrView::Primitive(PrimitiveKind::Any),
        DescrView::Primitive(PrimitiveKind::Never),
    ]
}

/// The position of the descriptor of a built-in type.
pub fn primitive_handle(kind: PrimitiveKind) -> (h: Handle)
    ensures
        h == primitive_slot(kind),
        h < 7,
{
    match kind {
        PrimitiveKind::Boolean => 0,
        PrimitiveKind::Number => 1,
        PrimitiveKind::String => 2,
        PrimitiveKind::Void => 3,
        PrimitiveKind::Object => 4,
        PrimitiveKind::Any => 5,
        PrimitiveKind::Never => 6,
    }
}

/// A module of the typed graph: its path and, for each export key that it
/// declares itself, the descriptor of what it exports there.
#[derive(Debug, PartialEq, Eq)]
pub struct TypedModuleNode {
    pub path: CanonPath,
    pub rooted_export_types: Vec<Field>,
    pub rooted_export_values: Vec<Field>,
}

/// A module of the typed graph, as contracts see it.
pub struct TypedNodeView {
    pub path: CanonPath,
    pub rooted_export_types: Seq<Field>,
    pub rooted_export_values: Seq<Field>,
}

impl View for TypedModuleNode {
    type V = TypedNodeView;

    open spec fn view(&self) -> TypedNodeView {
        TypedNodeView {
            path: self.path,
            rooted_export_types: self.rooted_export_types@,
            rooted_export_values: self.rooted_export_values@,
        }
    }
}

/// The typed module graph: the modules with the descriptors of their
/// rooted exports, the reduced export edges, and the arena that the
/// descriptors live in.
#[derive(Debug, PartialEq, Eq)]
pub struct TypedModuleGraph {
    pub nodes: Vec<TypedModuleNode>,
    pub export_edges: Vec<Vec<Export>>,
    pub arena: Vec<TypeDescr>,
}

/// A typed module graph, as contracts see it.
pub struct TypedView {
    pub nodes: Seq<TypedNodeView>,
    pub export_edges: Seq<Seq<Export>>,
    pub arena: Seq<DescrView>,
}

impl View for TypedModuleGraph {
    type V = TypedView;

    open spec fn view(&self) -> TypedView {
        TypedView {
            nodes: Seq::new(self.nodes@.len(), |i: int| self.nodes@[i]@),
            export_edges: Seq::new(self.export_edges@.len(), |i: int| self.export_edges@[i]@),
            arena: arena_view(self.arena@),
        }
    }
}

/// The descriptors that a descriptor names.
pub open spec fn children(d: DescrView) -> Seq<Handle> {
    match d {
        DescrView::Primitive(_) => Seq::empty(),
        DescrView::Array { elem, .. } => seq![elem],
        DescrView::Fn { params, ret, .. } => match ret {
            Some(r) => params.push(r),
            None => params,
        },
        DescrView::Class { constructor, fields, .. } => seq![constructor] + field_types(fields),
        DescrView::Interface { fields, .. } => field_types(fields),
    }
}

/// The positions of the types of `fields`.
pub open spec fn field_types(fields: Seq<Field>) -> Seq<Handle> {
    Seq::new(fields.len(), |i: int| fields[i].ty)
}

/// Whether every descriptor that a descriptor of the arena names is in
/// the arena.
pub open spec fn closed_arena(arena: Seq<DescrView>) -> bool {
    forall|i: int, j: int|
        0 <= i < arena.len() && 0 <= j < children(arena[i]).len() ==> #[trigger] children(
            arena[i],
        )[j] < arena.len()
}

/// Whether every descriptor that `fields` name is in the arena.
pub open spec fn fields_in_arena(arena: Seq<DescrView>, fields: Seq<Field>) -> bool {
    forall|k: int| 0 <= k < fields.len() ==> (#[trigger] fields[k]).ty < arena.len()
}

impl TypedView {
    /// Every module has its edge list, and every descriptor that is named,
    /// by a descriptor or as the type of an export, is in the arena.
    pub open spec fn wf(self) -> bool {
        &&& self.export_edges.len() == self.nodes.len()
        &&& closed_arena(self.arena)
        &&& forall|m: int|
            0 <= m < self.nodes.len() ==> fields_in_arena(
                self.arena,
                (#[trigger] self.nodes[m]).rooted_export_types,
            ) && fields_in_arena(self.arena, self.nodes[m].rooted_export_values)
    }
}

} // verus!
