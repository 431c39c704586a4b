//! The shape of a parsed declaration module, reduced to what binding
//! generation reads: imports, exports, and the declarations with their type
//! annotations.

use vstd::prelude::*;

use crate::structures::Span;

verus! {

/// The built-in types.
#[derive(Debug, Clone, Copy, PartialEq, Eq, Structural)]
pub enum PrimitiveKind {
    Boolean,
    Number,
    String,
    Void,
    Object,
    Any,
    Never,
}

/// What a type annotation names, without its array brackets.
#[derive(Debug, Clone, PartialEq, Eq)]
pub enum TypeBase {
    /// One of the built-in type names.
    Keyword(PrimitiveKind),
    /// A plain name, without type arguments.
    Ref(String),
    /// Any other form: generics, unions, intersections, tuples, function
    /// types, conditional and mapped types.
    Unsupported,
}

/// A type annotation: `base`, followed by `rank` pairs of array brackets,
/// written at `span`.
#[derive(Debug, Clone, PartialEq, Eq)]
pub struct TypeAnn {
    pub base: TypeBase,
    pub rank: u64,
    pub span: Span,
}

impl TypeAnn {
    /// The annotation that names `base` without array brackets.
    pub fn plain(base: TypeBase, span: Span) -> (r: Self)
        ensures
            r == (TypeAnn { base, rank: 0, span }),
    {
        TypeAnn { base, rank: 0, span }
    }

    /// The annotation `elem[]`, written at `span`: an array over `elem`
    /// has the base of `elem` and one more level of arrays, the rank being
    /// held at the largest rank there is.
    pub fn array_of(elem: TypeAnn, span: Span) -> (r: Self)
        ensures
            r.base == elem.base,
            r.rank == if elem.rank < u64::MAX {
                (elem.rank + 1) as u64
            } else {
                u64::MAX
            },
            r.span == span,
    {
        let rank = if elem.rank < u64::MAX {
            elem.rank + 1
        } else {
            elem.rank
        };
        TypeAnn { base: elem.base, rank, span }
    }

    /// The annotation `(inner)`, written at `span`: brackets around an
    /// annotation change nothing but the place.
    pub fn grouped(inner: TypeAnn, span: Span) -> (r: Self)
        ensures
            r.base == inner.base,
            r.rank == inner.rank,
            r.span == span,
    {
        TypeAnn { base: inner.base, rank: inner.rank, span }
    }
}

/// The parameters and the return annotation of a function or method.
#[derive(Debug, Clone, PartialEq, Eq)]
pub struct FnSig {
    pub params: Vec<Option<TypeAnn>>,
    pub ret: Option<TypeAnn>,
}

#[derive(Debug, Clone, Copy, PartialEq, Eq, Structural)]
pub enum Accessibility {
    Public,
    Protected,
    Private,
}

#[derive(Debug, Clone, PartialEq, Eq)]
pub enum ClassMember {
    Constructor { params: Vec<Option<TypeAnn>> },
    Method { name: String, sig: FnSig, is_static: bool, accessibility: Accessibility },
    Property { name: String, ann: Option<TypeAnn>, is_static: bool, accessibility: Accessibility },
    /// A member without a plain name, such as an index signature.
    Other,
}

#[derive(Debug, Clone, PartialEq, Eq)]
pub struct ClassDecl {
    pub name: String,
    /// The class named after `extends`, where that is a plain name.
    pub super_class: Option<String>,
    pub members: Vec<ClassMember>,
}

#[derive(Debug, Clone, PartialEq, Eq)]
pub struct FnDecl {
    pub name: String,
    pub sig: FnSig,
}

/// What a variable declarator binds.
#[derive(Debug, Clone, PartialEq, Eq)]
pub enum Pat {
    Ident { name: String, ann: Option<TypeAnn> },
    /// A destructuring pattern.
    Other,
}

#[derive(Debug, Clone, PartialEq, Eq)]
pub struct VarDecl {
    pub decls: Vec<Pat>,
    pub span: Span,
}

#[derive(Debug, Clone, PartialEq, Eq)]
pub enum InterfaceMember {
    Property { name: String, ann: Option<TypeAnn> },
    Method { name: String, sig: FnSig },
    /// A call, construct or index signature.
    Other,
}

#[derive(Debug, Clone, PartialEq, Eq)]
pub struct TsInterfaceDecl {
    pub name: String,
    /// The plain names after `extends`.
    pub extends: Vec<String>,
    pub members: Vec<InterfaceMember>,
}

#[derive(Debug, Clone, PartialEq, Eq)]
pub struct TsTypeAliasDecl {
    pub name: String,
    pub ann: TypeAnn,
}

/// How an enum member gets its value.
#[derive(Debug, Clone, Copy, PartialEq, Eq, Structural)]
pub enum EnumMemberInit {
    /// No initializer: the member counts on from the one before.
    Auto,
    /// A number literal.
    Number,
    /// A string literal.
    Str,
    /// Any other expression.
    Other,
}

#[derive(Debug, Clone, PartialEq, Eq)]
pub struct TsEnumDecl {
    pub name: String,
    pub members: Vec<EnumMemberInit>,
}

#[derive(Debug, Clone, PartialEq, Eq)]
pub enum Decl {
    Class(ClassDecl),
    Fn(FnDecl),
    Var(VarDecl),
    TsInterface(TsInterfaceDecl),
    TsTypeAlias(TsTypeAliasDecl),
    TsEnum(TsEnumDecl),
    /// A `namespace` or `module` block.
    TsModule { span: Span },
}

#[derive(Debug, Clone, PartialEq, Eq)]
pub enum ImportSpecifier {
    /// `import { imported as local }`, or `import { local }`.
    Named { local: String, imported: Option<String> },
    /// `import local from ..`.
    Default { span: Span },
    /// `import * as local from ..`.
    Namespace { span: Span },
}

#[derive(Debug, Clone, PartialEq, Eq)]
pub enum ExportSpecifier {
    /// `export { orig as exported }`, or `export { orig }`.
    Named { orig: String, exported: Option<String> },
    /// `export v from ..`.
    Default,
    /// `export * as ns from ..`.
    Namespace { span: Span },
}

#[derive(Debug, Clone, PartialEq, Eq)]
pub struct ImportDecl {
    pub src: String,
    pub specifiers: Vec<ImportSpecifier>,
    pub span: Span,
}

#[derive(Debug, Clone, PartialEq, Eq)]
pub struct NamedExport {
    pub src: Option<String>,
    pub specifiers: Vec<ExportSpecifier>,
    pub span: Span,
}

#[derive(Debug, Clone, PartialEq, Eq)]
pub enum ModuleDecl {
    Import(ImportDecl),
    ExportDecl { decl: Decl, span: Span },
    ExportNamed(NamedExport),
    ExportAll { src: String, span: Span },
    ExportDefaultDecl { span: Span },
    ExportDefaultExpr { span: Span },
    TsImportEquals { span: Span },
    TsExportAssignment { span: Span },
    TsNamespaceExport { span: Span },
}

#[derive(Debug, Clone, PartialEq, Eq)]
pub enum Stmt {
    Decl(Decl),
    /// A statement that declares nothing.
    Other,
}

#[derive(Debug, Clone, PartialEq, Eq)]
pub enum ModuleItem {
    ModuleDecl(ModuleDecl),
    Stmt(Stmt),
}

} // verus!
