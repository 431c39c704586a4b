//! The errors that abort binding generation.

use vstd::prelude::*;

use crate::structures::{CanonPath, Span};

verus! {

/// A construct of the language that binding generation refuses.
#[derive(Debug, Clone, Copy, PartialEq, Eq, Structural)]
pub enum UnsupportedFeature {
    DefaultExport,
    DefaultImport,
    NamespaceExport,
    NamespaceImport,
    ExportEquals,
    ImportEquals,
    TsNamespace,
    /// A variable declared through a pattern that is not a plain name.
    DestructuringPattern,
}

/// Why a module could not be bound.
#[derive(Debug, Clone, Copy, PartialEq, Eq, Structural)]
pub enum BindGenErrorKind {
    /// A module specifier has no entry in the module's dependency map.
    Resolve,
    /// The module uses a construct outside the supported subset.
    UnsupportedFeature(UnsupportedFeature),
}

/// An error met while binding a module, with the place it came from.
#[derive(Debug, PartialEq, Eq)]
pub struct BindGenError {
    pub module: CanonPath,
    pub kind: BindGenErrorKind,
    pub span: Span,
}

impl Clone for BindGenError {
    fn clone(&self) -> (r: Self)
        ensures
            r == *self,
    {
        BindGenError { module: self.module.clone(), kind: self.kind, span: self.span }
    }
}

} // verus!
