//! Finding declarations: what a name stands for inside a module, and which
//! declaration stands behind an export key that a module declares itself.

use vstd::prelude::*;

use crate::ast::{Decl, ExportSpecifier, ImportSpecifier, ModuleDecl, ModuleItem, Pat, Stmt};
use crate::bind_init::{dep_of, find_dependency, Dependency};
use crate::graph_reduce::Namespace;
use crate::structures::CanonPath;

verus! {

/// A declaration of a module: the position of the item that holds it and,
/// for a variable, the position of its declarator; else `pat` is 0.
#[derive(Debug, Clone, Copy, PartialEq, Eq, Structural)]
pub struct DeclRef {
    pub item: usize,
    pub pat: usize,
}

/// What a name stands for in the type scope of a module.
pub enum TypeBinding {
    /// The declaration at this position of the module.
    Local(usize),
    /// What `source` exports as `src_key`.
    Imported { source: CanonPath, src_key: String },
}

/// The declaration that a top-level item holds, exported or not.
pub open spec fn decl_of(item: ModuleItem) -> Option<Decl> {
    match item {
        ModuleItem::ModuleDecl(ModuleDecl::ExportDecl { decl, .. }) => Some(decl),
        ModuleItem::Stmt(Stmt::Decl(decl)) => Some(decl),
        _ => None,
    }
}

/// The declaration that a top-level item holds, exported or not.
pub fn item_decl(item: &ModuleItem) -> (r: Option<&Decl>)
    ensures
        match r {
            Some(d) => decl_of(*item) == Some(*d),
            None => decl_of(*item) is None,
        },
{
    match item {
        ModuleItem::ModuleDecl(ModuleDecl::ExportDecl { decl, .. }) => Some(decl),
        ModuleItem::Stmt(Stmt::Decl(decl)) => Some(decl),
        _ => None,
    }
}

/// The position of the first declarator at or after `from` that binds the
/// plain name `name`.
pub open spec fn pat_position(pats: Seq<Pat>, name: Seq<char>, from: int) -> Option<usize>
    decreases pats.len() - from,
{
    if from < 0 || from >= pats.len() {
        None
    } else {
        match pats[from] {
            Pat::Ident { name: bound, .. } => if bound@ == name {
                Some(from as usize)
            } else {
                pat_position(pats, name, from + 1)
            },
            Pat::Other => pat_position(pats, name, from + 1),
        }
    }
}

/// The position of the first declarator that binds the plain name `name`.
pub fn find_pat(pats: &Vec<Pat>, name: &String) -> (r: Option<usize>)
    ensures
        r == pat_position(pats@, name@, 0),
        r is Some ==> r->Some_0 < pats@.len() && pats@[r->Some_0 as int] is Ident,
{
    let mut i: usize = 0;
    while i < pats.len()
        invariant
            i <= pats@.len(),
            pat_position(pats@, name@, 0) == pat_position(pats@, name@, i as int),
        decreases pats@.len() - i,
    {
        match &pats[i] {
            Pat::Ident { name: bound, .. } => {
                if *bound == *name {
                    return Some(i);
                }
            },
            Pat::Other => {},
        }
        i += 1;
    }
    None
}

/// Whether, and through which declarator, `decl` declares `name` in `ns`.
/// A class declares a type and a value, functions and variables declare
/// values, interfaces, aliases and enums declare types.
pub open spec fn declares(decl: Decl, name: Seq<char>, ns: Namespace) -> Option<usize> {
    match decl {
        Decl::Class(c) => if c.name@ == name {
            Some(0usize)
        } else {
            None
        },
        Decl::Fn(f) => if ns == Namespace::Value && f.name@ == name {
            Some(0usize)
        } else {
            None
        },
        Decl::Var(v) => if ns == Namespace::Value {
            pat_position(v.decls@, name, 0)
        } else {
            None
        },
        Decl::TsInterface(i) => if ns == Namespace::Type && i.name@ == name {
            Some(0usize)
        } else {
            None
        },
        Decl::TsTypeAlias(a) => if ns == Namespace::Type && a.name@ == name {
            Some(0usize)
        } else {
            None
        },
        Decl::TsEnum(e) => if ns == Namespace::Type && e.name@ == name {
            Some(0usize)
        } else {
            None
        },
        Decl::TsModule { .. } => None,
    }
}

/// Whether, and through which declarator, `decl` declares `name` in `ns`.
pub fn decl_declares(decl: &Decl, name: &String, ns: Namespace) -> (r: Option<usize>)
    ensures
        r == declares(*decl, name@, ns),
{
    match decl {
        Decl::Class(c) => if c.name == *name {
            Some(0)
        } else {
            None
        },
        Decl::Fn(f) => if ns == Namespace::Value && f.name == *name {
            Some(0)
        } else {
            None
        },
        Decl::Var(v) => if ns == Namespace::Value {
            find_pat(&v.decls, name)
        } else {
            None
        },
        Decl::TsInterface(i) => if ns == Namespace::Type && i.name == *name {
            Some(0)
        } else {
            None
        },
        Decl::TsTypeAlias(a) => if ns == Namespace::Type && a.name == *name {
            Some(0)
        } else {
            None
        },
        Decl::TsEnum(e) => if ns == Namespace::Type && e.name == *name {
            Some(0)
        } else {
            None
        },
        Decl::TsModule { .. } => None,
    }
}

/// Whether, and through which declarator, the item declares `name` in `ns`.
pub open spec fn item_declares(item: ModuleItem, name: Seq<char>, ns: Namespace) -> Option<usize> {
    match decl_of(item) {
        Some(decl) => declares(decl, name, ns),
        None => None,
    }
}

/// The first declaration of `name` in `ns` at or after the item `from`:
/// where a name is declared more than once, the first declaration counts.
pub open spec fn local_decl(items: Seq<ModuleItem>, name: Seq<char>, ns: Namespace, from: int)
    -> Option<DeclRef>
    decreases items.len() - from,
{
    if from < 0 || from >= items.len() {
        None
    } else {
        match item_declares(items[from], name, ns) {
            Some(pat) => Some(DeclRef { item: from as usize, pat }),
            None => local_decl(items, name, ns, from + 1),
        }
    }
}

/// The first declaration of `name` in `ns`.
pub fn find_local_decl(items: &Vec<ModuleItem>, name: &String, ns: Namespace) -> (r: Option<
    DeclRef,
>)
    ensures
        r == local_decl(items@, name@, ns, 0),
        r is Some ==> r->Some_0.item < items@.len(),
{
    let mut i: usize = 0;
    while i < items.len()
        invariant
            i <= items@.len(),
            local_decl(items@, name@, ns, 0) == local_decl(items@, name@, ns, i as int),
        decreases items@.len() - i,
    {
        let found = match item_decl(&items[i]) {
            Some(decl) => decl_declares(decl, name, ns),
            None => None,
        };
        match found {
            Some(pat) => {
                return Some(DeclRef { item: i, pat });
            },
            None => {},
        }
        i += 1;
    }
    None
}

/// The key under which the source exports what the first named specifier
/// at or after `from` imports as `name`.
pub open spec fn imported_key(specs: Seq<ImportSpecifier>, name: Seq<char>, from: int) -> Option<
    String,
>
    decreases specs.len() - from,
{
    if from < 0 || from >= specs.len() {
        None
    } else {
        match specs[from] {
            ImportSpecifier::Named { local, imported } => if local@ == name {
                match imported {
                    Some(key) => Some(key),
                    None => Some(local),
                }
            } else {
                imported_key(specs, name, from + 1)
            },
            _ => imported_key(specs, name, from + 1),
        }
    }
}

/// The key under which the source exports what the specifiers import as
/// `name`.
pub fn find_imported_key<'a>(specs: &'a Vec<ImportSpecifier>, name: &String) -> (r: Option<
    &'a String,
>)
    ensures
        match r {
            Some(key) => imported_key(specs@, name@, 0) == Some(*key),
            None => imported_key(specs@, name@, 0) is None,
        },
{
    let mut i: usize = 0;
    while i < specs.len()
        invariant
            i <= specs@.len(),
            imported_key(specs@, name@, 0) == imported_key(specs@, name@, i as int),
        decreases specs@.len() - i,
    {
        match &specs[i] {
            ImportSpecifier::Named { local, imported } => {
                if *local == *name {
                    return match imported {
                        Some(key) => Some(key),
                        None => Some(local),
                    };
                }
            },
            _ => {},
        }
        i += 1;
    }
    None
}

/// The import that an item makes under the local name `name`: the module
/// it imports from and the key there.
pub open spec fn item_imports(item: ModuleItem, deps: Seq<Dependency>, name: Seq<char>) -> Option<
    (CanonPath, String),
> {
    match item {
        ModuleItem::ModuleDecl(ModuleDecl::Import(import)) => match (
            dep_of(deps, import.src@),
            imported_key(import.specifiers@, name, 0),
        ) {
            (Some(source), Some(key)) => Some((source, key)),
            _ => None,
        },
        _ => None,
    }
}

/// The first import at or after the item `from` that binds `name`, with the
/// position of its item.
pub open spec fn import_binding(
    items: Seq<ModuleItem>,
    deps: Seq<Dependency>,
    name: Seq<char>,
    from: int,
) -> Option<(usize, CanonPath, String)>
    decreases items.len() - from,
{
    if from < 0 || from >= items.len() {
        None
    } else {
        match item_imports(items[from], deps, name) {
            Some((source, key)) => Some((from as usize, source, key)),
            None => import_binding(items, deps, name, from + 1),
        }
    }
}

/// The first import that binds `name`, with the position of its item.
pub fn find_import<'a>(items: &'a Vec<ModuleItem>, deps: &'a Vec<Dependency>, name: &String) -> (r:
    Option<(usize, &'a CanonPath, &'a String)>)
    ensures
        match r {
            Some((i, source, key)) => import_binding(items@, deps@, name@, 0) == Some(
                (i, *source, *key),
            ),
            None => import_binding(items@, deps@, name@, 0) is None,
        },
{
    let mut i: usize = 0;
    while i < items.len()
        invariant
            i <= items@.len(),
            import_binding(items@, deps@, name@, 0) == import_binding(
                items@,
                deps@,
                name@,
                i as int,
            ),
        decreases items@.len() - i,
    {
        match &items[i] {
            ModuleItem::ModuleDecl(ModuleDecl::Import(import)) => {
                match find_dependency(deps, &import.src) {
                    Some(source) => {
                        match find_imported_key(&import.specifiers, name) {
                            Some(key) => {
                                return Some((i, source, key));
                            },
                            None => {},
                        }
                    },
                    None => {},
                }
            },
            _ => {},
        }
        i += 1;
    }
    None
}

/// What `name` stands for in the type scope of a module: its first type
/// declaration or the first import under that name, whichever the source
/// has first.
pub open spec fn type_binding(items: Seq<ModuleItem>, deps: Seq<Dependency>, name: Seq<char>)
    -> Option<TypeBinding> {
    match (local_decl(items, name, Namespace::Type, 0), import_binding(items, deps, name, 0)) {
        (Some(d), Some((i, source, src_key))) => if i < d.item {
            Some(TypeBinding::Imported { source, src_key })
        } else {
            Some(TypeBinding::Local(d.item))
        },
        (Some(d), None) => Some(TypeBinding::Local(d.item)),
        (None, Some((i, source, src_key))) => Some(TypeBinding::Imported { source, src_key }),
        (None, None) => None,
    }
}

/// What `name` stands for in the type scope of a module.
pub fn find_type_binding(items: &Vec<ModuleItem>, deps: &Vec<Dependency>, name: &String) -> (r:
    Option<TypeBinding>)
    ensures
        r == type_binding(items@, deps@, name@),
        r matches Some(TypeBinding::Local(j)) ==> j < items@.len(),
{
    let local = find_local_decl(items, name, Namespace::Type);
    let imported = find_import(items, deps, name);
    match (local, imported) {
        (Some(d), Some((i, source, src_key))) => if i < d.item {
            Some(TypeBinding::Imported { source: source.clone(), src_key: src_key.clone() })
        } else {
            Some(TypeBinding::Local(d.item))
        },
        (Some(d), None) => Some(TypeBinding::Local(d.item)),
        (None, Some((i, source, src_key))) => Some(
            TypeBinding::Imported { source: source.clone(), src_key: src_key.clone() },
        ),
        (None, None) => None,
    }
}

/// The declaration behind the first specifier at or after `from` that
/// exports a declared name of `ns` under `key`.
pub open spec fn aliased_decl(
    items: Seq<ModuleItem>,
    specs: Seq<ExportSpecifier>,
    key: Seq<char>,
    ns: Namespace,
    from: int,
) -> Option<DeclRef>
    decreases specs.len() - from,
{
    if from < 0 || from >= specs.len() {
        None
    } else {
        let found = match specs[from] {
            ExportSpecifier::Named { orig, exported } => {
                let alias = match exported {
                    Some(name) => name,
                    None => orig,
                };
                if alias@ == key {
                    local_decl(items, orig@, ns, 0)
                } else {
                    None
                }
            },
            _ => None,
        };
        match found {
            Some(d) => Some(d),
            None => aliased_decl(items, specs, key, ns, from + 1),
        }
    }
}

/// The declaration behind the first specifier that exports a declared name
/// of `ns` under `key`.
pub fn find_aliased_decl(
    items: &Vec<ModuleItem>,
    specs: &Vec<ExportSpecifier>,
    key: &String,
    ns: Namespace,
) -> (r: Option<DeclRef>)
    ensures
        r == aliased_decl(items@, specs@, key@, ns, 0),
        r is Some ==> r->Some_0.item < items@.len(),
{
    let mut i: usize = 0;
    while i < specs.len()
        invariant
            i <= specs@.len(),
            aliased_decl(items@, specs@, key@, ns, 0) == aliased_decl(
                items@,
                specs@,
                key@,
                ns,
                i as int,
            ),
        decreases specs@.len() - i,
    {
        match &specs[i] {
            ExportSpecifier::Named { orig, exported } => {
                let alias = match exported {
                    Some(name) => name,
                    None => orig,
                };
                if *alias == *key {
                    match find_local_decl(items, orig, ns) {
                        Some(d) => {
                            return Some(d);
                        },
                        None => {},
                    }
                }
            },
            _ => {},
        }
        i += 1;
    }
    None
}

/// The declaration that an item exports under `key` in `ns`: an exported
/// declaration of `key` stands for the first declaration of that name; an
/// `export { .. }` without a source stands for the declaration it names.
pub open spec fn item_roots(
    items: Seq<ModuleItem>,
    item: ModuleItem,
    key: Seq<char>,
    ns: Namespace,
) -> Option<DeclRef> {
    match item {
        ModuleItem::ModuleDecl(ModuleDecl::ExportDecl { decl, .. }) => if declares(decl, key, ns)
            is Some {
            local_decl(items, key, ns, 0)
        } else {
            None
        },
        ModuleItem::ModuleDecl(ModuleDecl::ExportNamed(exp)) => if exp.src is None {
            aliased_decl(items, exp.specifiers@, key, ns, 0)
        } else {
            None
        },
        _ => None,
    }
}

/// The declaration behind the export key `key` that the module declares
/// itself in `ns`: what the first item at or after `from` that exports a
/// declaration under `key` stands for.
pub open spec fn rooted_decl(items: Seq<ModuleItem>, key: Seq<char>, ns: Namespace, from: int)
    -> Option<DeclRef>
    decreases items.len() - from,
{
    if from < 0 || from >= items.len() {
        None
    } else {
        match item_roots(items, items[from], key, ns) {
            Some(d) => Some(d),
            None => rooted_decl(items, key, ns, from + 1),
        }
    }
}

/// The declaration behind the export key `key` that the module declares
/// itself in `ns`.
pub fn find_rooted_decl(items: &Vec<ModuleItem>, key: &String, ns: Namespace) -> (r: Option<
    DeclRef,
>)
    ensures
        r == rooted_decl(items@, key@, ns, 0),
        r is Some ==> r->Some_0.item < items@.len(),
{
    let mut i: usize = 0;
    while i < items.len()
        invariant
            i <= items@.len(),
            rooted_decl(items@, key@, ns, 0) == rooted_decl(items@, key@, ns, i as int),
        decreases items@.len() - i,
    {
        let found = match &items[i] {
            ModuleItem::ModuleDecl(ModuleDecl::ExportDecl { decl, .. }) => {
                if decl_declares(decl, key, ns).is_some() {
                    find_local_decl(items, key, ns)
                } else {
                    None
                }
            },
            ModuleItem::ModuleDecl(ModuleDecl::ExportNamed(exp)) => {
                if exp.src.is_none() {
                    find_aliased_decl(items, &exp.specifiers, key, ns)
                } else {
                    None
                }
            },
            _ => None,
        };
        match found {
            Some(d) => {
                return Some(d);
            },
            None => {},
        }
        i += 1;
    }
    None
}

/// The first declaration of a name is an item of the module.
pub proof fn lemma_local_decl_in_range(
    items: Seq<ModuleItem>,
    name: Seq<char>,
    ns: Namespace,
    from: int,
)
    requires
        items.len() <= usize::MAX,
    ensures
        match local_decl(items, name, ns, from) {
            Some(d) => from <= d.item < items.len() && item_declares(items[d.item as int], name, ns)
                == Some(d.pat),
            None => true,
        },
    decreases items.len() - from,
{
    if 0 <= from < items.len() {
        if item_declares(items[from], name, ns) is None {
            lemma_local_decl_in_range(items, name, ns, from + 1);
        }
    }
}

/// The declaration behind a specifier is an item of the module.
pub proof fn lemma_aliased_decl_in_range(
    items: Seq<ModuleItem>,
    specs: Seq<ExportSpecifier>,
    key: Seq<char>,
    ns: Namespace,
    from: int,
)
    requires
        items.len() <= usize::MAX,
    ensures
        match aliased_decl(items, specs, key, ns, from) {
            Some(d) => d.item < items.len(),
            None => true,
        },
    decreases specs.len() - from,
{
    if 0 <= from < specs.len() {
        match specs[from] {
            ExportSpecifier::Named { orig, exported } => {
                lemma_local_decl_in_range(items, orig@, ns, 0);
            },
            _ => {},
        }
        lemma_aliased_decl_in_range(items, specs, key, ns, from + 1);
    }
}

/// The declaration behind an export key is an item of the module.
pub proof fn lemma_rooted_decl_in_range(
    items: Seq<ModuleItem>,
    key: Seq<char>,
    ns: Namespace,
    from: int,
)
    requires
        items.len() <= usize::MAX,
    ensures
        match rooted_decl(items, key, ns, from) {
            Some(d) => d.item < items.len(),
            None => true,
        },
    decreases items.len() - from,
{
    if 0 <= from < items.len() {
        lemma_local_decl_in_range(items, key, ns, 0);
        match items[from] {
            ModuleItem::ModuleDecl(ModuleDecl::ExportNamed(exp)) => {
                lemma_aliased_decl_in_range(items, exp.specifiers@, key, ns, 0);
            },
            _ => {},
        }
        lemma_rooted_decl_in_range(items, key, ns, from + 1);
    }
}


} // verus!
