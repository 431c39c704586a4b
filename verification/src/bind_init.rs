//! The module cache: every module of a program with its parsed body and
//! with the canonical path of each module that it names.

use vstd::prelude::*;

use crate::ast::{Decl, ModuleDecl, ModuleItem, Stmt};
use crate::error::{BindGenError, BindGenErrorKind, UnsupportedFeature};
use crate::structures::{insert_key, texts, with_key, CanonPath, Span};

verus! {

/// One entry of a module's dependency map: the specifier as written in the
/// source, and the module that it resolves to.
#[derive(Debug, Clone, PartialEq, Eq)]
pub struct Dependency {
    pub specifier: String,
    pub path: CanonPath,
}

/// A parsed module.
#[derive(Debug, Clone, PartialEq, Eq)]
pub struct ModuleData {
    pub path: CanonPath,
    pub module_ast: Vec<ModuleItem>,
    pub dependencies: Vec<Dependency>,
}

/// The modules of a program, reachable from `root`.
#[derive(Debug, Clone, PartialEq, Eq)]
pub struct ParsedModuleCache {
    pub root: CanonPath,
    pub modules: Vec<ModuleData>,
}

/// The module that `specifier` resolves to: the path of the first entry
/// written with the same characters.
pub open spec fn dep_of(deps: Seq<Dependency>, specifier: Seq<char>) -> Option<CanonPath>
    decreases deps.len(),
{
    if deps.len() == 0 {
        None
    } else if deps[0].specifier@ == specifier {
        Some(deps[0].path)
    } else {
        dep_of(deps.skip(1), specifier)
    }
}

/// Looks `specifier` up in a dependency map.
pub fn find_dependency<'a>(deps: &'a Vec<Dependency>, specifier: &String) -> (r: Option<
    &'a CanonPath,
>)
    ensures
        match r {
            Some(p) => dep_of(deps@, specifier@) == Some(*p),
            None => dep_of(deps@, specifier@) is None,
        },
{
    let mut i: usize = 0;
    assert(deps@.skip(0) =~= deps@);
    while i < deps.len()
        invariant
            i <= deps@.len(),
            dep_of(deps@, specifier@) == dep_of(deps@.skip(i as int), specifier@),
        decreases deps@.len() - i,
    {
        if deps[i].specifier == *specifier {
            return Some(&deps[i].path);
        }
        assert(deps@.skip(i as int).skip(1) =~= deps@.skip(i as int + 1));
        i += 1;
    }
    None
}

/// The specifier that an item names, if it names a module, and the span
/// of the item.
pub open spec fn item_specifier(item: ModuleItem) -> Option<(String, Span)> {
    match item {
        ModuleItem::ModuleDecl(ModuleDecl::Import(import)) => Some((import.src, import.span)),
        ModuleItem::ModuleDecl(ModuleDecl::ExportNamed(exp)) => match exp.src {
            Some(src) => Some((src, exp.span)),
            None => None,
        },
        ModuleItem::ModuleDecl(ModuleDecl::ExportAll { src, span }) => Some((src, span)),
        _ => None,
    }
}

/// The specifier that an item names, if it names a module, and the span
/// of the item.
pub fn specifier_of(item: &ModuleItem) -> (r: Option<(&String, Span)>)
    ensures
        match r {
            Some((src, span)) => item_specifier(*item) == Some((*src, span)),
            None => item_specifier(*item) is None,
        },
{
    match item {
        ModuleItem::ModuleDecl(ModuleDecl::Import(import)) => Some((&import.src, import.span)),
        ModuleItem::ModuleDecl(ModuleDecl::ExportNamed(exp)) => match &exp.src {
            Some(src) => Some((src, exp.span)),
            None => None,
        },
        ModuleItem::ModuleDecl(ModuleDecl::ExportAll { src, span }) => Some((src, *span)),
        _ => None,
    }
}

/// The specifiers that the first `n` items name, each once, in source
/// order.
pub open spec fn specifiers_upto(items: Seq<ModuleItem>, n: int) -> Seq<String>
    decreases n,
{
    if n <= 0 {
        Seq::empty()
    } else {
        match item_specifier(items[n - 1]) {
            Some((src, _)) => with_key(specifiers_upto(items, n - 1), src),
            None => specifiers_upto(items, n - 1),
        }
    }
}

/// The specifiers that the imports and the re-exports of a module name,
/// each once, in source order.
pub fn scan_specifiers(items: &Vec<ModuleItem>) -> (r: Vec<String>)
    ensures
        r@ == specifiers_upto(items@, items@.len() as int),
{
    let mut found: Vec<String> = Vec::new();
    let mut i: usize = 0;
    while i < items.len()
        invariant
            i <= items@.len(),
            found@ == specifiers_upto(items@, i as int),
        decreases items@.len() - i,
    {
        match specifier_of(&items[i]) {
            Some((src, _)) => {
                insert_key(&mut found, src.clone());
            },
            None => {},
        }
        i += 1;
    }
    found
}

/// Why the module cache refuses an item, if it does: default exports,
/// `export =`, `import =`, namespace exports and `namespace` blocks are
/// outside the supported subset.
pub open spec fn item_refusal(item: ModuleItem) -> Option<(UnsupportedFeature, Span)> {
    match item {
        ModuleItem::ModuleDecl(ModuleDecl::ExportDefaultDecl { span }) => Some(
            (UnsupportedFeature::DefaultExport, span),
        ),
        ModuleItem::ModuleDecl(ModuleDecl::ExportDefaultExpr { span }) => Some(
            (UnsupportedFeature::DefaultExport, span),
        ),
        ModuleItem::ModuleDecl(ModuleDecl::TsExportAssignment { span }) => Some(
            (UnsupportedFeature::ExportEquals, span),
        ),
        ModuleItem::ModuleDecl(ModuleDecl::TsImportEquals { span }) => Some(
            (UnsupportedFeature::ImportEquals, span),
        ),
        ModuleItem::ModuleDecl(ModuleDecl::TsNamespaceExport { span }) => Some(
            (UnsupportedFeature::NamespaceExport, span),
        ),
        ModuleItem::ModuleDecl(ModuleDecl::ExportDecl { decl: Decl::TsModule { span }, .. }) => Some(
            (UnsupportedFeature::TsNamespace, span),
        ),
        ModuleItem::Stmt(Stmt::Decl(Decl::TsModule { span })) => Some(
            (UnsupportedFeature::TsNamespace, span),
        ),
        _ => None,
    }
}

/// Why the module cache refuses an item, if it does.
pub fn refusal_of(item: &ModuleItem) -> (r: Option<(UnsupportedFeature, Span)>)
    ensures
        r == item_refusal(*item),
{
    match item {
        ModuleItem::ModuleDecl(ModuleDecl::ExportDefaultDecl { span }) => Some(
            (UnsupportedFeature::DefaultExport, *span),
        ),
        ModuleItem::ModuleDecl(ModuleDecl::ExportDefaultExpr { span }) => Some(
            (UnsupportedFeature::DefaultExport, *span),
        ),
        ModuleItem::ModuleDecl(ModuleDecl::TsExportAssignment { span }) => Some(
            (UnsupportedFeature::ExportEquals, *span),
        ),
        ModuleItem::ModuleDecl(ModuleDecl::TsImportEquals { span }) => Some(
            (UnsupportedFeature::ImportEquals, *span),
        ),
        ModuleItem::ModuleDecl(ModuleDecl::TsNamespaceExport { span }) => Some(
            (UnsupportedFeature::NamespaceExport, *span),
        ),
        ModuleItem::ModuleDecl(ModuleDecl::ExportDecl { decl: Decl::TsModule { span }, .. }) => Some(
            (UnsupportedFeature::TsNamespace, *span),
        ),
        ModuleItem::Stmt(Stmt::Decl(Decl::TsModule { span })) => Some(
            (UnsupportedFeature::TsNamespace, *span),
        ),
        _ => None,
    }
}

/// What is wrong with an item of the module at `path` whose dependency
/// map is `deps`: a construct that is refused, or a specifier that the map
/// does not hold.
pub open spec fn item_fault(path: CanonPath, deps: Seq<Dependency>, item: ModuleItem) -> Option<
    BindGenError,
> {
    match item_refusal(item) {
        Some((feature, span)) => Some(
            BindGenError {
                module: path,
                kind: BindGenErrorKind::UnsupportedFeature(feature),
                span,
            },
        ),
        None => match item_specifier(item) {
            Some((src, span)) => if dep_of(deps, src@) is None {
                Some(BindGenError { module: path, kind: BindGenErrorKind::Resolve, span })
            } else {
                None
            },
            None => None,
        },
    }
}

/// The fault of the first item at or after `from` that has one.
pub open spec fn first_fault(
    path: CanonPath,
    deps: Seq<Dependency>,
    items: Seq<ModuleItem>,
    from: int,
) -> Option<BindGenError>
    decreases items.len() - from,
{
    if from < 0 || from >= items.len() {
        None
    } else {
        match item_fault(path, deps, items[from]) {
            Some(e) => Some(e),
            None => first_fault(path, deps, items, from + 1),
        }
    }
}

/// Checks a parsed module before it enters the cache: the first item, in
/// source order, that uses a refused construct or names a module that the
/// dependency map does not hold gives the error.
pub fn check_module(path: &CanonPath, deps: &Vec<Dependency>, items: &Vec<ModuleItem>) -> (r:
    Result<(), BindGenError>)
    ensures
        match first_fault(*path, deps@, items@, 0) {
            Some(e) => r == Err::<(), BindGenError>(e),
            None => r is Ok,
        },
{
    let mut i: usize = 0;
    while i < items.len()
        invariant
            i <= items@.len(),
            first_fault(*path, deps@, items@, 0) == first_fault(*path, deps@, items@, i as int),
        decreases items@.len() - i,
    {
        match refusal_of(&items[i]) {
            Some((feature, span)) => {
                return Err(
                    BindGenError {
                        module: path.clone(),
                        kind: BindGenErrorKind::UnsupportedFeature(feature),
                        span,
                    },
                );
            },
            None => {
                match specifier_of(&items[i]) {
                    Some((src, span)) => {
                        if find_dependency(deps, src).is_none() {
                            return Err(
                                BindGenError {
                                    module: path.clone(),
                                    kind: BindGenErrorKind::Resolve,
                                    span,
                                },
                            );
                        }
                    },
                    None => {},
                }
            },
        }
        i += 1;
    }
    Ok(())
}

/// Whether one of `modules` has the path `p`.
pub open spec fn is_loaded(modules: Seq<ModuleData>, p: Seq<char>) -> bool {
    exists|i: int| 0 <= i < modules.len() && (#[trigger] modules[i]).path@ == p
}

/// Whether one of `paths` is `p`.
pub open spec fn is_known(paths: Seq<CanonPath>, p: Seq<char>) -> bool {
    exists|i: int| 0 <= i < paths.len() && (#[trigger] paths[i])@ == p
}

/// Whether every module that a module of `modules` depends on is among
/// `modules`.
pub open spec fn closed(modules: Seq<ModuleData>) -> bool {
    forall|m: int, d: int|
        0 <= m < modules.len() && 0 <= d < modules[m].dependencies@.len() ==> is_loaded(
            modules,
            (#[trigger] modules[m].dependencies@[d]).path@,
        )
}

/// No two of `modules` have the same path.
pub open spec fn distinct_paths(modules: Seq<ModuleData>) -> bool {
    forall|i: int, j: int| 0 <= i < j < modules.len() ==> modules[i].path@ != modules[j].path@
}

/// `wanted`, with `p` asked for unless it was asked for already.
pub open spec fn asked(wanted: Seq<CanonPath>, p: CanonPath) -> Seq<CanonPath> {
    if is_known(wanted, p@) {
        wanted
    } else {
        wanted.push(p)
    }
}

/// `wanted`, with the modules asked for that the first `n` of `deps` name
/// and that were not asked for before, in the order of `deps`.
pub open spec fn asked_all(wanted: Seq<CanonPath>, deps: Seq<Dependency>, n: int) -> Seq<
    CanonPath,
>
    decreases n,
{
    if n <= 0 {
        wanted
    } else {
        asked(asked_all(wanted, deps, n - 1), deps[n - 1].path)
    }
}

/// Asking for the modules that `deps` name keeps what was asked for, in
/// its order, and leaves each of these modules asked for.
pub proof fn lemma_asked_all(wanted: Seq<CanonPath>, deps: Seq<Dependency>, n: int)
    requires
        0 <= n <= deps.len(),
    ensures
        wanted.len() <= asked_all(wanted, deps, n).len(),
        forall|i: int| 0 <= i < wanted.len() ==> #[trigger] asked_all(wanted, deps, n)[i] == wanted[i],
        forall|k: int| 0 <= k < n ==> is_known(asked_all(wanted, deps, n), (#[trigger] deps[k]).path@),
    decreases n,
{
    if n > 0 {
        let prev = asked_all(wanted, deps, n - 1);
        let now = asked_all(wanted, deps, n);
        lemma_asked_all(wanted, deps, n - 1);
        assert forall|k: int| 0 <= k < n implies is_known(now, (#[trigger] deps[k]).path@) by {
            if k < n - 1 {
                let w = choose|w: int| 0 <= w < prev.len() && (#[trigger] prev[w])@ == deps[k].path@;
                assert(now[w]@ == deps[k].path@);
            } else if !is_known(prev, deps[k].path@) {
                assert(now[prev.len() as int]@ == deps[k].path@);
            }
        }
    }
}

/// Whether no two of `modules` have the same path.
pub fn has_distinct_paths(modules: &Vec<ModuleData>) -> (r: bool)
    ensures
        r == distinct_paths(modules@),
{
    let mut j: usize = 0;
    while j < modules.len()
        invariant
            j <= modules@.len(),
            forall|a: int, b: int| 0 <= a < b < j ==> modules@[a].path@ != modules@[b].path@,
        decreases modules@.len() - j,
    {
        let mut i: usize = 0;
        while i < j
            invariant
                i <= j < modules@.len(),
                forall|a: int| 0 <= a < i ==> modules@[a].path@ != modules@[j as int].path@,
            decreases j - i,
        {
            if modules[i].path.same(&modules[j].path) {
                return false;
            }
            i += 1;
        }
        j += 1;
    }
    true
}

/// The module cache in the making. The caller reads and parses; the
/// builder says which module to load next and takes what was loaded.
pub struct CacheBuilder {
    root: CanonPath,
    modules: Vec<ModuleData>,
    /// The modules that were asked for: the root and every dependency of a
    /// loaded module.
    wanted: Vec<CanonPath>,
}

impl CacheBuilder {
    /// The root of the program.
    pub closed spec fn root(&self) -> CanonPath {
        self.root
    }

    /// The modules loaded so far, in the order in which they were taken.
    pub closed spec fn loaded(&self) -> Seq<ModuleData> {
        self.modules@
    }

    /// The modules that were asked for: the root and every module that a
    /// loaded module depends on.
    pub closed spec fn wanted(&self) -> Seq<CanonPath> {
        self.wanted@
    }

    /// No module is loaded twice, and whatever a loaded module depends on
    /// was asked for, as was the root.
    pub closed spec fn wf(&self) -> bool {
        &&& distinct_paths(self.modules@)
        &&& is_known(self.wanted@, self.root@)
        &&& forall|m: int, d: int|
            0 <= m < self.modules@.len() && 0 <= d < self.modules@[m].dependencies@.len()
                ==> is_known(self.wanted@, (#[trigger] self.modules@[m].dependencies@[d]).path@)
    }

    /// Whether every module that was asked for is loaded.
    pub closed spec fn complete(&self) -> bool {
        forall|i: int|
            0 <= i < self.wanted@.len() ==> is_loaded(self.modules@, (#[trigger] self.wanted@[i])@)
    }

    /// A builder that asks for the root.
    pub fn new(root: CanonPath) -> (b: Self)
        ensures
            b.wf(),
            b.root() == root,
            b.loaded().len() == 0,
    {
        let mut wanted: Vec<CanonPath> = Vec::new();
        wanted.push(root.clone());
        let b = CacheBuilder { root, modules: Vec::new(), wanted };
        assert(b.wanted@[0]@ == b.root@);
        b
    }

    /// Whether the module at `p` is loaded.
    pub fn has_loaded(&self, p: &CanonPath) -> (r: bool)
        ensures
            r == is_loaded(self.loaded(), p@),
    {
        let mut i: usize = 0;
        while i < self.modules.len()
            invariant
                i <= self.modules@.len(),
                forall|j: int| 0 <= j < i ==> (#[trigger] self.modules@[j]).path@ != p@,
            decreases self.modules@.len() - i,
        {
            if self.modules[i].path.same(p) {
                return true;
            }
            i += 1;
        }
        false
    }

    /// The next module to load: the first, in the order of asking, that was
    /// asked for and is not loaded. There is none exactly when the cache is
    /// complete.
    pub fn next(&self) -> (r: Option<CanonPath>)
        ensures
            match r {
                Some(p) => exists|i: int|
                    {
                        &&& 0 <= i < self.wanted().len()
                        &&& #[trigger] self.wanted()[i] == p
                        &&& !is_loaded(self.loaded(), p@)
                        &&& forall|j: int|
                            0 <= j < i ==> is_loaded(self.loaded(), (#[trigger] self.wanted()[j])@)
                    },
                None => self.complete(),
            },
    {
        let mut i: usize = 0;
        while i < self.wanted.len()
            invariant
                i <= self.wanted@.len(),
                forall|j: int|
                    0 <= j < i ==> is_loaded(self.modules@, (#[trigger] self.wanted@[j])@),
            decreases self.wanted@.len() - i,
        {
            if !self.has_loaded(&self.wanted[i]) {
                let p = self.wanted[i].clone();
                assert(self.wanted()[i as int] == p);
                return Some(p);
            }
            i += 1;
        }
        None
    }

    /// Whether the module at `p` was asked for.
    fn has_asked(&self, p: &CanonPath) -> (r: bool)
        ensures
            r == is_known(self.wanted@, p@),
    {
        let mut i: usize = 0;
        while i < self.wanted.len()
            invariant
                i <= self.wanted@.len(),
                forall|j: int| 0 <= j < i ==> (#[trigger] self.wanted@[j])@ != p@,
            decreases self.wanted@.len() - i,
        {
            if self.wanted[i].same(p) {
                return true;
            }
            i += 1;
        }
        false
    }

    /// Takes a module that was loaded. The module is checked first: one
    /// that is refused changes nothing. One that is loaded already is left
    /// as it is. Else the module is taken, and every module that it depends
    /// on and that was not asked for yet is asked for, in the order of its
    /// dependency map.
    pub fn add(&mut self, data: ModuleData) -> (r: Result<(), BindGenError>)
        requires
            old(self).wf(),
        ensures
            final(self).wf(),
            final(self).root() == old(self).root(),
            match first_fault(data.path, data.dependencies@, data.module_ast@, 0) {
                Some(e) => {
                    &&& r == Err::<(), BindGenError>(e)
                    &&& final(self).loaded() == old(self).loaded()
                    &&& final(self).wanted() == old(self).wanted()
                },
                None => r is Ok && if is_loaded(old(self).loaded(), data.path@) {
                    &&& final(self).loaded() == old(self).loaded()
                    &&& final(self).wanted() == old(self).wanted()
                } else {
                    &&& final(self).loaded() == old(self).loaded().push(data)
                    &&& final(self).wanted() == asked_all(
                        old(self).wanted(),
                        data.dependencies@,
                        data.dependencies@.len() as int,
                    )
                },
            },
    {
        match check_module(&data.path, &data.dependencies, &data.module_ast) {
            Ok(()) => {},
            Err(e) => {
                return Err(e);
            },
        }
        if self.has_loaded(&data.path) {
            return Ok(());
        }
        let ghost before = self.wanted@;
        let mut d: usize = 0;
        while d < data.dependencies.len()
            invariant
                d <= data.dependencies@.len(),
                self.modules@ == old(self).modules@,
                self.root == old(self).root,
                self.wanted@ == asked_all(before, data.dependencies@, d as int),
            decreases data.dependencies@.len() - d,
        {
            if !self.has_asked(&data.dependencies[d].path) {
                self.wanted.push(data.dependencies[d].path.clone());
            }
            d += 1;
        }
        self.modules.push(data);
        proof {
            lemma_asked_all(before, data.dependencies@, data.dependencies@.len() as int);
            assert forall|i: int| 0 <= i < before.len() implies is_known(
                self.wanted@,
                (#[trigger] before[i])@,
            ) by {
                assert(self.wanted@[i]@ == before[i]@);
            }
            let w = choose|w: int| 0 <= w < before.len() && (#[trigger] before[w])@ == self.root@;
            assert(self.wanted@[w]@ == self.root@);
            assert forall|m: int, k: int|
                0 <= m < self.modules@.len() && 0 <= k < self.modules@[m].dependencies@.len()
                    implies is_known(
                self.wanted@,
                (#[trigger] self.modules@[m].dependencies@[k]).path@,
            ) by {
                if m < old(self).modules@.len() {
                    let p = old(self).modules@[m].dependencies@[k].path@;
                    assert(is_known(before, p));
                    let w = choose|w: int| 0 <= w < before.len() && (#[trigger] before[w])@ == p;
                    assert(self.wanted@[w]@ == p);
                } else {
                    assert(self.modules@[m] == data);
                }
            }
        }
        Ok(())
    }

    /// The cache, once every module that was asked for is loaded: it
    /// holds the root, no module twice, and every module that one of its
    /// modules depends on.
    pub fn finish(self) -> (r: Option<ParsedModuleCache>)
        requires
            self.wf(),
        ensures
            match r {
                Some(cache) => {
                    &&& self.complete()
                    &&& cache.root == self.root()
                    &&& cache.modules@ == self.loaded()
                    &&& closed(cache.modules@)
                    &&& distinct_paths(cache.modules@)
                    &&& is_loaded(cache.modules@, cache.root@)
                },
                None => !self.complete(),
            },
    {
        match self.next() {
            Some(p) => {
                proof {
                    let w = choose|w: int|
                        0 <= w < self.wanted().len() && #[trigger] self.wanted()[w] == p
                            && !is_loaded(self.loaded(), p@);
                    assert(!is_loaded(self.modules@, self.wanted@[w]@));
                }
                None
            },
            None => {
                proof {
                    assert forall|m: int, d: int|
                        0 <= m < self.modules@.len() && 0 <= d
                            < self.modules@[m].dependencies@.len() implies is_loaded(
                        self.modules@,
                        (#[trigger] self.modules@[m].dependencies@[d]).path@,
                    ) by {
                        let p = self.modules@[m].dependencies@[d].path@;
                        let w = choose|w: int|
                            0 <= w < self.wanted@.len() && (#[trigger] self.wanted@[w])@ == p;
                        assert(is_loaded(self.modules@, self.wanted@[w]@));
                    }
                    let w = choose|w: int|
                        0 <= w < self.wanted@.len() && (#[trigger] self.wanted@[w])@ == self.root@;
                    assert(is_loaded(self.modules@, self.wanted@[w]@));
                }
                Some(ParsedModuleCache { root: self.root, modules: self.modules })
            },
        }
    }
}

/// Whether a specifier is relative: it starts with `./` or `../`.
pub open spec fn relative(specifier: Seq<char>) -> bool {
    ||| specifier.len() >= 2 && specifier[0] == '.' && specifier[1] == '/'
    ||| specifier.len() >= 3 && specifier[0] == '.' && specifier[1] == '.' && specifier[2] == '/'
}

/// Whether a specifier is relative.
pub fn is_relative(specifier: &str) -> (r: bool)
    ensures
        r == relative(specifier@),
{
    let len = specifier.unicode_len();
    if len >= 2 && specifier.get_char(0) == '.' && specifier.get_char(1) == '/' {
        return true;
    }
    len >= 3 && specifier.get_char(0) == '.' && specifier.get_char(1) == '.' && specifier.get_char(
        2,
    ) == '/'
}

/// The files that a relative specifier may stand for, seen from the
/// directory of the importing module, in the order in which they are
/// tried: the specifier with `.d.ts`, with `.ts`, and as a directory with
/// `index.d.ts` in it. A specifier that is not relative stands for none.
pub open spec fn candidates(specifier: Seq<char>) -> Seq<Seq<char>> {
    if relative(specifier) {
        seq![specifier + ".d.ts"@, specifier + ".ts"@, specifier + "/index.d.ts"@]
    } else {
        Seq::empty()
    }
}

/// The files that a specifier may stand for, in the order in which they
/// are tried.
pub fn resolution_candidates(specifier: &str) -> (r: Vec<String>)
    ensures
        texts(r@) == candidates(specifier@),
{
    let mut out: Vec<String> = Vec::new();
    if is_relative(specifier) {
        let mut declaration = String::from_str(specifier);
        declaration.append(".d.ts");
        let mut source = String::from_str(specifier);
        source.append(".ts");
        let mut index = String::from_str(specifier);
        index.append("/index.d.ts");
        out.push(declaration);
        out.push(source);
        out.push(index);
    }
    assert(texts(out@) =~= candidates(specifier@));
    out
}


} // verus!
