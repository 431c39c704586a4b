//! Strictness: the annotations of a program that are taken for `any`
//! because they stand for nothing that is supported.

use vstd::prelude::*;

use crate::ast::{ClassMember, Decl, FnSig, InterfaceMember, ModuleItem, Pat, TypeAnn, TypeBase};
use crate::bind_graph_init::ModuleGraph;
use crate::bind_init::ModuleData;
use crate::structures::{CanonPath, Span};
use crate::type_construction::{find_type_ref, program, type_ref, Program};
use crate::type_scope::{decl_of, item_decl};

verus! {

/// An annotation that is taken for `any`: the module it is written in,
/// and where.
#[derive(Debug, PartialEq, Eq)]
pub struct TypeDiagnostic {
    pub module: CanonPath,
    pub span: Span,
}

/// Whether the annotation `ann`, written in module `mi`, stands for
/// nothing that is supported: it has an unsupported form, or it names what
/// the module neither declares nor imports from a module that exports it.
pub open spec fn stands_for_nothing(p: Program, mi: int, ann: TypeAnn) -> bool {
    match ann.base {
        TypeBase::Unsupported => true,
        TypeBase::Ref(name) => type_ref(p, mi, name@) is None,
        TypeBase::Keyword(_) => false,
    }
}

/// `out`, with the note for `ann` where it is written and stands for
/// nothing.
pub open spec fn noted(out: Seq<TypeDiagnostic>, p: Program, mi: int, ann: Option<TypeAnn>) -> Seq<
    TypeDiagnostic,
> {
    match ann {
        Some(a) => if stands_for_nothing(p, mi, a) {
            out.push(TypeDiagnostic { module: p.modules[mi].path, span: a.span })
        } else {
            out
        },
        None => out,
    }
}

/// `out`, with the notes for the parameter annotations `params`, in
/// order.
pub open spec fn params_noted(
    out: Seq<TypeDiagnostic>,
    p: Program,
    mi: int,
    params: Seq<Option<TypeAnn>>,
) -> Seq<TypeDiagnostic>
    decreases params.len(),
{
    if params.len() == 0 {
        out
    } else {
        params_noted(noted(out, p, mi, params[0]), p, mi, params.skip(1))
    }
}

/// `out`, with the notes for a signature: the parameters, then the return
/// annotation.
pub open spec fn sig_noted(out: Seq<TypeDiagnostic>, p: Program, mi: int, sig: FnSig) -> Seq<
    TypeDiagnostic,
> {
    noted(params_noted(out, p, mi, sig.params@), p, mi, sig.ret)
}

/// `out`, with the notes for a member of a class.
pub open spec fn class_member_noted(
    out: Seq<TypeDiagnostic>,
    p: Program,
    mi: int,
    m: ClassMember,
) -> Seq<TypeDiagnostic> {
    match m {
        ClassMember::Constructor { params } => params_noted(out, p, mi, params@),
        ClassMember::Method { sig, .. } => sig_noted(out, p, mi, sig),
        ClassMember::Property { ann, .. } => noted(out, p, mi, ann),
        ClassMember::Other => out,
    }
}

/// `out`, with the notes for the members of a class, in order.
pub open spec fn class_members_noted(
    out: Seq<TypeDiagnostic>,
    p: Program,
    mi: int,
    members: Seq<ClassMember>,
) -> Seq<TypeDiagnostic>
    decreases members.len(),
{
    if members.len() == 0 {
        out
    } else {
        class_members_noted(class_member_noted(out, p, mi, members[0]), p, mi, members.skip(1))
    }
}

/// `out`, with the notes for a member of an interface.
pub open spec fn interface_member_noted(
    out: Seq<TypeDiagnostic>,
    p: Program,
    mi: int,
    m: InterfaceMember,
) -> Seq<TypeDiagnostic> {
    match m {
        InterfaceMember::Property { ann, .. } => noted(out, p, mi, ann),
        InterfaceMember::Method { sig, .. } => sig_noted(out, p, mi, sig),
        InterfaceMember::Other => out,
    }
}

/// `out`, with the notes for the members of an interface, in order.
pub open spec fn interface_members_noted(
    out: Seq<TypeDiagnostic>,
    p: Program,
    mi: int,
    members: Seq<InterfaceMember>,
) -> Seq<TypeDiagnostic>
    decreases members.len(),
{
    if members.len() == 0 {
        out
    } else {
        interface_members_noted(
            interface_member_noted(out, p, mi, members[0]),
            p,
            mi,
            members.skip(1),
        )
    }
}

/// `out`, with the notes for the variables that `pats` bind, in order.
pub open spec fn pats_noted(out: Seq<TypeDiagnostic>, p: Program, mi: int, pats: Seq<Pat>) -> Seq<
    TypeDiagnostic,
>
    decreases pats.len(),
{
    if pats.len() == 0 {
        out
    } else {
        let next = match pats[0] {
            Pat::Ident { ann, .. } => noted(out, p, mi, ann),
            Pat::Other => out,
        };
        pats_noted(next, p, mi, pats.skip(1))
    }
}

/// `out`, with the notes for the annotations of a declaration, in source
/// order.
pub open spec fn decl_noted(out: Seq<TypeDiagnostic>, p: Program, mi: int, decl: Decl) -> Seq<
    TypeDiagnostic,
> {
    match decl {
        Decl::Class(c) => class_members_noted(out, p, mi, c.members@),
        Decl::Fn(f) => sig_noted(out, p, mi, f.sig),
        Decl::Var(v) => pats_noted(out, p, mi, v.decls@),
        Decl::TsInterface(i) => interface_members_noted(out, p, mi, i.members@),
        Decl::TsTypeAlias(a) => noted(out, p, mi, Some(a.ann)),
        _ => out,
    }
}

/// `out`, with the notes for the declarations among `items`, in order.
pub open spec fn items_noted(
    out: Seq<TypeDiagnostic>,
    p: Program,
    mi: int,
    items: Seq<ModuleItem>,
) -> Seq<TypeDiagnostic>
    decreases items.len(),
{
    if items.len() == 0 {
        out
    } else {
        let next = match decl_of(items[0]) {
            Some(decl) => decl_noted(out, p, mi, decl),
            None => out,
        };
        items_noted(next, p, mi, items.skip(1))
    }
}

/// The notes for the first `n` modules of a program, module by module.
pub open spec fn modules_noted(p: Program, n: int) -> Seq<TypeDiagnostic>
    decreases n,
{
    if n <= 0 {
        Seq::empty()
    } else {
        items_noted(modules_noted(p, n - 1), p, n - 1, p.items(n - 1))
    }
}

/// The notes for a program: one for each annotation that stands for
/// nothing that is supported, in the order of the modules and of their
/// source.
pub open spec fn unsupported_types(p: Program) -> Seq<TypeDiagnostic> {
    modules_noted(p, p.modules.len() as int)
}

/// The walk over the annotations of a program.
struct StrictSession<'a> {
    modules: &'a Vec<ModuleData>,
    graph: &'a ModuleGraph,
    notes: Vec<TypeDiagnostic>,
}

impl<'a> StrictSession<'a> {
    /// The program whose annotations are walked.
    spec fn program(&self) -> Program {
        program(self.modules, self.graph)
    }

    /// The same program as `other`.
    spec fn same_program(&self, other: &Self) -> bool {
        self.modules == other.modules && self.graph == other.graph
    }

    /// Takes note of `ann`, written in module `mi`, where it stands for
    /// nothing.
    fn note(&mut self, mi: usize, ann: &Option<TypeAnn>)
        requires
            old(self).program().wf(),
            mi < old(self).modules@.len(),
        ensures
            final(self).same_program(old(self)),
            final(self).notes@ == noted(old(self).notes@, old(self).program(), mi as int, *ann),
    {
        match ann {
            Some(a) => {
                let nothing = match &a.base {
                    TypeBase::Unsupported => true,
                    TypeBase::Ref(name) => find_type_ref(self.modules, self.graph, mi, name).is_none(),
                    TypeBase::Keyword(_) => false,
                };
                if nothing {
                    self.notes.push(
                        TypeDiagnostic { module: self.modules[mi].path.clone(), span: a.span },
                    );
                }
            },
            None => {},
        }
    }

    /// Takes note of the parameter annotations `params`.
    fn note_params(&mut self, mi: usize, params: &Vec<Option<TypeAnn>>)
        requires
            old(self).program().wf(),
            mi < old(self).modules@.len(),
        ensures
            final(self).same_program(old(self)),
            final(self).notes@ == params_noted(
                old(self).notes@,
                old(self).program(),
                mi as int,
                params@,
            ),
    {
        assert(params@.skip(0) =~= params@);
        let mut i: usize = 0;
        while i < params.len()
            invariant
                self.same_program(old(self)),
                self.program().wf(),
                mi < self.modules@.len(),
                i <= params@.len(),
                params_noted(old(self).notes@, old(self).program(), mi as int, params@)
                    == params_noted(
                    self.notes@,
                    old(self).program(),
                    mi as int,
                    params@.skip(i as int),
                ),
            decreases params@.len() - i,
        {
            assert(params@.skip(i as int).skip(1) =~= params@.skip(i as int + 1));
            self.note(mi, &params[i]);
            i += 1;
        }
    }

    /// Takes note of the annotations of a signature.
    fn note_sig(&mut self, mi: usize, sig: &FnSig)
        requires
            old(self).program().wf(),
            mi < old(self).modules@.len(),
        ensures
            final(self).same_program(old(self)),
            final(self).notes@ == sig_noted(old(self).notes@, old(self).program(), mi as int, *sig),
    {
        self.note_params(mi, &sig.params);
        self.note(mi, &sig.ret);
    }

    /// Takes note of the annotations of a declaration.
    fn note_decl(&mut self, mi: usize, decl: &Decl)
        requires
            old(self).program().wf(),
            mi < old(self).modules@.len(),
        ensures
            final(self).same_program(old(self)),
            final(self).notes@ == decl_noted(
                old(self).notes@,
                old(self).program(),
                mi as int,
                *decl,
            ),
    {
        match decl {
            Decl::Class(c) => {
                let members = &c.members;
                assert(members@.skip(0) =~= members@);
                let mut i: usize = 0;
                while i < members.len()
                    invariant
                        self.same_program(old(self)),
                        self.program().wf(),
                        mi < self.modules@.len(),
                        i <= members@.len(),
                        class_members_noted(
                            old(self).notes@,
                            old(self).program(),
                            mi as int,
                            members@,
                        ) == class_members_noted(
                            self.notes@,
                            old(self).program(),
                            mi as int,
                            members@.skip(i as int),
                        ),
                    decreases members@.len() - i,
                {
                    assert(members@.skip(i as int).skip(1) =~= members@.skip(i as int + 1));
                    match &members[i] {
                        ClassMember::Constructor { params } => {
                            self.note_params(mi, params);
                        },
                        ClassMember::Method { sig, .. } => {
                            self.note_sig(mi, sig);
                        },
                        ClassMember::Property { ann, .. } => {
                            self.note(mi, ann);
                        },
                        ClassMember::Other => {},
                    }
                    i += 1;
                }
            },
            Decl::Fn(f) => {
                self.note_sig(mi, &f.sig);
            },
            Decl::Var(v) => {
                let pats = &v.decls;
                assert(pats@.skip(0) =~= pats@);
                let mut i: usize = 0;
                while i < pats.len()
                    invariant
                        self.same_program(old(self)),
                        self.program().wf(),
                        mi < self.modules@.len(),
                        i <= pats@.len(),
                        pats_noted(old(self).notes@, old(self).program(), mi as int, pats@)
                            == pats_noted(
                            self.notes@,
                            old(self).program(),
                            mi as int,
                            pats@.skip(i as int),
                        ),
                    decreases pats@.len() - i,
                {
                    assert(pats@.skip(i as int).skip(1) =~= pats@.skip(i as int + 1));
                    match &pats[i] {
                        Pat::Ident { ann, .. } => {
                            self.note(mi, ann);
                        },
                        Pat::Other => {},
                    }
                    i += 1;
                }
            },
            Decl::TsInterface(f) => {
                let members = &f.members;
                assert(members@.skip(0) =~= members@);
                let mut i: usize = 0;
                while i < members.len()
                    invariant
                        self.same_program(old(self)),
                        self.program().wf(),
                        mi < self.modules@.len(),
                        i <= members@.len(),
                        interface_members_noted(
                            old(self).notes@,
                            old(self).program(),
                            mi as int,
                            members@,
                        ) == interface_members_noted(
                            self.notes@,
                            old(self).program(),
                            mi as int,
                            members@.skip(i as int),
                        ),
                    decreases members@.len() - i,
                {
                    assert(members@.skip(i as int).skip(1) =~= members@.skip(i as int + 1));
                    match &members[i] {
                        InterfaceMember::Property { ann, .. } => {
                            self.note(mi, ann);
                        },
                        InterfaceMember::Method { sig, .. } => {
                            self.note_sig(mi, sig);
                        },
                        InterfaceMember::Other => {},
                    }
                    i += 1;
                }
            },
            Decl::TsTypeAlias(a) => {
                let nothing = match &a.ann.base {
                    TypeBase::Unsupported => true,
                    TypeBase::Ref(name) => find_type_ref(self.modules, self.graph, mi, name).is_none(),
                    TypeBase::Keyword(_) => false,
                };
                if nothing {
                    self.notes.push(
                        TypeDiagnostic { module: self.modules[mi].path.clone(), span: a.ann.span },
                    );
                }
            },
            _ => {},
        }
    }
}

/// Finds the annotations of a program that stand for nothing that is
/// supported and that typification therefore takes for `any`.
pub fn find_unsupported_types(modules: &Vec<ModuleData>, graph: &ModuleGraph) -> (notes: Vec<
    TypeDiagnostic,
>)
    requires
        program(modules, graph).wf(),
    ensures
        notes@ == unsupported_types(program(modules, graph)),
{
    let ghost p = program(modules, graph);
    let mut session = StrictSession { modules, graph, notes: Vec::new() };
    let mut mi: usize = 0;
    while mi < modules.len()
        invariant
            session.modules == modules,
            session.graph == graph,
            p == program(modules, graph),
            p.wf(),
            mi <= modules@.len(),
            session.notes@ == modules_noted(p, mi as int),
        decreases modules@.len() - mi,
    {
        let items = &modules[mi].module_ast;
        let ghost start = session.notes@;
        assert(items@.skip(0) =~= items@);
        let mut ji: usize = 0;
        while ji < items.len()
            invariant
                session.modules == modules,
                session.graph == graph,
                p == program(modules, graph),
                p.wf(),
                mi < modules@.len(),
                items@ == p.items(mi as int),
                ji <= items@.len(),
                items_noted(start, p, mi as int, items@) == items_noted(
                    session.notes@,
                    p,
                    mi as int,
                    items@.skip(ji as int),
                ),
            decreases items@.len() - ji,
        {
            assert(items@.skip(ji as int).skip(1) =~= items@.skip(ji as int + 1));
            match item_decl(&items[ji]) {
                Some(decl) => {
                    session.note_decl(mi, decl);
                },
                None => {},
            }
            ji += 1;
        }
        mi += 1;
    }
    session.notes
}

} // verus!
