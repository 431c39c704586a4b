use plank::ast::{
    ClassDecl, Decl, EnumMemberInit, ExportSpecifier, ImportDecl, ImportSpecifier, ModuleDecl, ModuleItem,
    NamedExport, Pat, PrimitiveKind, Stmt, TsInterfaceDecl, TypeAnn, TypeBase, VarDecl,
};
use plank::bind_graph_init::{init, Export, Import, ModuleNode, NodeInitSession, ScopeKind};
use plank::bind_init::{
    check_module, find_dependency, has_distinct_paths, is_relative, resolution_candidates, scan_specifiers,
    CacheBuilder, Dependency, ModuleData, ParsedModuleCache,
};
use plank::config::output_directory_validator;
use plank::emit::{
    emit_json, file_name_of, names_file, strip_extension, visit_order_of, OutputFile,
};
use plank::error::{BindGenError, BindGenErrorKind, UnsupportedFeature};
use plank::graph_reduce::{exposed, find_module, reduce, resolve_from, Namespace};
use plank::js_emit::JsOutput;
use plank::json_emit::{decimal_text, render_descr, JsonOutput};
use plank::structures::{contains_key, insert_key, CanonPath, ItemState, Scope, Span};
use plank::ts_flavor::{compatible, detect, Feature, FeatureSet, TsFlavor};
use plank::type_construction::{enum_primitive, find_type_ref};
use plank::type_scope::{
    find_local_decl, find_rooted_decl, find_type_binding, DeclRef, TypeBinding,
};
use plank::type_structs::{
    primitive_handle, Field, TypeDescr, TypedModuleGraph, TypedModuleNode,
};

fn path(text: &str) -> CanonPath {
    CanonPath::new(text.to_string())
}

fn span(lo: u32, hi: u32) -> Span {
    Span { lo, hi }
}

fn module(file: &str, deps: &[(&str, &str)], items: Vec<ModuleItem>) -> ModuleData {
    ModuleData {
        path: path(file),
        module_ast: items,
        dependencies: deps
            .iter()
            .map(|(specifier, target)| Dependency {
                specifier: specifier.to_string(),
                path: path(target),
            })
            .collect(),
    }
}

fn one(file: &str, deps: &[(&str, &str)], items: Vec<ModuleItem>) -> ParsedModuleCache {
    ParsedModuleCache { root: path(file), modules: vec![module(file, deps, items)] }
}

fn import(src: &str, names: &[(&str, Option<&str>)]) -> ModuleItem {
    ModuleItem::ModuleDecl(ModuleDecl::Import(ImportDecl {
        src: src.to_string(),
        specifiers: names
            .iter()
            .map(|(local, imported)| ImportSpecifier::Named {
                local: local.to_string(),
                imported: imported.map(|i| i.to_string()),
            })
            .collect(),
        span: span(3, 9),
    }))
}

fn export_local(names: &[(&str, Option<&str>)]) -> ModuleItem {
    ModuleItem::ModuleDecl(ModuleDecl::ExportNamed(NamedExport {
        src: None,
        specifiers: names
            .iter()
            .map(|(orig, exported)| ExportSpecifier::Named {
                orig: orig.to_string(),
                exported: exported.map(|e| e.to_string()),
            })
            .collect(),
        span: span(10, 20),
    }))
}

fn class(name: &str) -> Decl {
    Decl::Class(ClassDecl { name: name.to_string(), super_class: None, members: vec![] })
}

fn interface(name: &str) -> Decl {
    Decl::TsInterface(TsInterfaceDecl {
        name: name.to_string(),
        extends: vec![],
        members: vec![],
    })
}

fn var(names: &[&str]) -> Decl {
    Decl::Var(VarDecl {
        decls: names.iter().map(|n| Pat::Ident { name: n.to_string(), ann: None }).collect(),
        span: span(30, 40),
    })
}

fn local(decl: Decl) -> ModuleItem {
    ModuleItem::Stmt(Stmt::Decl(decl))
}

fn exported(decl: Decl) -> ModuleItem {
    ModuleItem::ModuleDecl(ModuleDecl::ExportDecl { decl, span: span(0, 1) })
}

fn refused(kind: UnsupportedFeature, lo: u32, hi: u32) -> BindGenError {
    BindGenError {
        module: path("/m.d.ts"),
        kind: BindGenErrorKind::UnsupportedFeature(kind),
        span: span(lo, hi),
    }
}

#[test]
fn scope_keeps_the_first_binding() {
    let mut scope: Scope<u32> = Scope::new();
    assert_eq!(scope.get("a"), None);
    scope.insert("a".to_string(), 1);
    scope.insert("b".to_string(), 2);
    assert_eq!(scope.get("a"), Some(&1));
    assert_eq!(scope.get("b"), Some(&2));
    // A later binding of a name is passed over.
    scope.insert("a".to_string(), 3);
    assert_eq!(scope.get("a"), Some(&1));
    assert_eq!(scope.get("b"), Some(&2));
    assert_eq!(scope.get(""), None);
}

#[test]
fn canon_path_is_its_text() {
    let p = path("/x/y.d.ts");
    assert_eq!(p.as_path(), "/x/y.d.ts");
    assert!(p.same(&path("/x/y.d.ts")));
    assert!(!p.same(&path("/x/z.d.ts")));
    assert_eq!(p.clone(), p);
}

#[test]
fn keys_are_kept_once_in_order() {
    let mut keys: Vec<String> = Vec::new();
    insert_key(&mut keys, "b".to_string());
    insert_key(&mut keys, "a".to_string());
    insert_key(&mut keys, "b".to_string());
    assert_eq!(keys, vec!["b".to_string(), "a".to_string()]);
    assert!(contains_key(&keys, &"a".to_string()));
    assert!(!contains_key(&keys, &"c".to_string()));
}

#[test]
fn output_argument_must_be_a_directory() {
    assert_eq!(output_directory_validator(true), Ok(()));
    assert_eq!(
        output_directory_validator(false),
        Err("Expected output argument to be a directory".to_string())
    );
}

#[test]
fn first_declaration_wins_in_a_scope() {
    let p = path("/m.d.ts");
    let deps: Vec<Dependency> = Vec::new();
    let mut session = NodeInitSession::new(&p, &deps);
    let from_a = ItemState::Imported {
        source: path("/a.d.ts"),
        src_key: "x".to_string(),
        as_key: "x".to_string(),
    };
    session.scope_item("x".to_string(), from_a.clone(), ScopeKind::Value);
    session.scope_item("x".to_string(), ItemState::Rooted, ScopeKind::ValueType);
    assert_eq!(session.value_scope.get("x"), Some(&from_a));
    assert_eq!(session.type_scope.get("x"), Some(&ItemState::Rooted));
    session.scope_item("y".to_string(), ItemState::Rooted, ScopeKind::Type);
    assert_eq!(session.value_scope.get("y"), None);
    assert_eq!(session.type_scope.get("y"), Some(&ItemState::Rooted));
}

#[test]
fn declarations_enter_their_scopes() {
    let c = one(
        "/m.d.ts",
        &[],
        vec![
            exported(class("C")),
            local(class("Hidden")),
            exported(interface("I")),
            exported(var(&["a", "b", "a"])),
            exported(class("C")),
        ],
    );
    let graph = init(&c).expect("graph");
    assert_eq!(graph.nodes.len(), 1);
    assert_eq!(graph.nodes[0].path, path("/m.d.ts"));
    assert_eq!(graph.nodes[0].rooted_export_types, vec!["C".to_string(), "I".to_string()]);
    assert_eq!(
        graph.nodes[0].rooted_export_values,
        vec!["C".to_string(), "a".to_string(), "b".to_string()]
    );
    assert!(graph.export_edges[0].is_empty());
    assert!(graph.import_edges[0].is_empty());
    assert!(graph.nodes[0].is_rooted_type(&"I".to_string()));
    assert!(!graph.nodes[0].is_rooted_value(&"I".to_string()));
    assert!(graph.module_instantiated(&path("/m.d.ts")));
    assert!(!graph.module_instantiated(&path("/n.d.ts")));
}

#[test]
fn local_export_of_an_import_gives_an_edge_under_the_export_alias() {
    let c = one(
        "/m.d.ts",
        &[("./a", "/a.d.ts")],
        vec![
            import("./a", &[("B", Some("A"))]),
            local(interface("Mine")),
            export_local(&[("B", Some("C")), ("Mine", None), ("Mine", Some("Yours")), ("nope", None)]),
        ],
    );
    let graph = init(&c).expect("graph");
    assert_eq!(
        graph.import_edges[0],
        vec![Import::Named { source: path("/a.d.ts"), src_key: "A".to_string() }]
    );
    // An import stands in both scopes, so its export gives two edges.
    let edge = Export::Named {
        source: path("/a.d.ts"),
        src_key: "A".to_string(),
        export_key: "C".to_string(),
    };
    assert_eq!(graph.export_edges[0], vec![edge.clone(), edge.clone()]);
    assert_eq!(edge.export_source(), &path("/a.d.ts"));
    assert_eq!(
        graph.nodes[0].rooted_export_types,
        vec!["Mine".to_string(), "Yours".to_string()]
    );
    assert!(graph.nodes[0].rooted_export_values.is_empty());
}

#[test]
fn an_export_sees_only_what_was_declared_before_it() {
    let c = one("/m.d.ts", &[], vec![export_local(&[("Late", None)]), local(class("Late"))]);
    let graph = init(&c).expect("graph");
    assert!(graph.nodes[0].rooted_export_types.is_empty());
    assert!(graph.nodes[0].rooted_export_values.is_empty());
}

#[test]
fn every_refused_construct_has_its_error() {
    let cases: Vec<(ModuleItem, BindGenError)> = vec![
        (
            ModuleItem::ModuleDecl(ModuleDecl::ExportDefaultDecl { span: span(1, 2) }),
            refused(UnsupportedFeature::DefaultExport, 1, 2),
        ),
        (
            ModuleItem::ModuleDecl(ModuleDecl::ExportDefaultExpr { span: span(2, 3) }),
            refused(UnsupportedFeature::DefaultExport, 2, 3),
        ),
        (
            ModuleItem::ModuleDecl(ModuleDecl::TsImportEquals { span: span(3, 4) }),
            refused(UnsupportedFeature::ImportEquals, 3, 4),
        ),
        (
            ModuleItem::ModuleDecl(ModuleDecl::TsExportAssignment { span: span(4, 5) }),
            refused(UnsupportedFeature::ExportEquals, 4, 5),
        ),
        (
            ModuleItem::ModuleDecl(ModuleDecl::TsNamespaceExport { span: span(5, 6) }),
            refused(UnsupportedFeature::NamespaceExport, 5, 6),
        ),
        (
            local(Decl::TsModule { span: span(6, 7) }),
            refused(UnsupportedFeature::TsNamespace, 6, 7),
        ),
        (
            exported(Decl::TsModule { span: span(7, 8) }),
            refused(UnsupportedFeature::TsNamespace, 7, 8),
        ),
    ];
    for (item, want) in cases {
        let c = one("/m.d.ts", &[], vec![local(class("Before")), item.clone()]);
        assert_eq!(init(&c), Err(want.clone()));
        assert_eq!(check_module(&path("/m.d.ts"), &vec![], &vec![item]), Err(want));
    }
}

#[test]
fn refused_specifiers_have_their_errors() {
    let with_import = |specifier: ImportSpecifier| {
        one(
            "/m.d.ts",
            &[("./a", "/a.d.ts")],
            vec![ModuleItem::ModuleDecl(ModuleDecl::Import(ImportDecl {
                src: "./a".to_string(),
                specifiers: vec![
                    ImportSpecifier::Named { local: "ok".to_string(), imported: None },
                    specifier,
                ],
                span: span(0, 50),
            }))],
        )
    };
    assert_eq!(
        init(&with_import(ImportSpecifier::Default { span: span(7, 8) })),
        Err(refused(UnsupportedFeature::DefaultImport, 7, 8))
    );
    assert_eq!(
        init(&with_import(ImportSpecifier::Namespace { span: span(9, 12) })),
        Err(refused(UnsupportedFeature::NamespaceImport, 9, 12))
    );
    let with_export = |specifier: ExportSpecifier| {
        one(
            "/m.d.ts",
            &[("./a", "/a.d.ts")],
            vec![ModuleItem::ModuleDecl(ModuleDecl::ExportNamed(NamedExport {
                src: Some("./a".to_string()),
                specifiers: vec![
                    ExportSpecifier::Named { orig: "ok".to_string(), exported: None },
                    specifier,
                ],
                span: span(0, 50),
            }))],
        )
    };
    // A default specifier is reported at the span of the whole export.
    assert_eq!(
        init(&with_export(ExportSpecifier::Default)),
        Err(refused(UnsupportedFeature::DefaultExport, 0, 50))
    );
    assert_eq!(
        init(&with_export(ExportSpecifier::Namespace { span: span(13, 14) })),
        Err(refused(UnsupportedFeature::NamespaceExport, 13, 14))
    );
}

#[test]
fn unresolved_specifiers_and_patterns_are_errors() {
    let unresolved = BindGenError {
        module: path("/m.d.ts"),
        kind: BindGenErrorKind::Resolve,
        span: span(3, 9),
    };
    let c = one("/m.d.ts", &[("./other", "/o.d.ts")], vec![import("./a", &[("x", None)])]);
    assert_eq!(init(&c), Err(unresolved.clone()));
    assert_eq!(
        check_module(&c.modules[0].path, &c.modules[0].dependencies, &c.modules[0].module_ast),
        Err(unresolved)
    );
    let star = one(
        "/m.d.ts",
        &[],
        vec![ModuleItem::ModuleDecl(ModuleDecl::ExportAll {
            src: "./a".to_string(),
            span: span(5, 6),
        })],
    );
    assert_eq!(
        init(&star),
        Err(BindGenError {
            module: path("/m.d.ts"),
            kind: BindGenErrorKind::Resolve,
            span: span(5, 6)
        })
    );
    let pattern = one(
        "/m.d.ts",
        &[],
        vec![exported(Decl::Var(VarDecl {
            decls: vec![Pat::Ident { name: "a".to_string(), ann: None }, Pat::Other],
            span: span(30, 40),
        }))],
    );
    assert_eq!(
        init(&pattern),
        Err(BindGenError {
            module: path("/m.d.ts"),
            kind: BindGenErrorKind::UnsupportedFeature(UnsupportedFeature::DestructuringPattern),
            span: span(30, 40)
        })
    );
}

#[test]
fn specifiers_are_scanned_in_order() {
    let items = vec![
        import("./b", &[("x", None)]),
        local(class("C")),
        ModuleItem::ModuleDecl(ModuleDecl::ExportAll { src: "./a".to_string(), span: span(0, 1) }),
        export_local(&[("C", None)]),
        import("./b", &[("y", None)]),
        ModuleItem::ModuleDecl(ModuleDecl::ExportNamed(NamedExport {
            src: Some("../c".to_string()),
            specifiers: vec![],
            span: span(0, 1),
        })),
    ];
    assert_eq!(
        scan_specifiers(&items),
        vec!["./b".to_string(), "./a".to_string(), "../c".to_string()]
    );
    let deps = vec![
        Dependency { specifier: "./a".to_string(), path: path("/first") },
        Dependency { specifier: "./a".to_string(), path: path("/second") },
    ];
    assert_eq!(find_dependency(&deps, &"./a".to_string()), Some(&path("/first")));
    assert_eq!(find_dependency(&deps, &"./b".to_string()), None);
}

#[test]
fn relative_specifiers_have_three_candidates() {
    assert!(is_relative("./a"));
    assert!(is_relative("../a/b"));
    assert!(!is_relative("a"));
    assert!(!is_relative(".a"));
    assert!(!is_relative(".."));
    assert!(!is_relative(""));
    assert!(!is_relative("/abs"));
    assert_eq!(
        resolution_candidates("./lib/x"),
        vec![
            "./lib/x.d.ts".to_string(),
            "./lib/x.ts".to_string(),
            "./lib/x/index.d.ts".to_string()
        ]
    );
    assert!(resolution_candidates("react").is_empty());
}

#[test]
fn cache_builder_asks_for_what_is_missing() {
    let mut builder = CacheBuilder::new(path("/root.d.ts"));
    assert!(!builder.has_loaded(&path("/root.d.ts")));
    assert_eq!(builder.next(), Some(path("/root.d.ts")));
    builder
        .add(module(
            "/root.d.ts",
            &[("./a", "/a.d.ts"), ("./b", "/b.d.ts")],
            vec![import("./a", &[("x", None)]), import("./b", &[("y", None)])],
        ))
        .expect("taken");
    assert!(builder.has_loaded(&path("/root.d.ts")));
    assert_eq!(builder.next(), Some(path("/a.d.ts")));
    // A module that is refused is not taken.
    let err = builder
        .add(module(
            "/a.d.ts",
            &[],
            vec![ModuleItem::ModuleDecl(ModuleDecl::ExportDefaultExpr { span: span(4, 8) })],
        ))
        .expect_err("refused");
    assert_eq!(err.module, path("/a.d.ts"));
    assert_eq!(err.kind, BindGenErrorKind::UnsupportedFeature(UnsupportedFeature::DefaultExport));
    assert_eq!(builder.next(), Some(path("/a.d.ts")));
    // Import cycles are no error.
    builder
        .add(module("/a.d.ts", &[("./root", "/root.d.ts")], vec![import("./root", &[("r", None)])]))
        .expect("taken");
    assert_eq!(builder.next(), Some(path("/b.d.ts")));
    builder.add(module("/b.d.ts", &[], vec![])).expect("taken");
    // Taking a module twice changes nothing.
    builder.add(module("/b.d.ts", &[], vec![local(class("Other"))])).expect("passed over");
    assert_eq!(builder.next(), None);
    let cache = builder.finish().expect("complete");
    assert_eq!(cache.root, path("/root.d.ts"));
    let paths: Vec<&str> = cache.modules.iter().map(|m| m.path.as_path()).collect();
    assert_eq!(paths, vec!["/root.d.ts", "/a.d.ts", "/b.d.ts"]);
    assert!(cache.modules[2].module_ast.is_empty());

    let mut unfinished = CacheBuilder::new(path("/root.d.ts"));
    unfinished
        .add(module("/root.d.ts", &[("./a", "/a.d.ts")], vec![import("./a", &[("x", None)])]))
        .expect("taken");
    assert_eq!(unfinished.finish(), None);
}

fn three_modules() -> ParsedModuleCache {
    ParsedModuleCache {
        root: path("/root.d.ts"),
        modules: vec![
            module(
                "/root.d.ts",
                &[("./a", "/a.d.ts"), ("./b", "/b.d.ts")],
                vec![
                    ModuleItem::ModuleDecl(ModuleDecl::ExportAll {
                        src: "./a".to_string(),
                        span: span(0, 1),
                    }),
                    ModuleItem::ModuleDecl(ModuleDecl::ExportNamed(NamedExport {
                        src: Some("./b".to_string()),
                        specifiers: vec![ExportSpecifier::Named {
                            orig: "inner".to_string(),
                            exported: Some("outer".to_string()),
                        }],
                        span: span(0, 1),
                    })),
                ],
            ),
            module(
                "/a.d.ts",
                &[("./b", "/b.d.ts")],
                vec![
                    exported(class("A")),
                    ModuleItem::ModuleDecl(ModuleDecl::ExportAll {
                        src: "./b".to_string(),
                        span: span(0, 1),
                    }),
                ],
            ),
            module("/b.d.ts", &[], vec![exported(var(&["inner"])), exported(interface("B"))]),
        ],
    }
}

#[test]
fn resolution_follows_re_exports() {
    let graph = init(&three_modules()).expect("graph");
    assert_eq!(find_module(&graph, &path("/b.d.ts")), Some(2));
    assert_eq!(find_module(&graph, &path("/c.d.ts")), None);
    let mut visited = Vec::new();
    assert_eq!(
        resolve_from(&graph, 0, &"B".to_string(), Namespace::Type, &mut visited),
        Some((2, "B".to_string()))
    );
    assert_eq!(resolve_from(&graph, 0, &"B".to_string(), Namespace::Value, &mut visited), None);
    assert_eq!(
        resolve_from(&graph, 0, &"outer".to_string(), Namespace::Value, &mut visited),
        Some((2, "inner".to_string()))
    );
    assert_eq!(
        resolve_from(&graph, 0, &"A".to_string(), Namespace::Value, &mut visited),
        Some((1, "A".to_string()))
    );
    assert_eq!(resolve_from(&graph, 7, &"A".to_string(), Namespace::Value, &mut visited), None);
    assert!(visited.is_empty());
    let mut on_path = Vec::new();
    assert_eq!(
        exposed(&graph, 0, &mut on_path),
        vec!["A".to_string(), "B".to_string(), "inner".to_string(), "outer".to_string()]
    );
    assert_eq!(
        exposed(&graph, 1, &mut on_path),
        vec!["A".to_string(), "B".to_string(), "inner".to_string()]
    );
}

#[test]
fn names_are_found_in_their_scopes() {
    let items = vec![
        import("./a", &[("Both", Some("Theirs"))]),
        local(interface("Both")),
        local(interface("Mine")),
        import("./a", &[("Mine", None)]),
        exported(var(&["v", "w"])),
        export_local(&[("Mine", Some("Alias")), ("w", Some("z"))]),
    ];
    let deps = vec![Dependency { specifier: "./a".to_string(), path: path("/a.d.ts") }];
    assert_eq!(
        find_local_decl(&items, &"Mine".to_string(), Namespace::Type),
        Some(DeclRef { item: 2, pat: 0 })
    );
    assert_eq!(find_local_decl(&items, &"Mine".to_string(), Namespace::Value), None);
    assert_eq!(
        find_local_decl(&items, &"w".to_string(), Namespace::Value),
        Some(DeclRef { item: 4, pat: 1 })
    );
    assert_eq!(
        find_rooted_decl(&items, &"Alias".to_string(), Namespace::Type),
        Some(DeclRef { item: 2, pat: 0 })
    );
    assert_eq!(
        find_rooted_decl(&items, &"z".to_string(), Namespace::Value),
        Some(DeclRef { item: 4, pat: 1 })
    );
    assert_eq!(find_rooted_decl(&items, &"Mine".to_string(), Namespace::Type), None);
    // Of an import and a declaration of one name, the first counts.
    assert!(matches!(
        find_type_binding(&items, &deps, &"Both".to_string()),
        Some(TypeBinding::Imported { .. })
    ));
    assert!(matches!(
        find_type_binding(&items, &deps, &"Mine".to_string()),
        Some(TypeBinding::Local(2))
    ));
    assert!(find_type_binding(&items, &deps, &"None".to_string()).is_none());
}

#[test]
fn imported_names_lead_to_declarations() {
    let c = three_modules();
    let (graph, _) = reduce(init(&c).expect("graph"));
    let mut with_import = c.modules.clone();
    with_import[1].module_ast.push(import("./b", &[("Local", Some("B"))]));
    assert_eq!(
        find_type_ref(&with_import, &graph, 1, &"Local".to_string()),
        Some((2, DeclRef { item: 1, pat: 0 }))
    );
    assert_eq!(
        find_type_ref(&with_import, &graph, 1, &"A".to_string()),
        Some((1, DeclRef { item: 0, pat: 0 }))
    );
    assert_eq!(find_type_ref(&with_import, &graph, 1, &"B".to_string()), None);
}

#[test]
fn enums_count_as_built_in_types() {
    assert_eq!(enum_primitive(&vec![]), PrimitiveKind::Number);
    assert_eq!(enum_primitive(&vec![EnumMemberInit::Auto, EnumMemberInit::Number, EnumMemberInit::Auto]), PrimitiveKind::Number);
    assert_eq!(enum_primitive(&vec![EnumMemberInit::Str, EnumMemberInit::Str]), PrimitiveKind::String);
    assert_eq!(enum_primitive(&vec![EnumMemberInit::Str, EnumMemberInit::Number]), PrimitiveKind::Any);
    assert_eq!(enum_primitive(&vec![EnumMemberInit::Other]), PrimitiveKind::Any);
    assert_eq!(primitive_handle(PrimitiveKind::Boolean), 0);
    assert_eq!(primitive_handle(PrimitiveKind::Never), 6);
}

#[test]
fn numerals_are_decimal() {
    assert_eq!(decimal_text(0), "0");
    assert_eq!(decimal_text(7), "7");
    assert_eq!(decimal_text(10), "10");
    assert_eq!(decimal_text(1234567890), "1234567890");
    assert_eq!(decimal_text(u64::MAX), "18446744073709551615");
}

#[test]
fn descriptors_render_as_json_objects() {
    assert_eq!(
        render_descr(&TypeDescr::Primitive(PrimitiveKind::Never)),
        "{\"kind\":\"primitive\",\"name\":\"never\"}"
    );
    assert_eq!(
        render_descr(&TypeDescr::Array { elem: 12, rank: 3 }),
        "{\"kind\":\"array\",\"elem\":12,\"rank\":3}"
    );
    assert_eq!(
        render_descr(&TypeDescr::Fn { origin: path("/a\\b"), params: vec![], ret: None }),
        "{\"kind\":\"fn\",\"origin\":\"/a\\\\b\",\"params\":[],\"ret\":null}"
    );
    assert_eq!(
        render_descr(&TypeDescr::Fn { origin: path("/a"), params: vec![1, 20, 3], ret: Some(4) }),
        "{\"kind\":\"fn\",\"origin\":\"/a\",\"params\":[1,20,3],\"ret\":4}"
    );
    assert_eq!(
        render_descr(&TypeDescr::Class {
            name: "C".to_string(),
            origin: path("/a"),
            constructor: 9,
            fields: vec![
                Field { name: "x".to_string(), ty: 1 },
                Field { name: "y z".to_string(), ty: 2 }
            ],
        }),
        "{\"kind\":\"class\",\"name\":\"C\",\"origin\":\"/a\",\"constructor\":9,\
\"fields\":{\"x\":1,\"y z\":2}}"
    );
    assert_eq!(
        render_descr(&TypeDescr::Interface { origin: path("/a"), fields: vec![] }),
        "{\"kind\":\"interface\",\"origin\":\"/a\",\"fields\":{}}"
    );
}

#[test]
fn artifacts_keep_the_first_export_of_a_name() {
    let mut json = JsonOutput::new();
    json.export_type(&"T".to_string(), 7);
    json.export_type(&"T".to_string(), 8);
    json.export_value(&"T".to_string(), 9);
    json.export_value(&"v".to_string(), 1);
    assert_eq!(json.types, vec![Field { name: "T".to_string(), ty: 7 }]);
    assert_eq!(
        json.finalize(&vec![]),
        "{\"types\":{\"T\":7},\"values\":{\"T\":9,\"v\":1},\"descriptors\":[]}"
    );
    let mut js = JsOutput::new();
    js.handle_type(&"T".to_string(), 7);
    js.handle_value(&"v".to_string(), 1);
    js.handle_value(&"w".to_string(), 2);
    js.handle_value(&"v".to_string(), 3);
    assert_eq!(js.names, vec!["v".to_string(), "w".to_string()]);
    assert_eq!(
        js.finalize("./m.js".to_string()),
        "const source = require(\"./m.js\");\n\
exports[\"v\"] = source[\"v\"];\nexports[\"w\"] = source[\"w\"];\n"
    );
}

#[test]
fn file_names_and_extensions() {
    assert_eq!(file_name_of("/a/b/root.d.ts"), "root.d.ts");
    assert_eq!(file_name_of("root.d.ts"), "root.d.ts");
    assert_eq!(file_name_of("/a/b/"), "");
    assert_eq!(strip_extension("root.d.ts"), "root.d");
    assert_eq!(strip_extension("root"), "root");
    assert_eq!(strip_extension(".hidden"), ".hidden");
    assert_eq!(strip_extension("trailing."), "trailing");
    assert_eq!(strip_extension(""), "");
    assert!(names_file(&path("/a/b.ts")));
    assert!(!names_file(&path("/a/")));
    assert!(!names_file(&path("")));
}

fn node(file: &str, types: &[(&str, usize)], values: &[(&str, usize)]) -> TypedModuleNode {
    let fields = |list: &[(&str, usize)]| {
        list.iter().map(|(name, ty)| Field { name: name.to_string(), ty: *ty }).collect()
    };
    TypedModuleNode {
        path: path(file),
        rooted_export_types: fields(types),
        rooted_export_values: fields(values),
    }
}

fn to(file: &str) -> Export {
    Export::NamedValue {
        source: path(file),
        src_key: "k".to_string(),
        export_key: "k".to_string(),
    }
}

#[test]
fn the_walk_is_depth_first_in_edge_order() {
    let graph = TypedModuleGraph {
        nodes: vec![
            node("/r", &[], &[]),
            node("/a", &[], &[]),
            node("/b", &[], &[]),
            node("/c", &[], &[]),
            node("/d", &[], &[]),
        ],
        export_edges: vec![
            vec![to("/a"), to("/b"), to("/a"), to("/gone")],
            vec![to("/c"), to("/r")],
            vec![to("/c")],
            vec![to("/b")],
            vec![],
        ],
        arena: vec![],
    };
    // r, then its first child a, then a's child c, then c's child b.
    assert_eq!(visit_order_of(&path("/r"), &graph), vec![0, 1, 3, 2]);
    assert_eq!(visit_order_of(&path("/b"), &graph), vec![2, 3]);
    assert_eq!(visit_order_of(&path("/d"), &graph), vec![4]);
    assert!(visit_order_of(&path("/gone"), &graph).is_empty());
}

#[test]
fn the_root_alone_is_described_with_types_and_values() {
    let arena = vec![
        TypeDescr::Primitive(PrimitiveKind::Number),
        TypeDescr::Interface { origin: path("/p/root.d.ts"), fields: vec![] },
    ];
    let file = emit_json(&node("/p/root.d.ts", &[("A", 1), ("B \"x\"", 1)], &[("v", 0)]), &arena);
    assert_eq!(
        file,
        OutputFile {
            name: "root.arr.json".to_string(),
            contents: "{\"types\":{\"A\":1,\"B \\\"x\\\"\":1},\"values\":{\"v\":0},\"descriptors\":[\
{\"kind\":\"primitive\",\"name\":\"number\"},\
{\"kind\":\"interface\",\"origin\":\"/p/root.d.ts\",\"fields\":{}}]}"
                .to_string(),
        }
    );
    // A root that exports one value and no type still has its value
    // described.
    let values_only = emit_json(&node("/src/root.ts", &[], &[("v", 0)]), &arena);
    assert_eq!(values_only.name, "root.arr.json");
    assert!(values_only.contents.starts_with("{\"types\":{},\"values\":{\"v\":0},"));
}

#[test]
fn features_are_detected_and_compared() {
    let graph = TypedModuleGraph {
        nodes: vec![node("/r", &[("T", 7)], &[("v", 2)])],
        export_edges: vec![vec![]],
        arena: vec![
            TypeDescr::Primitive(PrimitiveKind::Boolean),
            TypeDescr::Primitive(PrimitiveKind::Number),
            TypeDescr::Primitive(PrimitiveKind::String),
            TypeDescr::Primitive(PrimitiveKind::Void),
            TypeDescr::Primitive(PrimitiveKind::Object),
            TypeDescr::Primitive(PrimitiveKind::Any),
            TypeDescr::Primitive(PrimitiveKind::Never),
            TypeDescr::Interface {
                origin: path("/r"),
                fields: vec![Field { name: "f".to_string(), ty: 8 }],
            },
            TypeDescr::Array { elem: 1, rank: 1 },
        ],
    };
    let detected = detect(&graph);
    let mut want = FeatureSet::empty();
    want.interface = true;
    want.array = true;
    want.number = true;
    want.string = true;
    assert_eq!(detected, want);
    assert!(detected.contains(Feature::Array));
    assert!(!detected.contains(Feature::Primitive(PrimitiveKind::Any)));
    assert_eq!(compatible(&detected, &FeatureSet::all()), Ok(()));
    assert_eq!(compatible(&detected, &TsFlavor::TsFull.features()), Ok(()));
    assert_eq!(
        compatible(&detected, &TsFlavor::TsNum.features()),
        Err(vec![
            Feature::Interface,
            Feature::Array,
            Feature::Primitive(PrimitiveKind::String)
        ])
    );
    assert_eq!(compatible(&detected, &TsFlavor::TsCustom(want).features()), Ok(()));
    assert_eq!(compatible(&FeatureSet::empty(), &FeatureSet::empty()), Ok(()));
}

#[test]
fn module_nodes_answer_for_their_keys() {
    let n = ModuleNode {
        path: path("/m"),
        rooted_export_types: vec!["T".to_string()],
        rooted_export_values: vec!["v".to_string()],
    };
    assert!(n.is_rooted_type(&"T".to_string()));
    assert!(!n.is_rooted_type(&"v".to_string()));
    assert!(n.is_rooted_value(&"v".to_string()));
    let _ = TypeAnn { base: TypeBase::Unsupported, rank: 0, span: span(0, 0) };
}

#[test]
fn a_refused_item_leaves_the_session_as_it_was() {
    let p = path("/m.d.ts");
    let deps = vec![Dependency { specifier: "./a".to_string(), path: path("/a.d.ts") }];
    let mut session = NodeInitSession::new(&p, &deps);
    session
        .process_module_item(&import("./a", &[("kept", None)]))
        .expect("taken");
    let edges = session.import_edges.len();
    // The first specifier is a named one, the second is refused: nothing
    // of the import is taken.
    let refused_import = ModuleItem::ModuleDecl(ModuleDecl::Import(ImportDecl {
        src: "./a".to_string(),
        specifiers: vec![
            ImportSpecifier::Named { local: "lost".to_string(), imported: None },
            ImportSpecifier::Default { span: span(7, 8) },
        ],
        span: span(0, 9),
    }));
    assert_eq!(
        session.process_module_item(&refused_import),
        Err(refused(UnsupportedFeature::DefaultImport, 7, 8))
    );
    assert_eq!(session.import_edges.len(), edges);
    assert_eq!(session.value_scope.get("lost"), None);
    assert_eq!(session.type_scope.get("lost"), None);
    assert!(session.value_scope.get("kept").is_some());
    // A declaration that is refused declares none of its names.
    let pattern = exported(Decl::Var(VarDecl {
        decls: vec![Pat::Ident { name: "early".to_string(), ann: None }, Pat::Other],
        span: span(30, 40),
    }));
    assert_eq!(
        session.process_module_item(&pattern),
        Err(refused(UnsupportedFeature::DestructuringPattern, 30, 40))
    );
    assert!(session.rooted_values.is_empty());
    assert_eq!(session.value_scope.get("early"), None);
    // A module that is refused leaves the graph as it was.
    let mut graph = init(&one("/x.d.ts", &[], vec![exported(class("X"))])).expect("graph");
    let bad = module("/m.d.ts", &[], vec![exported(class("Fine")), refused_import]);
    let cache = ParsedModuleCache { root: path("/m.d.ts"), modules: vec![] };
    assert!(NodeInitSession::init(&mut graph, &cache, &bad).is_err());
    assert_eq!(graph.nodes.len(), 1);
    assert_eq!(graph.export_edges.len(), 1);
    assert_eq!(graph.import_edges.len(), 1);
}

#[test]
fn dependencies_are_asked_for_once_and_in_order() {
    let mut builder = CacheBuilder::new(path("/root.d.ts"));
    builder
        .add(module(
            "/root.d.ts",
            &[("./b", "/b.d.ts"), ("./a", "/a.d.ts"), ("./b2", "/b.d.ts"), ("./r", "/root.d.ts")],
            vec![],
        ))
        .expect("taken");
    // In the order of the dependency map, each module once.
    assert_eq!(builder.next(), Some(path("/b.d.ts")));
    builder.add(module("/b.d.ts", &[("./c", "/c.d.ts"), ("./a", "/a.d.ts")], vec![])).expect("taken");
    assert_eq!(builder.next(), Some(path("/a.d.ts")));
    builder.add(module("/a.d.ts", &[], vec![])).expect("taken");
    assert_eq!(builder.next(), Some(path("/c.d.ts")));
    builder.add(module("/c.d.ts", &[], vec![])).expect("taken");
    assert_eq!(builder.next(), None);
}

#[test]
fn arrays_over_arrays_add_to_the_rank() {
    let number = TypeAnn::plain(TypeBase::Keyword(PrimitiveKind::Number), span(0, 6));
    assert_eq!(
        number,
        TypeAnn { base: TypeBase::Keyword(PrimitiveKind::Number), rank: 0, span: span(0, 6) }
    );
    let row = TypeAnn::array_of(number, span(0, 8));
    let grid = TypeAnn::array_of(TypeAnn::grouped(row.clone(), span(0, 10)), span(0, 12));
    assert_eq!(row.rank, 1);
    assert_eq!(
        grid,
        TypeAnn { base: TypeBase::Keyword(PrimitiveKind::Number), rank: 2, span: span(0, 12) }
    );
    let full = TypeAnn { base: TypeBase::Unsupported, rank: u64::MAX, span: span(0, 0) };
    assert_eq!(TypeAnn::array_of(full, span(1, 2)).rank, u64::MAX);
}

#[test]
fn a_module_given_again_takes_the_place_of_the_first() {
    let c = ParsedModuleCache {
        root: path("/a.d.ts"),
        modules: vec![
            module("/a.d.ts", &[], vec![exported(class("First"))]),
            module("/b.d.ts", &[], vec![exported(class("Other"))]),
        ],
    };
    assert!(has_distinct_paths(&c.modules));
    let mut graph = init(&c).expect("graph");
    let again = module("/a.d.ts", &[], vec![exported(interface("Second"))]);
    NodeInitSession::init(&mut graph, &c, &again).expect("taken");
    // The graph holds each path once.
    assert_eq!(graph.nodes.len(), 2);
    assert_eq!(graph.export_edges.len(), 2);
    assert_eq!(graph.import_edges.len(), 2);
    assert_eq!(graph.nodes[0].path, path("/a.d.ts"));
    assert_eq!(graph.nodes[0].rooted_export_types, vec!["Second".to_string()]);
    assert!(graph.nodes[0].rooted_export_values.is_empty());
    assert_eq!(graph.nodes[1].rooted_export_types, vec!["Other".to_string()]);

    let twice = vec![
        module("/a.d.ts", &[], vec![]),
        module("/b.d.ts", &[], vec![]),
        module("/a.d.ts", &[], vec![]),
    ];
    assert!(!has_distinct_paths(&twice));
    assert!(has_distinct_paths(&vec![]));
    let merged = init(&ParsedModuleCache { root: path("/a.d.ts"), modules: twice }).expect("graph");
    assert_eq!(merged.nodes.len(), 2);
}
