use plank::ast::{
    Accessibility, ClassDecl, ClassMember, Decl, ExportSpecifier, FnDecl, FnSig, ImportDecl,
    ImportSpecifier, InterfaceMember, ModuleDecl, ModuleItem, NamedExport, Pat, PrimitiveKind,
    Stmt, TsEnumDecl, TsInterfaceDecl, TsTypeAliasDecl, TypeAnn, TypeBase, VarDecl,
    EnumMemberInit,
};
use plank::bind_graph_init::{init, Export, ModuleGraph};
use plank::bind_init::{Dependency, ModuleData, ParsedModuleCache};
use plank::config::{CompileOpt, EmitConfig};
use plank::emit::asks_root_name;
use plank::error::{BindGenErrorKind, UnsupportedFeature};
use plank::generate::{gen, GenError};
use plank::graph_reduce::{reduce, DanglingExport};
use plank::structures::{CanonPath, Span};
use plank::ts_flavor::{Feature, TsFlavor};
use plank::type_structs::{Field, TypeDescr, TypedModuleGraph};
use plank::typify_graph::typify;

fn path(text: &str) -> CanonPath {
    CanonPath::new(text.to_string())
}

fn span(lo: u32, hi: u32) -> Span {
    Span { lo, hi }
}

fn keyword(kind: PrimitiveKind) -> Option<TypeAnn> {
    Some(TypeAnn { base: TypeBase::Keyword(kind), rank: 0, span: span(0, 0) })
}

fn named(name: &str, rank: u64) -> Option<TypeAnn> {
    Some(TypeAnn { base: TypeBase::Ref(name.to_string()), rank, span: span(0, 0) })
}

fn module(file: &str, deps: &[(&str, &str)], items: Vec<ModuleItem>) -> ModuleData {
    ModuleData {
        path: path(file),
        module_ast: items,
        dependencies: deps
            .iter()
            .map(|(specifier, target)| Dependency {
                specifier: specifier.to_string(),
                path: path(target),
            })
            .collect(),
    }
}

fn cache(modules: Vec<ModuleData>) -> ParsedModuleCache {
    ParsedModuleCache { root: path("/p/root.d.ts"), modules }
}

fn export_decl(decl: Decl) -> ModuleItem {
    ModuleItem::ModuleDecl(ModuleDecl::ExportDecl { decl, span: span(0, 1) })
}

fn reexport(src: &str, names: &[(&str, Option<&str>)]) -> ModuleItem {
    ModuleItem::ModuleDecl(ModuleDecl::ExportNamed(NamedExport {
        src: Some(src.to_string()),
        specifiers: names
            .iter()
            .map(|(orig, exported)| ExportSpecifier::Named {
                orig: orig.to_string(),
                exported: exported.map(|e| e.to_string()),
            })
            .collect(),
        span: span(0, 1),
    }))
}

fn export_all(src: &str) -> ModuleItem {
    ModuleItem::ModuleDecl(ModuleDecl::ExportAll { src: src.to_string(), span: span(0, 1) })
}

fn var(name: &str, ann: Option<TypeAnn>) -> Decl {
    Decl::Var(VarDecl {
        decls: vec![Pat::Ident { name: name.to_string(), ann }],
        span: span(0, 1),
    })
}

fn interface(name: &str, extends: &[&str], members: Vec<InterfaceMember>) -> Decl {
    Decl::TsInterface(TsInterfaceDecl {
        name: name.to_string(),
        extends: extends.iter().map(|e| e.to_string()).collect(),
        members,
    })
}

fn property(name: &str, ann: Option<TypeAnn>) -> InterfaceMember {
    InterfaceMember::Property { name: name.to_string(), ann }
}

fn typed(c: &ParsedModuleCache) -> (TypedModuleGraph, Vec<DanglingExport>) {
    let graph = init(c).expect("graph");
    let (graph, dangling) = reduce(graph);
    (typify(c, graph), dangling)
}

fn options() -> CompileOpt {
    CompileOpt {
        input_path: "/p/root.d.ts".to_string(),
        output_dir: "/out".to_string(),
        file_stem: None,
        emit_config: EmitConfig { json: true, js: true },
        ts_flavor: TsFlavor::TsFull,
        strict: false,
    }
}

fn field(name: &str, ty: usize) -> Field {
    Field { name: name.to_string(), ty }
}

const BOOLEAN: usize = 0;
const NUMBER: usize = 1;
const STRING: usize = 2;
const VOID: usize = 3;
const ANY: usize = 5;

fn foo_class() -> Decl {
    Decl::Class(ClassDecl {
        name: "Foo".to_string(),
        super_class: None,
        members: vec![
            ClassMember::Constructor { params: vec![keyword(PrimitiveKind::Number)] },
            ClassMember::Method {
                name: "bar".to_string(),
                sig: FnSig {
                    params: vec![keyword(PrimitiveKind::String)],
                    ret: keyword(PrimitiveKind::Void),
                },
                is_static: false,
                accessibility: Accessibility::Public,
            },
        ],
    })
}

#[test]
fn single_file_class_export() {
    let c = cache(vec![module("/p/root.d.ts", &[], vec![export_decl(foo_class())])]);
    let (t, dangling) = typed(&c);
    assert!(dangling.is_empty());
    assert_eq!(t.nodes.len(), 1);
    assert_eq!(t.nodes[0].rooted_export_types, vec![field("Foo", 7)]);
    assert_eq!(t.nodes[0].rooted_export_values, vec![field("Foo", 8)]);
    // The arena: the seven built-in types, the class, its constructor, the
    // method.
    assert_eq!(t.arena.len(), 10);
    assert_eq!(
        t.arena[9],
        TypeDescr::Fn { origin: path("/p/root.d.ts"), params: vec![STRING], ret: Some(VOID) }
    );
    assert_eq!(
        t.arena[7],
        TypeDescr::Class {
            name: "Foo".to_string(),
            origin: path("/p/root.d.ts"),
            constructor: 8,
            fields: vec![field("bar", 9)],
        }
    );
    assert_eq!(
        t.arena[8],
        TypeDescr::Fn { origin: path("/p/root.d.ts"), params: vec![NUMBER], ret: Some(7) }
    );
}

fn chain() -> ParsedModuleCache {
    cache(vec![
        module("/p/root.d.ts", &[("./b", "/p/b.d.ts")], vec![reexport("./b", &[("I", None)])]),
        module("/p/b.d.ts", &[("./a", "/p/a.d.ts")], vec![reexport("./a", &[("I", None)])]),
        module(
            "/p/a.d.ts",
            &[],
            vec![export_decl(interface(
                "I",
                &[],
                vec![property("n", keyword(PrimitiveKind::Number))],
            ))],
        ),
    ])
}

#[test]
fn re_export_chain() {
    let c = chain();
    let graph = init(&c).expect("graph");
    assert_eq!(
        graph.export_edges[0],
        vec![Export::Named {
            source: path("/p/b.d.ts"),
            src_key: "I".to_string(),
            export_key: "I".to_string(),
        }]
    );
    let (reduced, dangling) = reduce(graph);
    assert!(dangling.is_empty());
    let to_a = vec![Export::NamedType {
        source: path("/p/a.d.ts"),
        src_key: "I".to_string(),
        export_key: "I".to_string(),
    }];
    assert_eq!(reduced.export_edges[0], to_a);
    assert_eq!(reduced.export_edges[1], to_a);
    assert!(reduced.export_edges[2].is_empty());

    let t = typify(&c, reduced);
    assert_eq!(t.nodes[2].rooted_export_types, vec![field("I", 7)]);
    assert_eq!(
        t.arena[7],
        TypeDescr::Interface { origin: path("/p/a.d.ts"), fields: vec![field("n", NUMBER)] }
    );

    let done = gen(&options(), &c).expect("artifacts");
    assert_eq!(done.files.len(), 2);
    assert_eq!(done.files[0].name, "root.arr.json");
    assert_eq!(
        done.files[0].contents,
        "{\"types\":{\"I\":7},\"values\":{},\"descriptors\":[\
{\"kind\":\"primitive\",\"name\":\"boolean\"},\
{\"kind\":\"primitive\",\"name\":\"number\"},\
{\"kind\":\"primitive\",\"name\":\"string\"},\
{\"kind\":\"primitive\",\"name\":\"void\"},\
{\"kind\":\"primitive\",\"name\":\"object\"},\
{\"kind\":\"primitive\",\"name\":\"any\"},\
{\"kind\":\"primitive\",\"name\":\"never\"},\
{\"kind\":\"interface\",\"origin\":\"/p/a.d.ts\",\"fields\":{\"n\":1}}]}"
    );
    assert_eq!(done.files[1].name, "root.arr.js");
    assert_eq!(done.files[1].contents, "const source = require(\"./root.js\");\n");
}

#[test]
fn star_re_export_with_shadowing() {
    let c = cache(vec![
        module(
            "/p/root.d.ts",
            &[("./a", "/p/a.d.ts")],
            vec![export_all("./a"), export_decl(var("x", keyword(PrimitiveKind::String)))],
        ),
        module("/p/a.d.ts", &[], vec![export_decl(var("x", keyword(PrimitiveKind::Number)))]),
    ]);
    let (t, dangling) = typed(&c);
    assert!(dangling.is_empty());
    // The declaration of the root shadows what the star would bring.
    assert!(t.export_edges[0].is_empty());
    assert_eq!(t.nodes[0].rooted_export_values, vec![field("x", STRING)]);
    assert_eq!(t.nodes[1].rooted_export_values, vec![field("x", NUMBER)]);

    let done = gen(&options(), &c).expect("artifacts");
    assert!(done.files[0].contents.starts_with("{\"types\":{},\"values\":{\"x\":2},"));
    assert_eq!(
        done.files[1].contents,
        "const source = require(\"./root.js\");\nexports[\"x\"] = source[\"x\"];\n"
    );
}

#[test]
fn star_re_export_brings_what_is_not_shadowed() {
    let c = cache(vec![
        module(
            "/p/root.d.ts",
            &[("./a", "/p/a.d.ts")],
            vec![export_all("./a"), export_decl(var("x", keyword(PrimitiveKind::String)))],
        ),
        module(
            "/p/a.d.ts",
            &[],
            vec![
                export_decl(var("x", keyword(PrimitiveKind::Number))),
                export_decl(var("y", keyword(PrimitiveKind::Boolean))),
                export_decl(foo_class()),
            ],
        ),
    ]);
    let graph = init(&c).expect("graph");
    let (reduced, dangling) = reduce(graph);
    assert!(dangling.is_empty());
    // In the export order of the source: its rooted types, its rooted
    // values; a class is both.
    assert_eq!(
        reduced.export_edges[0],
        vec![
            Export::NamedType {
                source: path("/p/a.d.ts"),
                src_key: "Foo".to_string(),
                export_key: "Foo".to_string(),
            },
            Export::NamedValue {
                source: path("/p/a.d.ts"),
                src_key: "Foo".to_string(),
                export_key: "Foo".to_string(),
            },
            Export::NamedValue {
                source: path("/p/a.d.ts"),
                src_key: "y".to_string(),
                export_key: "y".to_string(),
            },
        ]
    );
}

#[test]
fn cycle_safe() {
    let c = cache(vec![
        module("/p/root.d.ts", &[("./b", "/p/b.d.ts")], vec![reexport("./b", &[("X", None)])]),
        module(
            "/p/b.d.ts",
            &[("./a", "/p/root.d.ts")],
            vec![reexport("./a", &[("X", None)])],
        ),
    ]);
    let (t, dangling) = typed(&c);
    assert!(t.export_edges[0].is_empty());
    assert!(t.export_edges[1].is_empty());
    assert!(t.nodes[0].rooted_export_types.is_empty());
    assert!(t.nodes[0].rooted_export_values.is_empty());
    assert_eq!(
        dangling,
        vec![
            DanglingExport { module: path("/p/root.d.ts"), export_key: "X".to_string() },
            DanglingExport { module: path("/p/b.d.ts"), export_key: "X".to_string() },
        ]
    );
    let done = gen(&options(), &c).expect("artifacts");
    assert!(done.files[0].contents.starts_with("{\"types\":{},\"values\":{},"));
    assert_eq!(done.dangling.len(), 2);
}

#[test]
fn cycle_keeps_local_exports() {
    let c = cache(vec![
        module(
            "/p/root.d.ts",
            &[("./b", "/p/b.d.ts")],
            vec![reexport("./b", &[("X", None)]), export_decl(var("own", None))],
        ),
        module(
            "/p/b.d.ts",
            &[("./a", "/p/root.d.ts")],
            vec![reexport("./a", &[("X", None), ("own", Some("theirs"))])],
        ),
    ]);
    let graph = init(&c).expect("graph");
    let (reduced, dangling) = reduce(graph);
    assert_eq!(reduced.nodes[0].rooted_export_values, vec!["own".to_string()]);
    assert!(reduced.export_edges[0].is_empty());
    assert_eq!(
        reduced.export_edges[1],
        vec![Export::NamedValue {
            source: path("/p/root.d.ts"),
            src_key: "own".to_string(),
            export_key: "theirs".to_string(),
        }]
    );
    assert_eq!(dangling.len(), 2);
}

#[test]
fn type_value_dual() {
    let c = cache(vec![module(
        "/p/root.d.ts",
        &[],
        vec![export_decl(Decl::Class(ClassDecl {
            name: "C".to_string(),
            super_class: None,
            members: vec![],
        }))],
    )]);
    let (t, _) = typed(&c);
    let ty = t.nodes[0].rooted_export_types[0].ty;
    let value = t.nodes[0].rooted_export_values[0].ty;
    assert_eq!(t.nodes[0].rooted_export_types[0].name, "C");
    assert_eq!(t.nodes[0].rooted_export_values[0].name, "C");
    assert!(matches!(t.arena[ty], TypeDescr::Class { .. }));
    assert_eq!(
        t.arena[value],
        TypeDescr::Fn { origin: path("/p/root.d.ts"), params: vec![], ret: Some(ty) }
    );
}

#[test]
fn unsupported_feature() {
    let c = cache(vec![module(
        "/p/root.d.ts",
        &[],
        vec![ModuleItem::ModuleDecl(ModuleDecl::ExportDefaultDecl { span: span(0, 31) })],
    )]);
    let err = init(&c).expect_err("refused");
    assert_eq!(err.module, path("/p/root.d.ts"));
    assert_eq!(err.kind, BindGenErrorKind::UnsupportedFeature(UnsupportedFeature::DefaultExport));
    assert_eq!(err.span, span(0, 31));
    match gen(&options(), &c) {
        Err(GenError::GraphInit(e)) => assert_eq!(e, err),
        other => panic!("unexpected: {:?}", other),
    }
}

#[test]
fn reduction_is_idempotent() {
    let c = chain();
    let (once, _) = reduce(init(&c).expect("graph"));
    let copy = ModuleGraph {
        nodes: init(&c).expect("graph").nodes,
        export_edges: once.export_edges.clone(),
        import_edges: init(&c).expect("graph").import_edges,
    };
    let (twice, dangling) = reduce(copy);
    assert!(dangling.is_empty());
    assert_eq!(twice, once);
}

#[test]
fn edges_keep_source_order() {
    let c = cache(vec![
        module(
            "/p/root.d.ts",
            &[("./a", "/p/a.d.ts")],
            vec![reexport("./a", &[("b", Some("z")), ("missing", None), ("a", None)])],
        ),
        module(
            "/p/a.d.ts",
            &[],
            vec![export_decl(var("a", None)), export_decl(var("b", None))],
        ),
    ]);
    let (reduced, dangling) = reduce(init(&c).expect("graph"));
    let keys: Vec<String> = reduced.export_edges[0]
        .iter()
        .map(|e| match e {
            Export::NamedValue { export_key, .. } => export_key.clone(),
            other => panic!("unexpected: {:?}", other),
        })
        .collect();
    assert_eq!(keys, vec!["z".to_string(), "a".to_string()]);
    assert_eq!(
        dangling,
        vec![DanglingExport { module: path("/p/root.d.ts"), export_key: "missing".to_string() }]
    );
}

#[test]
fn typification_does_not_depend_on_module_order_of_the_reference() {
    // The interface refers to an interface of a module that comes later in
    // the cache, and that one refers back.
    let c = cache(vec![
        module(
            "/p/root.d.ts",
            &[("./a", "/p/a.d.ts")],
            vec![
                ModuleItem::ModuleDecl(ModuleDecl::Import(ImportDecl {
                    src: "./a".to_string(),
                    specifiers: vec![ImportSpecifier::Named {
                        local: "Other".to_string(),
                        imported: Some("A".to_string()),
                    }],
                    span: span(0, 1),
                })),
                export_decl(interface("R", &[], vec![property("a", named("Other", 1))])),
            ],
        ),
        module(
            "/p/a.d.ts",
            &[("./root", "/p/root.d.ts")],
            vec![
                ModuleItem::ModuleDecl(ModuleDecl::Import(ImportDecl {
                    src: "./root".to_string(),
                    specifiers: vec![ImportSpecifier::Named {
                        local: "R".to_string(),
                        imported: None,
                    }],
                    span: span(0, 1),
                })),
                export_decl(interface("A", &[], vec![property("r", named("R", 0))])),
            ],
        ),
    ]);
    let (t, _) = typed(&c);
    // R is kept position 7, A position 8; the array over A follows.
    assert_eq!(t.nodes[0].rooted_export_types, vec![field("R", 7)]);
    assert_eq!(t.nodes[1].rooted_export_types, vec![field("A", 8)]);
    assert_eq!(t.arena[9], TypeDescr::Array { elem: 8, rank: 1 });
    assert_eq!(
        t.arena[7],
        TypeDescr::Interface { origin: path("/p/root.d.ts"), fields: vec![field("a", 9)] }
    );
    assert_eq!(
        t.arena[8],
        TypeDescr::Interface { origin: path("/p/a.d.ts"), fields: vec![field("r", 7)] }
    );
}

#[test]
fn recursive_types_terminate() {
    let c = cache(vec![module(
        "/p/root.d.ts",
        &[],
        vec![
            export_decl(interface("Node", &[], vec![property("next", named("Node", 0))])),
            export_decl(Decl::TsTypeAlias(TsTypeAliasDecl {
                name: "Loop".to_string(),
                ann: TypeAnn { base: TypeBase::Ref("Pool".to_string()), rank: 1, span: span(0, 0) },
            })),
            export_decl(Decl::TsTypeAlias(TsTypeAliasDecl {
                name: "Pool".to_string(),
                ann: TypeAnn { base: TypeBase::Ref("Loop".to_string()), rank: 0, span: span(0, 0) },
            })),
            export_decl(interface("Self", &["Self"], vec![property("v", None)])),
        ],
    )]);
    let (t, _) = typed(&c);
    assert_eq!(
        t.arena[7],
        TypeDescr::Interface { origin: path("/p/root.d.ts"), fields: vec![field("next", 7)] }
    );
    // An alias that comes back to itself is `any` where it closes; the
    // brackets on the way stay.
    assert_eq!(t.nodes[0].rooted_export_types[0], field("Node", 7));
    let looped = t.nodes[0].rooted_export_types[1].ty;
    assert_eq!(t.arena[looped], TypeDescr::Array { elem: ANY, rank: 1 });
    let pooled = t.nodes[0].rooted_export_types[2].ty;
    assert_eq!(t.arena[pooled], TypeDescr::Array { elem: ANY, rank: 1 });
    assert_eq!(
        t.arena[8],
        TypeDescr::Interface { origin: path("/p/root.d.ts"), fields: vec![field("v", ANY)] }
    );
}

#[test]
fn re_export_only_module_draws_from_its_sources() {
    let c = cache(vec![
        module(
            "/p/root.d.ts",
            &[("./a", "/p/a.d.ts"), ("./b", "/p/b.d.ts")],
            vec![export_all("./a"), reexport("./b", &[("k", None)]), export_all("./b")],
        ),
        module(
            "/p/a.d.ts",
            &[],
            vec![export_decl(var("k", None)), export_decl(var("a", None))],
        ),
        module(
            "/p/b.d.ts",
            &[],
            vec![
                export_decl(var("k", None)),
                export_decl(var("a", None)),
                export_decl(var("b", None)),
            ],
        ),
    ]);
    let (reduced, _) = reduce(init(&c).expect("graph"));
    assert!(reduced.nodes[0].rooted_export_values.is_empty());
    let seen: Vec<(String, String)> = reduced.export_edges[0]
        .iter()
        .map(|e| match e {
            Export::NamedValue { source, export_key, .. } => {
                (export_key.clone(), source.as_path().to_string())
            }
            other => panic!("unexpected: {:?}", other),
        })
        .collect();
    // The named re-export of `k` shadows both stars; of two stars that
    // bring `a`, the first wins.
    assert_eq!(
        seen,
        vec![
            ("a".to_string(), "/p/a.d.ts".to_string()),
            ("k".to_string(), "/p/b.d.ts".to_string()),
            ("b".to_string(), "/p/b.d.ts".to_string()),
        ]
    );
}

#[test]
fn inheritance_flattens_members() {
    let c = cache(vec![module(
        "/p/root.d.ts",
        &[],
        vec![
            ModuleItem::Stmt(Stmt::Decl(interface(
                "Base",
                &[],
                vec![
                    property("id", keyword(PrimitiveKind::Number)),
                    property("name", keyword(PrimitiveKind::String)),
                ],
            ))),
            export_decl(interface(
                "Child",
                &["Base"],
                vec![property("name", keyword(PrimitiveKind::Boolean)), InterfaceMember::Other],
            )),
            export_decl(Decl::Class(ClassDecl {
                name: "Impl".to_string(),
                super_class: Some("Child".to_string()),
                members: vec![
                    ClassMember::Property {
                        name: "hidden".to_string(),
                        ann: None,
                        is_static: false,
                        accessibility: Accessibility::Private,
                    },
                    ClassMember::Property {
                        name: "shared".to_string(),
                        ann: None,
                        is_static: true,
                        accessibility: Accessibility::Public,
                    },
                    ClassMember::Property {
                        name: "guarded".to_string(),
                        ann: None,
                        is_static: false,
                        accessibility: Accessibility::Protected,
                    },
                    ClassMember::Property {
                        name: "open".to_string(),
                        ann: None,
                        is_static: false,
                        accessibility: Accessibility::Public,
                    },
                ],
            })),
        ],
    )]);
    let (t, _) = typed(&c);
    // Base 7, Child 8, Impl 9 and its constructor 10.
    assert_eq!(
        t.arena[8],
        TypeDescr::Interface {
            origin: path("/p/root.d.ts"),
            fields: vec![field("name", BOOLEAN), field("id", NUMBER)],
        }
    );
    assert_eq!(
        t.arena[9],
        TypeDescr::Class {
            name: "Impl".to_string(),
            origin: path("/p/root.d.ts"),
            constructor: 10,
            fields: vec![field("open", ANY), field("name", BOOLEAN), field("id", NUMBER)],
        }
    );
    assert_eq!(t.nodes[0].rooted_export_types, vec![field("Child", 8), field("Impl", 9)]);
}

#[test]
fn declarations_by_kind() {
    let c = cache(vec![module(
        "/p/root.d.ts",
        &[],
        vec![
            export_decl(Decl::Fn(FnDecl {
                name: "f".to_string(),
                sig: FnSig { params: vec![None, named("E", 2)], ret: None },
            })),
            export_decl(Decl::TsEnum(TsEnumDecl {
                name: "E".to_string(),
                members: vec![EnumMemberInit::Auto, EnumMemberInit::Number],
            })),
            export_decl(Decl::TsEnum(TsEnumDecl {
                name: "S".to_string(),
                members: vec![EnumMemberInit::Str],
            })),
            export_decl(Decl::TsEnum(TsEnumDecl {
                name: "M".to_string(),
                members: vec![EnumMemberInit::Str, EnumMemberInit::Auto],
            })),
            export_decl(Decl::TsTypeAlias(TsTypeAliasDecl {
                name: "Rows".to_string(),
                ann: TypeAnn { base: TypeBase::Ref("Row".to_string()), rank: 1, span: span(0, 0) },
            })),
            ModuleItem::Stmt(Stmt::Decl(Decl::TsTypeAlias(TsTypeAliasDecl {
                name: "Row".to_string(),
                ann: TypeAnn { base: TypeBase::Keyword(PrimitiveKind::Number), rank: 1, span: span(0, 0) },
            }))),
            export_decl(var("v", None)),
            export_decl(var("u", Some(TypeAnn { base: TypeBase::Unsupported, rank: 0, span: span(0, 0) }))),
            export_decl(var("w", named("Unknown", 0))),
        ],
    )]);
    let (t, _) = typed(&c);
    let types = &t.nodes[0].rooted_export_types;
    assert_eq!(types[0], field("E", NUMBER));
    assert_eq!(types[1], field("S", STRING));
    assert_eq!(types[2], field("M", ANY));
    assert_eq!(types[3].name, "Rows");
    // Brackets across an alias add up.
    assert_eq!(t.arena[types[3].ty], TypeDescr::Array { elem: NUMBER, rank: 2 });
    let values = &t.nodes[0].rooted_export_values;
    assert_eq!(values[0].name, "f");
    match &t.arena[values[0].ty] {
        TypeDescr::Fn { origin, params, ret } => {
            assert_eq!(origin, &path("/p/root.d.ts"));
            assert_eq!(params[0], ANY);
            assert_eq!(t.arena[params[1]], TypeDescr::Array { elem: NUMBER, rank: 2 });
            assert_eq!(*ret, Some(VOID));
        }
        other => panic!("unexpected: {:?}", other),
    }
    assert_eq!(values[1], field("v", ANY));
    assert_eq!(values[2], field("u", ANY));
    assert_eq!(values[3], field("w", ANY));
}

#[test]
fn flavor_compatibility() {
    let c = cache(vec![module("/p/root.d.ts", &[], vec![export_decl(foo_class())])]);
    let mut opts = options();
    opts.ts_flavor = TsFlavor::TsNum;
    match gen(&opts, &c) {
        Err(GenError::Compatibility(errors)) => {
            assert_eq!(
                errors,
                vec![Feature::Class, Feature::Primitive(PrimitiveKind::String)]
            );
        }
        other => panic!("unexpected: {:?}", other),
    }
    let numeric = cache(vec![module(
        "/p/root.d.ts",
        &[],
        vec![export_decl(Decl::Fn(FnDecl {
            name: "f".to_string(),
            sig: FnSig { params: vec![keyword(PrimitiveKind::Number)], ret: None },
        }))],
    )]);
    assert!(gen(&opts, &numeric).is_ok());
}

#[test]
fn output_is_the_same_on_every_run() {
    let c = chain();
    let first = gen(&options(), &c).expect("artifacts");
    let second = gen(&options(), &c).expect("artifacts");
    assert_eq!(first, second);
}

#[test]
fn emitted_json_parses_back() {
    let c = cache(vec![module(
        "/p/dir \"q\"/root.d.ts",
        &[],
        vec![export_decl(foo_class()), export_decl(var("tab\there", named("Foo", 2)))],
    )]);
    let mut opts = options();
    opts.file_stem = Some("bundle.min".to_string());
    let done = gen(&opts, &ParsedModuleCache { root: path("/p/dir \"q\"/root.d.ts"), ..c })
        .expect("artifacts");
    assert_eq!(done.files[0].name, "bundle.arr.json");
    assert_eq!(done.files[1].name, "bundle.arr.js");
    let parsed: serde_json::Value =
        serde_json::from_str(&done.files[0].contents).expect("valid JSON");
    assert_eq!(parsed["types"]["Foo"], serde_json::Value::from(7));
    assert_eq!(parsed["values"]["Foo"], serde_json::Value::from(8));
    let v = parsed["values"]["tab\there"].as_u64().expect("position") as usize;
    let descriptors = parsed["descriptors"].as_array().expect("arena");
    assert_eq!(descriptors.len(), 11);
    assert_eq!(descriptors[v]["kind"], serde_json::Value::from("array"));
    assert_eq!(descriptors[v]["elem"], serde_json::Value::from(7));
    assert_eq!(descriptors[v]["rank"], serde_json::Value::from(2));
    assert_eq!(descriptors[7]["kind"], serde_json::Value::from("class"));
    assert_eq!(descriptors[7]["name"], serde_json::Value::from("Foo"));
    assert_eq!(descriptors[7]["origin"], serde_json::Value::from("/p/dir \"q\"/root.d.ts"));
    assert_eq!(descriptors[7]["constructor"], serde_json::Value::from(8));
    let bar = descriptors[7]["fields"]["bar"].as_u64().expect("position") as usize;
    assert_eq!(descriptors[bar]["kind"], serde_json::Value::from("fn"));
    assert_eq!(descriptors[bar]["params"], serde_json::Value::from(vec![2]));
    assert_eq!(descriptors[bar]["ret"], serde_json::Value::from(3));
    assert_eq!(descriptors[1]["name"], serde_json::Value::from("number"));
    // The quoting is JSON's: the quote and the tab are escaped.
    assert!(done.files[0].contents.contains("\"/p/dir \\\"q\\\"/root.d.ts\""));
    assert!(done.files[0].contents.contains("\"tab\\there\""));
    assert!(done.files[1].contents.contains("exports[\"tab\\there\"] = source[\"tab\\there\"];"));
}

#[test]
fn strictness_reports_what_is_taken_for_any() {
    let at = |base: TypeBase, lo: u32| Some(TypeAnn { base, rank: 0, span: span(lo, lo + 1) });
    let c = cache(vec![
        module(
            "/p/root.d.ts",
            &[("./a", "/p/a.d.ts")],
            vec![
                ModuleItem::ModuleDecl(ModuleDecl::Import(ImportDecl {
                    src: "./a".to_string(),
                    specifiers: vec![
                        ImportSpecifier::Named { local: "Known".to_string(), imported: None },
                        ImportSpecifier::Named { local: "Lost".to_string(), imported: None },
                    ],
                    span: span(0, 1),
                })),
                export_decl(Decl::Fn(FnDecl {
                    name: "f".to_string(),
                    sig: FnSig {
                        params: vec![
                            at(TypeBase::Ref("Known".to_string()), 10),
                            at(TypeBase::Ref("Lost".to_string()), 20),
                            None,
                            at(TypeBase::Keyword(PrimitiveKind::Any), 30),
                        ],
                        ret: at(TypeBase::Unsupported, 40),
                    },
                })),
                export_decl(var("v", at(TypeBase::Ref("Nowhere".to_string()), 50))),
            ],
        ),
        module(
            "/p/a.d.ts",
            &[],
            vec![
                export_decl(interface(
                    "Known",
                    &[],
                    vec![property("p", at(TypeBase::Unsupported, 60))],
                )),
            ],
        ),
    ]);
    let mut opts = options();
    let quiet = gen(&opts, &c).expect("artifacts");
    assert!(quiet.unsupported.is_empty());
    opts.strict = true;
    let strict = gen(&opts, &c).expect("artifacts");
    let found: Vec<(&str, u32)> =
        strict.unsupported.iter().map(|n| (n.module.as_path(), n.span.lo)).collect();
    assert_eq!(
        found,
        vec![
            ("/p/root.d.ts", 20),
            ("/p/root.d.ts", 40),
            ("/p/root.d.ts", 50),
            ("/p/a.d.ts", 60)
        ]
    );
    assert_eq!(strict.files, quiet.files);
}

#[test]
fn ranks_are_held_at_the_largest_rank() {
    let c = cache(vec![module(
        "/p/root.d.ts",
        &[],
        vec![
            export_decl(Decl::TsTypeAlias(TsTypeAliasDecl {
                name: "Row".to_string(),
                ann: TypeAnn {
                    base: TypeBase::Keyword(PrimitiveKind::Number),
                    rank: 2,
                    span: span(0, 0),
                },
            })),
            export_decl(var(
                "deep",
                Some(TypeAnn {
                    base: TypeBase::Ref("Row".to_string()),
                    rank: u64::MAX - 1,
                    span: span(0, 0),
                }),
            )),
            export_decl(var("flat", named("Row", 0))),
        ],
    )]);
    let (t, _) = typed(&c);
    let deep = t.nodes[0].rooted_export_values[0].ty;
    assert_eq!(t.arena[deep], TypeDescr::Array { elem: NUMBER, rank: u64::MAX });
    let flat = t.nodes[0].rooted_export_values[1].ty;
    assert_eq!(t.arena[flat], TypeDescr::Array { elem: NUMBER, rank: 2 });
}

#[test]
fn a_given_stem_needs_no_root_name() {
    let c = ParsedModuleCache {
        root: path("/p/"),
        modules: vec![module("/p/", &[], vec![export_decl(var("v", None))])],
    };
    let mut opts = options();
    assert!(asks_root_name(&opts));
    opts.file_stem = Some("bundle".to_string());
    assert!(asks_root_name(&opts));
    opts.emit_config = EmitConfig { json: true, js: false };
    assert!(!asks_root_name(&opts));
    let done = gen(&opts, &c).expect("artifacts");
    assert_eq!(done.files.len(), 1);
    assert_eq!(done.files[0].name, "bundle.arr.json");
    assert!(done.files[0].contents.starts_with("{\"types\":{},\"values\":{\"v\":5},"));
}

#[test]
fn types_that_reach_themselves_are_described_once() {
    let c = cache(vec![module(
        "/p/root.d.ts",
        &[],
        vec![
            export_decl(interface("A", &[], vec![property("next", named("B", 0))])),
            export_decl(interface("B", &[], vec![property("prev", named("A", 0))])),
            export_decl(Decl::TsTypeAlias(TsTypeAliasDecl {
                name: "T".to_string(),
                ann: TypeAnn { base: TypeBase::Ref("A".to_string()), rank: 0, span: span(0, 0) },
            })),
        ],
    )]);
    let done = gen(&options(), &c).expect("artifacts");
    let (t, _) = typed(&c);
    // One descriptor for A, one for B; T is A. The references back are
    // positions.
    assert_eq!(t.arena.len(), 9);
    assert_eq!(
        t.nodes[0].rooted_export_types,
        vec![field("A", 7), field("B", 8), field("T", 7)]
    );
    assert_eq!(
        t.arena[7],
        TypeDescr::Interface { origin: path("/p/root.d.ts"), fields: vec![field("next", 8)] }
    );
    assert_eq!(
        t.arena[8],
        TypeDescr::Interface { origin: path("/p/root.d.ts"), fields: vec![field("prev", 7)] }
    );
    assert!(done.files[0].contents.starts_with("{\"types\":{\"A\":7,\"B\":8,\"T\":7},"));
}
