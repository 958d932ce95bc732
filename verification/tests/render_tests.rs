use cargo_diagram::decl::FnNode;
use cargo_diagram::decl::ImplDecl;
use cargo_diagram::decl::MemberNode;
use cargo_diagram::decl::ModDecl;
use cargo_diagram::decl::PathNode;
use cargo_diagram::decl::PathSegmentNode;
use cargo_diagram::decl::StructDecl;
use cargo_diagram::decl::TypeNode;
use cargo_diagram::model::ModulesVisitor;
use cargo_diagram::render::print_uml;
use cargo_diagram::render::PrintOptions;

fn default_options() -> PrintOptions {
    PrintOptions {
        relations: false,
        module_color: "#lightskyblue".to_string(),
        trait_color: "#violet".to_string(),
        functions_private: false,
    }
}

fn trait_path(name: &str) -> PathNode {
    PathNode { segments: vec![PathSegmentNode { name: name.to_string(), has_args: false }] }
}

fn plain_struct(name: &str, members: Vec<(&str, &str)>) -> StructDecl {
    StructDecl {
        name: name.to_string(),
        docs: vec![],
        derives: vec![],
        members: members
            .into_iter()
            .map(|(n, t)| MemberNode {
                name: Some(n.to_string()),
                ty: TypeNode::Path(t.to_string()),
            })
            .collect(),
    }
}

fn count_occurrences(hay: &str, needle: &str) -> usize {
    let mut count: usize = 0;
    let mut rest = hay;
    while let Some(pos) = rest.find(needle) {
        count += 1;
        rest = &rest[pos + needle.len()..];
    }
    count
}

#[test]
fn scenario_user_struct_with_derive_and_display() {
    let mut v = ModulesVisitor::new();
    let module = "app__lib".to_string();
    v.visit_item_struct(
        &module,
        &StructDecl {
            name: "User".to_string(),
            docs: vec![],
            derives: vec![trait_path("Debug")],
            members: vec![MemberNode {
                name: Some("name".to_string()),
                ty: TypeNode::Path("String".to_string()),
            }],
        },
    );
    v.visit_item_impl(
        &module,
        &ImplDecl {
            target: Some("User".to_string()),
            trait_path: Some(trait_path("Display")),
            methods: vec![],
        },
    );
    let out = print_uml(&v, &default_options());
    let expected = "@startuml\nleft to right direction\nskinparam lineType ortho\npackage app__lib #lightskyblue {\n  class app__lib::User as \"User\" <<struct>> {\n    .. Derives ..\n    Debug\n    .. Implements ..\n    Display\n    .. Members ..\n    name: String\n  }\n}\n@enduml\n";
    assert_eq!(out, expected);
    assert!(!out.contains(".. Functions .."));
}

#[test]
fn rendering_is_deterministic() {
    let mut v = ModulesVisitor::new();
    let module = "app__lib".to_string();
    v.visit_item_struct(&module, &plain_struct("Engine", vec![("part", "Piston")]));
    v.visit_item_struct(&module, &plain_struct("Piston", vec![]));
    v.visit_item_mod(&module, &ModDecl { name: "sub".to_string(), docs: vec![] });
    let opts = PrintOptions { relations: true, ..default_options() };
    let first = print_uml(&v, &opts);
    let second = print_uml(&v, &opts);
    assert_eq!(first, second);
}

#[test]
fn relation_pass_emits_exactly_one_arrow_for_engine_piston() {
    let mut v = ModulesVisitor::new();
    let module = "m__lib".to_string();
    v.visit_item_struct(&module, &plain_struct("Engine", vec![("part", "Piston")]));
    v.visit_item_struct(&module, &plain_struct("Piston", vec![]));
    let opts = PrintOptions { relations: true, ..default_options() };
    let out = print_uml(&v, &opts);
    assert_eq!(count_occurrences(&out, " --> "), 1);
    assert!(out.contains("m__lib::Engine --> m__lib::Piston\n"));
}

#[test]
fn relation_pass_matches_by_textual_containment() {
    // The match is a substring test on the rewritten type name, kept
    // as stated: "Engine" is a prefix of "EngineId", so the member
    // id: EngineId matches the sibling struct Engine itself.
    let mut v = ModulesVisitor::new();
    let module = "m__lib".to_string();
    v.visit_item_struct(&module, &plain_struct("Engine", vec![("id", "EngineId")]));
    let opts = PrintOptions { relations: true, ..default_options() };
    let out = print_uml(&v, &opts);
    assert_eq!(count_occurrences(&out, " --> "), 1);
    assert!(out.contains("m__lib::Engine --> m__lib::Engine\n"));
}

#[test]
fn relation_pass_rewrites_qualified_type_names() {
    let mut v = ModulesVisitor::new();
    let module = "m__lib".to_string();
    v.visit_item_struct(&module, &plain_struct("Holder", vec![("inner", "crate::Piston")]));
    v.visit_item_struct(&module, &plain_struct("Piston", vec![]));
    let opts = PrintOptions { relations: true, ..default_options() };
    let out = print_uml(&v, &opts);
    assert!(out.contains("m__lib::Holder --> m__lib::Piston\n"));
}

#[test]
fn cyclic_submodules_render_each_package_once() {
    let mut v = ModulesVisitor::new();
    let a = "a__lib".to_string();
    let b = "b".to_string();
    v.visit_item_mod(&a, &ModDecl { name: "b".to_string(), docs: vec![] });
    v.visit_item_mod(&b, &ModDecl { name: "a__lib".to_string(), docs: vec![] });
    let out = print_uml(&v, &default_options());
    assert_eq!(count_occurrences(&out, "package a__lib "), 1);
    assert_eq!(count_occurrences(&out, "package b "), 1);
    assert!(out.contains("a__lib --> b\n"));
    assert!(out.contains("b --> a__lib\n"));
}

#[test]
fn unreachable_module_is_not_emitted() {
    let mut v = ModulesVisitor::new();
    let root = "root__lib".to_string();
    let orphan = "orphan".to_string();
    v.visit_item_struct(&root, &plain_struct("Anchor", vec![]));
    v.visit_item_struct(&orphan, &plain_struct("Ghostly", vec![]));
    let out = print_uml(&v, &default_options());
    assert!(out.contains("package root__lib "));
    assert!(!out.contains("orphan"));
    assert!(!out.contains("Ghostly"));
}

#[test]
fn submodule_without_entry_is_silently_omitted() {
    let mut v = ModulesVisitor::new();
    let root = "root__lib".to_string();
    v.visit_item_mod(&root, &ModDecl { name: "missing".to_string(), docs: vec![] });
    let out = print_uml(&v, &default_options());
    assert!(out.contains("package root__lib "));
    assert!(!out.contains("package missing"));
    assert!(!out.contains(" --> "));
}

#[test]
fn visibility_filtering_hides_private_functions_by_default() {
    let mut v = ModulesVisitor::new();
    let module = "app__lib".to_string();
    v.visit_item_fn(
        &module,
        &cargo_diagram::decl::FnDecl {
            func: FnNode {
                name: "open_door".to_string(),
                docs: vec!["Opens.".to_string()],
                public: true,
                params: vec![],
                ret: None,
            },
            receiver: None,
        },
    );
    v.visit_item_fn(
        &module,
        &cargo_diagram::decl::FnDecl {
            func: FnNode {
                name: "hidden_latch".to_string(),
                docs: vec![],
                public: false,
                params: vec![],
                ret: None,
            },
            receiver: None,
        },
    );
    let out = print_uml(&v, &default_options());
    assert!(out.contains("    // Opens.\n"));
    assert!(out.contains("    + open_door() -> ()\n"));
    assert!(!out.contains("hidden_latch"));
    let opts = PrintOptions { functions_private: true, ..default_options() };
    let out_private = print_uml(&v, &opts);
    assert!(out_private.contains("    + open_door() -> ()\n"));
    assert!(out_private.contains("    - hidden_latch() -> ()\n"));
}

#[test]
fn module_function_class_needs_a_visible_function() {
    let mut v = ModulesVisitor::new();
    let module = "app__lib".to_string();
    v.visit_item_fn(
        &module,
        &cargo_diagram::decl::FnDecl {
            func: FnNode {
                name: "only_private".to_string(),
                docs: vec![],
                public: false,
                params: vec![],
                ret: None,
            },
            receiver: None,
        },
    );
    let out = print_uml(&v, &default_options());
    assert!(!out.contains("_mod <<mod>>"));
    let opts = PrintOptions { functions_private: true, ..default_options() };
    let out_private = print_uml(&v, &opts);
    assert!(out_private.contains("  class app__lib_mod <<mod>> #lightskyblue {\n"));
    assert!(out_private.contains("    .. Module functions ..\n"));
}

#[test]
fn nested_packages_are_indented() {
    let mut v = ModulesVisitor::new();
    let root = "app__lib".to_string();
    let inner = "inner".to_string();
    v.visit_item_mod(&root, &ModDecl { name: "inner".to_string(), docs: vec![] });
    v.visit_item_struct(&inner, &plain_struct("Gadget", vec![]));
    let out = print_uml(&v, &default_options());
    let expected = "@startuml\nleft to right direction\nskinparam lineType ortho\npackage app__lib #lightskyblue {\n  package inner #lightskyblue {\n    class inner::Gadget as \"Gadget\" <<struct>> {\n    }\n  }\n}\napp__lib --> inner\n@enduml\n";
    assert_eq!(out, expected);
}

#[test]
fn dotted_module_names_become_package_identifiers() {
    let mut v = ModulesVisitor::new();
    let root = "pkg.core__lib".to_string();
    v.visit_item_struct(&root, &plain_struct("Core", vec![]));
    let out = print_uml(&v, &default_options());
    assert!(out.contains("package pkg_core__lib #lightskyblue {\n"));
    assert!(out.contains("  class pkg_core__lib::Core as \"Core\" <<struct>> {\n"));
}

#[test]
fn empty_model_renders_markers_only() {
    let v = ModulesVisitor::new();
    let out = print_uml(&v, &default_options());
    assert_eq!(out, "@startuml\nleft to right direction\nskinparam lineType ortho\n@enduml\n");
}

#[test]
fn descriptions_are_rendered_as_comments() {
    let mut v = ModulesVisitor::new();
    let module = "app__lib".to_string();
    v.visit_item_mod(&module, &ModDecl { name: "inner".to_string(), docs: vec![" The root.".to_string()] });
    v.visit_item_struct(
        &module,
        &StructDecl {
            name: "Widget".to_string(),
            docs: vec![" A widget.".to_string()],
            derives: vec![],
            members: vec![],
        },
    );
    let out = print_uml(&v, &default_options());
    assert!(out.contains("  '  The root.\n"));
    assert!(out.contains("    '  A widget.\n"));
}

#[test]
fn unnamed_members_get_the_placeholder() {
    let mut v = ModulesVisitor::new();
    let module = "app__lib".to_string();
    v.visit_item_struct(
        &module,
        &StructDecl {
            name: "Pair".to_string(),
            docs: vec![],
            derives: vec![],
            members: vec![
                MemberNode { name: None, ty: TypeNode::Path("u32".to_string()) },
                MemberNode { name: None, ty: TypeNode::Path("u64".to_string()) },
            ],
        },
    );
    let out = print_uml(&v, &default_options());
    assert!(out.contains("    <unnamed>: u32\n"));
    assert!(out.contains("    <unnamed>: u64\n"));
}

#[test]
fn root_module_names_carry_marker_suffixes() {
    assert_eq!(cargo_diagram::render::root_module_name("cargo-diagram", true), "cargo_diagram__main");
    assert_eq!(cargo_diagram::render::root_module_name("core", false), "core__lib");
}

#[test]
fn trait_interface_block_is_rendered() {
    let mut v = ModulesVisitor::new();
    let module = "app__lib".to_string();
    v.visit_item_trait(
        &module,
        &cargo_diagram::decl::TraitDecl {
            name: "Greeter".to_string(),
            docs: vec![],
            functions: vec![FnNode {
                name: "greet".to_string(),
                docs: vec![],
                public: false,
                params: vec![],
                ret: Some(TypeNode::Path("String".to_string())),
            }],
        },
    );
    let out = print_uml(&v, &default_options());
    assert!(out.contains("  interface app__lib::Greeter as \"Greeter\" #violet {\n"));
    assert!(out.contains("    + greet() -> String\n"));
}
