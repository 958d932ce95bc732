use cargo_diagram::builder::analyze_file;
use cargo_diagram::builder::extract_derives;
use cargo_diagram::builder::extract_doc_comment;
use cargo_diagram::decl::Decl;
use cargo_diagram::decl::EnumDecl;
use cargo_diagram::decl::FnDecl;
use cargo_diagram::decl::FnNode;
use cargo_diagram::decl::ImplDecl;
use cargo_diagram::decl::MemberNode;
use cargo_diagram::decl::ModDecl;
use cargo_diagram::decl::ParamNode;
use cargo_diagram::decl::PathNode;
use cargo_diagram::decl::PathSegmentNode;
use cargo_diagram::decl::StructDecl;
use cargo_diagram::decl::TraitDecl;
use cargo_diagram::decl::TypeNode;
use cargo_diagram::model::ModulesVisitor;
use cargo_diagram::sig::format_function_signature;
use cargo_diagram::sig::format_path;
use cargo_diagram::sig::get_type_name;

fn seg(name: &str, has_args: bool) -> PathSegmentNode {
    PathSegmentNode { name: name.to_string(), has_args }
}

fn simple_path(name: &str) -> PathNode {
    PathNode { segments: vec![seg(name, false)] }
}

fn user_struct() -> StructDecl {
    StructDecl {
        name: "User".to_string(),
        docs: vec!["A user.".to_string()],
        derives: vec![simple_path("Debug")],
        members: vec![MemberNode {
            name: Some("name".to_string()),
            ty: TypeNode::Path("String".to_string()),
        }],
    }
}

#[test]
fn struct_declaration_recorded() {
    let mut v = ModulesVisitor::new();
    let module = "app__lib".to_string();
    v.visit_item_struct(&module, &user_struct());
    assert_eq!(v.module_map.len(), 1);
    assert_eq!(v.module_map[0].0, "app__lib");
    let info = &v.module_map[0].1;
    assert_eq!(info.structs.len(), 1);
    assert_eq!(info.structs[0].0, "User");
    let s = &info.structs[0].1;
    assert_eq!(s.description, "A user.");
    assert_eq!(s.derives, vec!["Debug".to_string()]);
    assert_eq!(s.members.len(), 1);
    assert_eq!(s.members[0].name, "name");
    assert_eq!(s.members[0].member_type, "String");
    assert!(s.impl_traits.is_empty());
    assert!(s.functions.is_empty());
}

#[test]
fn struct_redeclaration_is_idempotent() {
    let module = "app__lib".to_string();
    let mut once = ModulesVisitor::new();
    once.visit_item_struct(&module, &user_struct());
    let mut twice = ModulesVisitor::new();
    twice.visit_item_struct(&module, &user_struct());
    twice.visit_item_struct(&module, &user_struct());
    assert_eq!(twice.module_map.len(), 1);
    let info = &twice.module_map[0].1;
    assert_eq!(info.structs.len(), 1);
    let s = &info.structs[0].1;
    let s1 = &once.module_map[0].1.structs[0].1;
    assert_eq!(s.derives, s1.derives);
    assert_eq!(s.members.len(), s1.members.len());
    assert_eq!(s.description, s1.description);
}

#[test]
fn impl_block_creates_struct_entry_retroactively() {
    let mut v = ModulesVisitor::new();
    let module = "app__lib".to_string();
    let node = ImplDecl {
        target: Some("Later".to_string()),
        trait_path: Some(simple_path("Display")),
        methods: vec![FnNode {
            name: "fmt".to_string(),
            docs: vec![],
            public: false,
            params: vec![],
            ret: None,
        }],
    };
    v.visit_item_impl(&module, &node);
    let s = &v.module_map[0].1.structs[0].1;
    assert_eq!(v.module_map[0].1.structs[0].0, "Later");
    assert_eq!(s.impl_traits, vec!["Display".to_string()]);
    assert_eq!(s.functions.len(), 1);
    // methods of a trait implementation are forced public
    assert!(s.functions[0].public);
}

#[test]
fn struct_declaration_overwrites_the_entry() {
    // A struct declaration inserts or overwrites: what an earlier
    // implementation block accrued in a retroactively created entry is
    // replaced by the declaration's own data.
    let mut v = ModulesVisitor::new();
    let module = "app__lib".to_string();
    let node = ImplDecl {
        target: Some("User".to_string()),
        trait_path: Some(simple_path("Display")),
        methods: vec![],
    };
    v.visit_item_impl(&module, &node);
    v.visit_item_struct(&module, &user_struct());
    let info = &v.module_map[0].1;
    assert_eq!(info.structs.len(), 1);
    let s = &info.structs[0].1;
    assert!(s.impl_traits.is_empty());
    assert_eq!(s.derives, vec!["Debug".to_string()]);
}

#[test]
fn impl_block_without_simple_target_is_skipped() {
    let mut v = ModulesVisitor::new();
    let module = "app__lib".to_string();
    let node = ImplDecl { target: None, trait_path: Some(simple_path("Display")), methods: vec![] };
    v.visit_item_impl(&module, &node);
    assert!(v.module_map.is_empty());
}

#[test]
fn inherent_impl_keeps_method_visibility() {
    let mut v = ModulesVisitor::new();
    let module = "app__lib".to_string();
    let node = ImplDecl {
        target: Some("User".to_string()),
        trait_path: None,
        methods: vec![
            FnNode {
                name: "public_one".to_string(),
                docs: vec![],
                public: true,
                params: vec![],
                ret: None,
            },
            FnNode {
                name: "private_one".to_string(),
                docs: vec![],
                public: false,
                params: vec![],
                ret: None,
            },
        ],
    };
    v.visit_item_impl(&module, &node);
    let s = &v.module_map[0].1.structs[0].1;
    assert!(s.impl_traits.is_empty());
    assert!(s.functions[0].public);
    assert!(!s.functions[1].public);
}

#[test]
fn traits_are_appended_not_deduplicated() {
    let mut v = ModulesVisitor::new();
    let module = "app__lib".to_string();
    let t = TraitDecl {
        name: "Greet".to_string(),
        docs: vec![],
        functions: vec![FnNode {
            name: "hello".to_string(),
            docs: vec![],
            public: false,
            params: vec![],
            ret: None,
        }],
    };
    v.visit_item_trait(&module, &t);
    v.visit_item_trait(&module, &t);
    let info = &v.module_map[0].1;
    assert_eq!(info.traits.len(), 2);
    // trait functions are implicitly public
    assert!(info.traits[0].functions[0].public);
}

#[test]
fn mod_marker_appends_submodule_and_overwrites_description() {
    let mut v = ModulesVisitor::new();
    let module = "app__lib".to_string();
    v.visit_item_mod(&module, &ModDecl { name: "first".to_string(), docs: vec!["one".to_string()] });
    v.visit_item_mod(&module, &ModDecl { name: "second".to_string(), docs: vec!["two".to_string()] });
    let info = &v.module_map[0].1;
    assert_eq!(info.submodules, vec!["first".to_string(), "second".to_string()]);
    // the most recent submodule marker's doc comment wins
    assert_eq!(info.description, "two");
}

#[test]
fn free_function_with_receiver_lands_in_struct_too() {
    let mut v = ModulesVisitor::new();
    let module = "app__lib".to_string();
    v.visit_item_struct(&module, &user_struct());
    let node = FnDecl {
        func: FnNode {
            name: "rename".to_string(),
            docs: vec![],
            public: true,
            params: vec![ParamNode {
                name: "name".to_string(),
                ty: TypeNode::Reference(Box::new(TypeNode::Path("str".to_string()))),
            }],
            ret: None,
        },
        receiver: Some("User".to_string()),
    };
    v.visit_item_fn(&module, &node);
    let info = &v.module_map[0].1;
    assert_eq!(info.functions.len(), 1);
    assert_eq!(info.functions[0].name, "rename");
    // a reference is unwrapped to its pointee's name
    assert_eq!(info.functions[0].parameters[0].param_type, "str");
    let s = &info.structs[0].1;
    assert_eq!(s.functions.len(), 1);
    assert_eq!(s.functions[0].name, "rename");
}

#[test]
fn module_keys_are_kept_sorted() {
    let mut v = ModulesVisitor::new();
    v.visit_item_mod(&"zeta".to_string(), &ModDecl { name: "s".to_string(), docs: vec![] });
    v.visit_item_mod(&"alpha".to_string(), &ModDecl { name: "t".to_string(), docs: vec![] });
    v.visit_item_mod(&"mid".to_string(), &ModDecl { name: "u".to_string(), docs: vec![] });
    let keys: Vec<&str> = v.module_map.iter().map(|e| e.0.as_str()).collect();
    assert_eq!(keys, vec!["alpha", "mid", "zeta"]);
}

#[test]
fn analyze_file_reports_submodules() {
    let mut v = ModulesVisitor::new();
    let module = "app__lib".to_string();
    let decls = vec![
        Decl::Struct(user_struct()),
        Decl::Mod(ModDecl { name: "inner".to_string(), docs: vec![] }),
        Decl::Mod(ModDecl { name: "other".to_string(), docs: vec![] }),
    ];
    let subs = analyze_file(&decls, &module, &mut v);
    assert_eq!(subs, vec!["inner".to_string(), "other".to_string()]);
    assert_eq!(v.module_map[0].1.structs.len(), 1);
}

#[test]
fn analyze_file_on_empty_module_reports_nothing() {
    let mut v = ModulesVisitor::new();
    let subs = analyze_file(&Vec::new(), &"app__lib".to_string(), &mut v);
    assert!(subs.is_empty());
    assert!(v.module_map.is_empty());
}

#[test]
fn enum_declaration_recorded() {
    let mut v = ModulesVisitor::new();
    let module = "app__lib".to_string();
    let node = EnumDecl {
        name: "Color".to_string(),
        docs: vec![],
        derives: vec![simple_path("Clone"), simple_path("Copy")],
        variants: vec!["Red".to_string(), "Green".to_string()],
    };
    v.visit_item_enum(&module, &node);
    let info = &v.module_map[0].1;
    assert_eq!(info.enums[0].0, "Color");
    assert_eq!(info.enums[0].1.variants, vec!["Red".to_string(), "Green".to_string()]);
    assert_eq!(info.enums[0].1.derives, vec!["Clone".to_string(), "Copy".to_string()]);
}

#[test]
fn doc_comments_join_with_single_spaces() {
    let docs = vec![" First line.".to_string(), " Second.".to_string()];
    assert_eq!(extract_doc_comment(&docs), " First line.  Second.");
    assert_eq!(extract_doc_comment(&Vec::new()), "");
}

#[test]
fn derive_paths_collapse_generic_arguments() {
    let paths = vec![
        PathNode { segments: vec![seg("serde", false), seg("Serialize", false)] },
        PathNode { segments: vec![seg("Wrapper", true)] },
    ];
    let names = extract_derives(&paths);
    assert_eq!(names, vec!["serde::Serialize".to_string(), "Wrapper<...>".to_string()]);
}

#[test]
fn format_path_joins_segments() {
    let p = PathNode { segments: vec![seg("std", false), seg("fmt", false), seg("Display", false)] };
    assert_eq!(format_path(&p), "std::fmt::Display");
}

#[test]
fn type_names_are_normalized() {
    let reference = TypeNode::Reference(Box::new(TypeNode::Path("Config".to_string())));
    assert_eq!(get_type_name(&reference), "Config");
    let tuple = TypeNode::Tuple(vec![
        TypeNode::Path("u32".to_string()),
        TypeNode::Reference(Box::new(TypeNode::Path("str".to_string()))),
    ]);
    assert_eq!(get_type_name(&tuple), "(u32, str)");
    let slice = TypeNode::Slice(Box::new(TypeNode::Path("u8".to_string())));
    assert_eq!(get_type_name(&slice), "[u8]");
    let other = TypeNode::Other("dyn Error".to_string());
    assert_eq!(get_type_name(&other), "dyn Error");
}

#[test]
fn signature_formatting_is_exact() {
    let mut v = ModulesVisitor::new();
    let module = "app__lib".to_string();
    let node = FnDecl {
        func: FnNode {
            name: "connect".to_string(),
            docs: vec![],
            public: true,
            params: vec![
                ParamNode { name: "host".to_string(), ty: TypeNode::Path("String".to_string()) },
                ParamNode { name: "port".to_string(), ty: TypeNode::Path("u16".to_string()) },
            ],
            ret: Some(TypeNode::Path("bool".to_string())),
        },
        receiver: None,
    };
    v.visit_item_fn(&module, &node);
    let f = &v.module_map[0].1.functions[0];
    assert_eq!(format_function_signature(f), "connect(host: String, port: u16) -> bool");
    let unit = FnDecl {
        func: FnNode {
            name: "ping".to_string(),
            docs: vec![],
            public: true,
            params: vec![],
            ret: None,
        },
        receiver: None,
    };
    v.visit_item_fn(&module, &unit);
    let g = &v.module_map[0].1.functions[1];
    assert_eq!(format_function_signature(g), "ping() -> ()");
}
