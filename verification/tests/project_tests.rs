use pitchfork::ir::{Function, GlobalAlias, GlobalVariable, Module, NamedStructType, Parameter,
    StructDef};
use pitchfork::project::{DirEntryInfo, Project};

fn function(name: &str, params: &[(&str, u32)]) -> Function {
    Function {
        name: name.to_string(),
        parameters: params
            .iter()
            .map(|(n, b)| Parameter { name: n.to_string(), bits: *b })
            .collect(),
    }
}

fn module(name: &str, funcs: &[&str]) -> Module {
    Module {
        name: name.to_string(),
        functions: funcs.iter().map(|f| function(f, &[])).collect(),
        global_vars: Vec::new(),
        global_aliases: Vec::new(),
        named_struct_types: Vec::new(),
    }
}

fn module_with_structs(name: &str, structs: Vec<NamedStructType>) -> Module {
    Module {
        name: name.to_string(),
        functions: Vec::new(),
        global_vars: Vec::new(),
        global_aliases: Vec::new(),
        named_struct_types: structs,
    }
}

fn entry(path: &str, is_dir: Option<bool>, excluded: bool) -> DirEntryInfo {
    DirEntryInfo { path: path.to_string(), is_dir, excluded }
}

#[test]
fn single_file_project() {
    let proj = Project::from_modules(vec![module("tests/bcfiles/basic.bc", &["no_args_zero"])]);
    let (func, module) = proj
        .get_func_by_name(&"no_args_zero".to_string())
        .expect("Failed to find function");
    assert_eq!(&func.name, "no_args_zero");
    assert_eq!(&module.name, "tests/bcfiles/basic.bc");
}

#[test]
fn double_file_project() {
    let proj = Project::from_modules(vec![
        module("tests/bcfiles/basic.bc", &["no_args_zero"]),
        module("tests/bcfiles/loop.bc", &["while_loop"]),
    ]);
    let (func, module) = proj
        .get_func_by_name(&"no_args_zero".to_string())
        .expect("Failed to find function");
    assert_eq!(&func.name, "no_args_zero");
    assert_eq!(&module.name, "tests/bcfiles/basic.bc");
    let (func, module) = proj
        .get_func_by_name(&"while_loop".to_string())
        .expect("Failed to find function");
    assert_eq!(&func.name, "while_loop");
    assert_eq!(&module.name, "tests/bcfiles/loop.bc");
}

#[test]
fn whole_directory_project() {
    // the directory scan hands over its entries; only the .bc files are kept
    let entries = vec![
        entry("tests/bcfiles/basic.bc", Some(false), false),
        entry("tests/bcfiles/loop.bc", Some(false), false),
        entry("tests/bcfiles/readme.txt", Some(false), false),
        entry("tests/bcfiles/subdir", Some(true), false),
    ];
    let selected = pitchfork::project::select_bc_paths(&entries, &"bc".to_string());
    assert_eq!(selected, vec!["tests/bcfiles/basic.bc".to_string(),
        "tests/bcfiles/loop.bc".to_string()]);

    let modules: Vec<Module> = selected
        .iter()
        .map(|p| {
            if p == "tests/bcfiles/basic.bc" {
                module(p, &["no_args_zero"])
            } else {
                module(p, &["while_loop"])
            }
        })
        .collect();
    let proj = Project::from_modules(modules);
    let (func, module) = proj
        .get_func_by_name(&"no_args_zero".to_string())
        .expect("Failed to find function");
    assert_eq!(&func.name, "no_args_zero");
    assert_eq!(&module.name, "tests/bcfiles/basic.bc");
    let (func, module) = proj
        .get_func_by_name(&"while_loop".to_string())
        .expect("Failed to find function");
    assert_eq!(&func.name, "while_loop");
    assert_eq!(&module.name, "tests/bcfiles/loop.bc");
}

#[test]
fn whole_directory_project_with_blacklist() {
    // exclusion predicate: file stem equals "basic"
    let stem_is_basic = |path: &str| {
        let name = path.rsplit('/').next().unwrap();
        name.strip_suffix(".bc") == Some("basic")
    };
    let paths = ["tests/bcfiles/basic.bc", "tests/bcfiles/loop.bc"];
    let entries: Vec<DirEntryInfo> = paths
        .iter()
        .map(|p| entry(p, Some(false), stem_is_basic(p)))
        .collect();
    let selected = pitchfork::project::select_bc_paths(&entries, &"bc".to_string());
    assert_eq!(selected, vec!["tests/bcfiles/loop.bc".to_string()]);

    let proj = Project::from_modules(vec![module("tests/bcfiles/loop.bc", &["while_loop"])]);
    proj.get_func_by_name(&"while_loop".to_string())
        .expect("Failed to find function while_loop, which should be present");
    assert!(
        proj.get_func_by_name(&"no_args_zero".to_string()).is_none(),
        "Found function no_args_zero, which is from a file that should have been blacklisted out"
    );
}

#[test]
fn duplicate_function_is_detected() {
    let proj = Project::from_modules(vec![
        module("first.bc", &["foo", "bar"]),
        module("second.bc", &["baz"]),
        module("third.bc", &["foo"]),
    ]);
    assert_eq!(proj.find_duplicate_function(&"foo".to_string()), Some((0, 2)));
    assert_eq!(proj.find_duplicate_function(&"bar".to_string()), None);
    assert_eq!(proj.find_duplicate_function(&"baz".to_string()), None);
    assert_eq!(proj.find_duplicate_function(&"absent".to_string()), None);
}

#[test]
fn duplicate_function_lookup_is_refused() {
    let proj = Project::from_modules(vec![
        module("first.bc", &["foo", "bar"]),
        module("second.bc", &["baz"]),
        module("third.bc", &["foo"]),
    ]);
    // the total lookup reports the duplicate instead of answering
    assert!(matches!(proj.try_get_func_by_name(&"foo".to_string()), Err((0, 2))));
    // unique and absent names are answered
    match proj.try_get_func_by_name(&"bar".to_string()) {
        Ok(Some((f, m))) => {
            assert_eq!(&f.name, "bar");
            assert_eq!(&m.name, "first.bc");
        },
        _ => panic!("expected bar in first.bc"),
    }
    assert!(matches!(proj.try_get_func_by_name(&"absent".to_string()), Ok(None)));
}

#[test]
fn project_determinism() {
    let build = || {
        Project::from_modules(vec![
            module("a.bc", &["f", "g"]),
            module("b.bc", &["h"]),
        ])
    };
    let p1 = build();
    let p2 = build();
    for name in ["f", "g", "h", "missing"] {
        let r1 = p1.get_func_by_name(&name.to_string());
        let r2 = p2.get_func_by_name(&name.to_string());
        match (r1, r2) {
            (Some((f1, m1)), Some((f2, m2))) => {
                assert_eq!(f1.name, f2.name);
                assert_eq!(m1.name, m2.name);
            },
            (None, None) => {},
            _ => panic!("lookups disagree"),
        }
    }
    let e1: Vec<String> = p1.all_functions().iter().map(|(f, _)| f.name.clone()).collect();
    let e2: Vec<String> = p2.all_functions().iter().map(|(f, _)| f.name.clone()).collect();
    assert_eq!(e1, e2);
    assert_eq!(e1, vec!["f".to_string(), "g".to_string(), "h".to_string()]);
}

#[test]
fn enumeration_follows_insertion_order() {
    let mut proj = Project::from_modules(vec![module("a.bc", &["f"])]);
    proj.add_module(module("b.bc", &["g", "h"]));
    let names: Vec<(String, String)> = proj
        .all_functions()
        .iter()
        .map(|(f, m)| (f.name.clone(), m.name.clone()))
        .collect();
    assert_eq!(names, vec![
        ("f".to_string(), "a.bc".to_string()),
        ("g".to_string(), "b.bc".to_string()),
        ("h".to_string(), "b.bc".to_string()),
    ]);
    let mods: Vec<String> = proj.active_module_names().iter().map(|s| (*s).clone()).collect();
    assert_eq!(mods, vec!["a.bc".to_string(), "b.bc".to_string()]);
}

#[test]
fn globals_and_aliases_enumerate() {
    let m = Module {
        name: "g.bc".to_string(),
        functions: Vec::new(),
        global_vars: vec![GlobalVariable { name: "gv".to_string() }],
        global_aliases: vec![GlobalAlias { name: "ga".to_string() }],
        named_struct_types: Vec::new(),
    };
    let proj = Project::from_modules(vec![m]);
    let gvs: Vec<String> = proj.all_global_vars().iter().map(|(g, _)| g.name.clone()).collect();
    assert_eq!(gvs, vec!["gv".to_string()]);
    let gas: Vec<String> = proj.all_global_aliases().iter().map(|(a, _)| a.name.clone()).collect();
    assert_eq!(gas, vec!["ga".to_string()]);
}

#[test]
fn struct_lookup_prefers_concrete_over_opaque() {
    let proj = Project::from_modules(vec![
        module_with_structs("one.bc", vec![NamedStructType {
            name: "s".to_string(),
            def: None,
        }]),
        module_with_structs("two.bc", vec![NamedStructType {
            name: "s".to_string(),
            def: Some(StructDef { elements: vec![7, 8], packed: false }),
        }]),
    ]);
    assert_eq!(proj.find_struct_conflict(&"s".to_string()), None);
    let (def, module) = proj
        .get_named_struct_type_by_name(&"s".to_string())
        .expect("struct should be found");
    let def = def.as_ref().expect("the concrete definition should win");
    assert_eq!(def.elements, vec![7, 8]);
    assert_eq!(&module.name, "two.bc");
}

#[test]
fn struct_lookup_keeps_candidate_on_later_opaque() {
    let proj = Project::from_modules(vec![
        module_with_structs("one.bc", vec![NamedStructType {
            name: "s".to_string(),
            def: Some(StructDef { elements: vec![1], packed: false }),
        }]),
        module_with_structs("two.bc", vec![NamedStructType {
            name: "s".to_string(),
            def: None,
        }]),
    ]);
    let (def, module) = proj
        .get_named_struct_type_by_name(&"s".to_string())
        .expect("struct should be found");
    assert!(def.is_some());
    assert_eq!(&module.name, "one.bc");
}

#[test]
fn struct_lookup_all_opaque_returns_opaque() {
    let proj = Project::from_modules(vec![
        module_with_structs("one.bc", vec![NamedStructType { name: "s".to_string(), def: None }]),
        module_with_structs("two.bc", vec![NamedStructType { name: "s".to_string(), def: None }]),
    ]);
    let (def, module) = proj
        .get_named_struct_type_by_name(&"s".to_string())
        .expect("struct should be found");
    assert!(def.is_none());
    assert_eq!(&module.name, "one.bc");
    assert!(proj.get_named_struct_type_by_name(&"absent".to_string()).is_none());
}

#[test]
fn struct_lookup_prefers_nonempty_body() {
    // an empty placeholder body yields to a non-empty one, in either order
    let empty = StructDef { elements: Vec::new(), packed: false };
    let full = StructDef { elements: vec![5], packed: false };
    let proj = Project::from_modules(vec![
        module_with_structs("one.bc", vec![NamedStructType {
            name: "s".to_string(),
            def: Some(empty.clone()),
        }]),
        module_with_structs("two.bc", vec![NamedStructType {
            name: "s".to_string(),
            def: Some(full.clone()),
        }]),
    ]);
    assert_eq!(proj.find_struct_conflict(&"s".to_string()), None);
    let (def, module) = proj.get_named_struct_type_by_name(&"s".to_string()).unwrap();
    assert_eq!(def.as_ref().unwrap().elements, vec![5]);
    assert_eq!(&module.name, "two.bc");

    let proj2 = Project::from_modules(vec![
        module_with_structs("one.bc", vec![NamedStructType {
            name: "s".to_string(),
            def: Some(full),
        }]),
        module_with_structs("two.bc", vec![NamedStructType {
            name: "s".to_string(),
            def: Some(empty),
        }]),
    ]);
    let (def, module) = proj2.get_named_struct_type_by_name(&"s".to_string()).unwrap();
    assert_eq!(def.as_ref().unwrap().elements, vec![5]);
    assert_eq!(&module.name, "one.bc");
}

#[test]
fn struct_conflict_is_detected() {
    let proj = Project::from_modules(vec![
        module_with_structs("one.bc", vec![NamedStructType {
            name: "s".to_string(),
            def: Some(StructDef { elements: vec![1, 2], packed: false }),
        }]),
        module_with_structs("middle.bc", Vec::new()),
        module_with_structs("two.bc", vec![NamedStructType {
            name: "s".to_string(),
            def: Some(StructDef { elements: vec![3], packed: false }),
        }]),
    ]);
    assert_eq!(proj.find_struct_conflict(&"s".to_string()), Some((0, 2)));
}

#[test]
fn identical_struct_definitions_agree() {
    let d = StructDef { elements: vec![1, 2, 3], packed: true };
    let proj = Project::from_modules(vec![
        module_with_structs("one.bc", vec![NamedStructType {
            name: "s".to_string(),
            def: Some(d.clone()),
        }]),
        module_with_structs("two.bc", vec![NamedStructType {
            name: "s".to_string(),
            def: Some(d),
        }]),
    ]);
    assert_eq!(proj.find_struct_conflict(&"s".to_string()), None);
    let (def, module) = proj.get_named_struct_type_by_name(&"s".to_string()).unwrap();
    assert_eq!(def.as_ref().unwrap().elements, vec![1, 2, 3]);
    assert_eq!(&module.name, "one.bc");
}

#[test]
fn packedness_takes_part_in_structural_equality() {
    // same elements, different packedness: genuinely conflicting
    let proj = Project::from_modules(vec![
        module_with_structs("one.bc", vec![NamedStructType {
            name: "s".to_string(),
            def: Some(StructDef { elements: vec![1, 2], packed: false }),
        }]),
        module_with_structs("two.bc", vec![NamedStructType {
            name: "s".to_string(),
            def: Some(StructDef { elements: vec![1, 2], packed: true }),
        }]),
    ]);
    assert_eq!(proj.find_struct_conflict(&"s".to_string()), Some((0, 1)));
}

#[test]
fn struct_enumeration_lists_every_declaration() {
    let proj = Project::from_modules(vec![
        module_with_structs("one.bc", vec![NamedStructType { name: "s".to_string(), def: None }]),
        module_with_structs("two.bc", vec![NamedStructType {
            name: "t".to_string(),
            def: Some(StructDef { elements: vec![9], packed: false }),
        }]),
    ]);
    let all: Vec<(String, bool, String)> = proj
        .all_named_struct_types()
        .iter()
        .map(|(n, d, m)| ((*n).clone(), d.is_some(), m.name.clone()))
        .collect();
    assert_eq!(all, vec![
        ("s".to_string(), false, "one.bc".to_string()),
        ("t".to_string(), true, "two.bc".to_string()),
    ]);
}

#[test]
fn selection_edge_cases() {
    let extn = "bc".to_string();
    let entries = vec![
        // no extension at all
        entry("tests/bcfiles/Makefile", Some(false), false),
        // a leading dot alone does not make an extension
        entry("tests/bcfiles/.bc", Some(false), false),
        // dot inside the name: extension is the part after the last dot
        entry("tests/bcfiles/a.tar.bc", Some(false), false),
        // a directory named like a bitcode file is skipped
        entry("tests/bcfiles/dir.bc", Some(true), false),
        // an entry of unknown kind is kept, so the error surfaces later
        entry("tests/bcfiles/odd.bc", None, false),
    ];
    let selected = pitchfork::project::select_bc_paths(&entries, &extn);
    assert_eq!(selected, vec![
        "tests/bcfiles/a.tar.bc".to_string(),
        "tests/bcfiles/odd.bc".to_string(),
    ]);
}
