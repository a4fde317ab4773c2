use structviz::analysis::{
    analyze, check_parents, module_ritems, starts_with, structure_node_to_ritem, BadFile,
    BadParent, SourceFile,
};
use structviz::file_structure::{FilePosition, RItem, RItemType};
use structviz::lang::Language;
use structviz::symbol::{Symbol, SymbolKind};

fn sym(name: &str, kind: SymbolKind, offset: u32, parent: Option<usize>) -> Symbol {
    Symbol::new(name.to_string(), kind, offset, parent)
}

fn point_file() -> Vec<Symbol> {
    vec![
        sym("Point", SymbolKind::Struct, 7, None),
        sym("new", SymbolKind::Function, 40, None),
        sym("impl Point", SymbolKind::Impl, 90, None),
        sym("area", SymbolKind::Function, 120, Some(2)),
    ]
}

#[test]
fn three_top_level_items_and_one_member() {
    let items = module_ritems(Language::Rust, &point_file(), 1).unwrap();
    assert_eq!(items.len(), 3);
    assert_eq!(items[0].ident, "Point");
    assert_eq!(items[0].ty, RItemType::Struct);
    assert_eq!(items[0].children, None);
    assert_eq!(items[1].ident, "new");
    assert_eq!(items[1].ty, RItemType::Func);
    assert_eq!(items[1].children, None);
    assert_eq!(items[2].ident, "impl Point");
    assert_eq!(items[2].ty, RItemType::Impl);
    let members = items[2].children.as_ref().unwrap();
    assert_eq!(members.len(), 1);
    assert_eq!(members[0].ident, "area");
    assert_eq!(members[0].ty, RItemType::Func);
    assert_eq!(members[0].pos, FilePosition { file_id: 1, offset: 120 });
    assert_eq!(members[0].children, None);
}

#[test]
fn whole_item_is_as_expected() {
    let items = module_ritems(Language::Default, &point_file(), 9).unwrap();
    let expected = RItem {
        ident: "impl Point".to_string(),
        ty: RItemType::Impl,
        pos: FilePosition { file_id: 9, offset: 90 },
        children: Some(vec![RItem {
            ident: "area".to_string(),
            ty: RItemType::Func,
            pos: FilePosition { file_id: 9, offset: 120 },
            children: None,
        }]),
    };
    assert_eq!(items[2], expected);
}

#[test]
fn variable_is_absent_everywhere() {
    let symbols = vec![
        sym("LIMIT", SymbolKind::Variable, 1, None),
        sym("impl Point", SymbolKind::Impl, 10, None),
        sym("scratch", SymbolKind::Variable, 20, Some(1)),
        sym("area", SymbolKind::Method, 30, Some(1)),
        sym("unit", SymbolKind::Constant, 35, Some(1)),
    ];
    for lang in [Language::Go, Language::Java, Language::Rust, Language::C, Language::Default] {
        let items = module_ritems(lang, &symbols, 4).unwrap();
        assert_eq!(items.len(), 1);
        assert_eq!(items[0].ident, "impl Point");
        let members = items[0].children.as_ref().unwrap();
        assert_eq!(members.len(), 1);
        assert_eq!(members[0].ident, "area");
    }
}

#[test]
fn empty_file_has_no_items() {
    let items = module_ritems(Language::Default, &Vec::new(), 0).unwrap();
    assert!(items.is_empty());
}

#[test]
fn order_of_items_and_members_is_source_order() {
    let symbols = vec![
        sym("impl A", SymbolKind::Impl, 0, None),
        sym("impl B", SymbolKind::Impl, 10, None),
        sym("b1", SymbolKind::Function, 11, Some(1)),
        sym("a1", SymbolKind::Function, 1, Some(0)),
        sym("b2", SymbolKind::Function, 12, Some(1)),
        sym("free", SymbolKind::Function, 50, None),
        sym("a2", SymbolKind::Function, 2, Some(0)),
        sym("b3", SymbolKind::Function, 13, Some(1)),
        sym("Last", SymbolKind::Enum, 60, None),
    ];
    let items = module_ritems(Language::Rust, &symbols, 2).unwrap();
    let names: Vec<&str> = items.iter().map(|i| i.ident.as_str()).collect();
    assert_eq!(names, vec!["impl A", "impl B", "free", "Last"]);
    let a: Vec<&str> =
        items[0].children.as_ref().unwrap().iter().map(|i| i.ident.as_str()).collect();
    assert_eq!(a, vec!["a1", "a2"]);
    let b: Vec<&str> =
        items[1].children.as_ref().unwrap().iter().map(|i| i.ident.as_str()).collect();
    assert_eq!(b, vec!["b1", "b2", "b3"]);
}

#[test]
fn nesting_stops_after_one_level() {
    let symbols = vec![
        sym("impl Outer", SymbolKind::Impl, 0, None),
        sym("impl Inner", SymbolKind::Impl, 5, Some(0)),
        sym("deep", SymbolKind::Function, 9, Some(1)),
        sym("shallow", SymbolKind::Function, 20, Some(0)),
    ];
    let items = module_ritems(Language::Rust, &symbols, 2).unwrap();
    assert_eq!(items.len(), 1);
    let members = items[0].children.as_ref().unwrap();
    assert_eq!(members.len(), 2);
    assert_eq!(members[0].ident, "impl Inner");
    assert_eq!(members[0].children, Some(Vec::new()));
    assert_eq!(members[1].ident, "shallow");
    assert_eq!(members[1].children, None);
}

#[test]
fn members_of_a_plain_item_are_left_out() {
    let symbols = vec![
        sym("Point", SymbolKind::Struct, 0, None),
        sym("helper", SymbolKind::Function, 5, Some(0)),
    ];
    let items = module_ritems(Language::Rust, &symbols, 2).unwrap();
    assert_eq!(items.len(), 1);
    assert_eq!(items[0].ident, "Point");
    assert_eq!(items[0].children, None);
}

#[test]
fn members_of_a_dropped_parent_are_not_promoted() {
    let symbols = vec![
        sym("inner", SymbolKind::Module, 0, None),
        sym("helper", SymbolKind::Function, 5, Some(0)),
    ];
    let items = module_ritems(Language::Rust, &symbols, 2).unwrap();
    assert!(items.is_empty());
}

#[test]
fn container_keeps_all_its_members() {
    let mut symbols = vec![sym("impl Big", SymbolKind::Impl, 0, None)];
    for i in 0..25u32 {
        symbols.push(sym(&format!("m{}", i), SymbolKind::Function, 10 + i, Some(0)));
    }
    let items = module_ritems(Language::Rust, &symbols, 2).unwrap();
    assert_eq!(items.len(), 1);
    let members = items[0].children.as_ref().unwrap();
    assert_eq!(members.len(), 25);
    for i in 0..25usize {
        assert_eq!(members[i].ident, format!("m{}", i));
    }
}

#[test]
fn parent_that_does_not_precede_is_reported() {
    let symbols = vec![
        sym("a", SymbolKind::Function, 0, None),
        sym("b", SymbolKind::Function, 1, Some(7)),
        sym("c", SymbolKind::Function, 2, Some(2)),
    ];
    assert_eq!(check_parents(&symbols), Err(BadParent { symbol: 1, parent: 7 }));
    assert_eq!(
        module_ritems(Language::Rust, &symbols, 0),
        Err(BadParent { symbol: 1, parent: 7 })
    );
    let own = vec![sym("a", SymbolKind::Function, 0, Some(0))];
    assert_eq!(check_parents(&own), Err(BadParent { symbol: 0, parent: 0 }));
    assert_eq!(check_parents(&point_file()), Ok(()));
}

#[test]
fn single_symbol_to_item() {
    let node = sym("impl T", SymbolKind::Impl, 3, None);
    let item = structure_node_to_ritem(Language::Rust, &node, None, 8).unwrap();
    assert_eq!(item.ident, "impl T");
    assert_eq!(item.ty, RItemType::Impl);
    assert_eq!(item.pos, FilePosition { file_id: 8, offset: 3 });
    assert_eq!(item.children, Some(Vec::new()));

    let field = sym("x", SymbolKind::Field, 3, None);
    assert_eq!(structure_node_to_ritem(Language::Rust, &field, None, 8), None);
    let unknown = sym("?", SymbolKind::Unknown, 3, None);
    assert_eq!(structure_node_to_ritem(Language::Default, &unknown, None, 8), None);

    let class = sym("Shape", SymbolKind::Class, 3, None);
    let item = structure_node_to_ritem(Language::Java, &class, Some(Vec::new()), 8).unwrap();
    assert_eq!(item.ty, RItemType::Struct);
    assert_eq!(item.children, None);
}

#[test]
fn paths_at_or_below_a_root() {
    assert!(starts_with("/work/src/lib.rs", "/work"));
    assert!(starts_with("/work/src/lib.rs", "/work/"));
    assert!(starts_with("/work", "/work"));
    assert!(starts_with("/work/src/lib.rs", ""));
    assert!(!starts_with("/workshop/lib.rs", "/work"));
    assert!(!starts_with("/wor", "/work"));
    assert!(!starts_with("/other/lib.rs", "/work"));
}

#[test]
fn files_outside_the_root_are_passed_over() {
    let files = vec![
        SourceFile { path: "/work/a.rs".to_string(), file_id: 0, symbols: point_file() },
        SourceFile {
            path: "/registry/dep.rs".to_string(),
            file_id: 1,
            symbols: vec![sym("x", SymbolKind::Function, 0, Some(9))],
        },
        SourceFile { path: "/work/b.rs".to_string(), file_id: 2, symbols: Vec::new() },
        SourceFile {
            path: "/work/c.rs".to_string(),
            file_id: 3,
            symbols: vec![sym("main", SymbolKind::Function, 4, None)],
        },
    ];
    let modules = analyze(Language::Rust, "/work", &files).unwrap();
    assert_eq!(modules.len(), 3);
    assert_eq!(modules[0].path, "/work/a.rs");
    assert_eq!(modules[0].file_id, 0);
    assert_eq!(modules[0].items, module_ritems(Language::Rust, &point_file(), 0).unwrap());
    assert_eq!(modules[0].items.len(), 3);
    assert_eq!(modules[1].path, "/work/b.rs");
    assert_eq!(modules[1].file_id, 2);
    assert!(modules[1].items.is_empty());
    assert_eq!(modules[2].file_id, 3);
    assert_eq!(modules[2].items[0].ident, "main");
    assert_eq!(modules[2].items[0].pos, FilePosition { file_id: 3, offset: 4 });
}

#[test]
fn first_unusable_file_is_reported() {
    let files = vec![
        SourceFile { path: "/work/a.rs".to_string(), file_id: 0, symbols: point_file() },
        SourceFile {
            path: "/work/bad.rs".to_string(),
            file_id: 1,
            symbols: vec![
                sym("ok", SymbolKind::Function, 0, None),
                sym("x", SymbolKind::Function, 5, Some(9)),
            ],
        },
        SourceFile {
            path: "/work/worse.rs".to_string(),
            file_id: 2,
            symbols: vec![sym("y", SymbolKind::Function, 5, Some(0))],
        },
    ];
    assert_eq!(
        analyze(Language::Rust, "/work", &files),
        Err(BadFile { file: 1, bad: BadParent { symbol: 1, parent: 9 } })
    );
    assert_eq!(analyze(Language::Rust, "/elsewhere", &files), Ok(Vec::new()));
}
