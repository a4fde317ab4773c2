use structviz::analysis::module_ritems;
use structviz::dot::{module_node, modules_graph, ritem_cell, ritem_table};
use structviz::file_structure::Module;
use structviz::graph::{file_name, Cell, TableNode};
use structviz::lang::{CssClass, Language, Style};
use structviz::symbol::{Symbol, SymbolKind};
use structviz::text::{decimal_string, push_decimal, push_escaped, Escape};

const GRAPH_HEAD: &str = "\ndigraph graphviz {\n    graph [\n        rankdir = \"LR\"\n        ranksep = 2.0\n    ];\n    node [\n        fontsize = \"16\"\n        fontname = \"helvetica, open-sans\"\n        shape = \"plaintext\"\n        style = \"rounded, filled\"\n    ];\n\n    ";
const GRAPH_TAIL: &str = "\n}\n        ";

fn sym(name: &str, kind: SymbolKind, offset: u32, parent: Option<usize>) -> Symbol {
    Symbol::new(name.to_string(), kind, offset, parent)
}

fn file(path: &str, file_id: u32, symbols: &Vec<Symbol>) -> Module {
    let mut m = Module::new(path.to_string(), file_id);
    m.items = module_ritems(Language::Rust, symbols, file_id).unwrap();
    m
}

fn point_file() -> Vec<Symbol> {
    vec![
        sym("Point", SymbolKind::Struct, 7, None),
        sym("new", SymbolKind::Function, 40, None),
        sym("impl Point", SymbolKind::Impl, 90, None),
        sym("area", SymbolKind::Function, 120, Some(2)),
    ]
}

fn leaf(id: &str, port: &str, title: &str) -> Cell {
    Cell {
        id: id.to_string(),
        port: port.to_string(),
        styles: Vec::new(),
        title: title.to_string(),
        children: Vec::new(),
    }
}

fn all_ids(nodes: &Vec<TableNode>) -> Vec<String> {
    let mut ids = Vec::new();
    for n in nodes {
        for s in &n.sections {
            ids.push(s.id.clone());
            for c in &s.children {
                ids.push(c.id.clone());
            }
        }
    }
    ids
}

#[test]
fn decimal_numerals() {
    assert_eq!(decimal_string(0), "0");
    assert_eq!(decimal_string(7), "7");
    assert_eq!(decimal_string(10), "10");
    assert_eq!(decimal_string(1234567890), "1234567890");
    assert_eq!(decimal_string(4294967295), "4294967295");
    let mut s = "x".to_string();
    push_decimal(&mut s, 405);
    assert_eq!(s, "x405");
}

#[test]
fn last_component_of_a_path() {
    assert_eq!(file_name("src/graph/dot.rs"), "dot.rs");
    assert_eq!(file_name("/abs/lib.rs"), "lib.rs");
    assert_eq!(file_name("main.rs"), "main.rs");
    assert_eq!(file_name("dir/"), "");
    assert_eq!(file_name(""), "");
}

#[test]
fn table_of_a_file() {
    let m = file("/work/src/point.rs", 3, &point_file());
    let node = Language::Rust.file_repr(&m);
    assert_eq!(node.id, "3");
    assert_eq!(node.title, "point.rs");
    assert_eq!(node.sections.len(), 3);
    assert_eq!(
        node.sections[0],
        Cell {
            id: "3:7".to_string(),
            port: "7".to_string(),
            styles: Vec::new(),
            title: "Point".to_string(),
            children: Vec::new(),
        }
    );
    assert_eq!(node.sections[1].id, "3:40");
    assert_eq!(node.sections[1].styles, vec![Style::CssClass(CssClass::Fn), Style::Rounded]);
    let block = &node.sections[2];
    assert_eq!(block.title, "impl Point");
    assert_eq!(block.port, "90");
    assert_eq!(block.children.len(), 1);
    assert_eq!(block.children[0].title, "area");
    assert_eq!(block.children[0].id, "3:120");
    assert_eq!(block.children[0].port, "120");
    assert_eq!(block.children[0].styles, vec![Style::CssClass(CssClass::Fn), Style::Rounded]);
    assert!(block.children[0].children.is_empty());
}

#[test]
fn trait_cell_has_interface_style() {
    let symbols = vec![sym("Shape", SymbolKind::Trait, 5, None)];
    let m = file("shape.rs", 1, &symbols);
    let cell = Language::Rust.symbol_repr(1, &m.items[0]);
    assert_eq!(
        cell.styles,
        vec![Style::CssClass(CssClass::Interface), Style::Border(0), Style::Rounded]
    );
    assert_eq!(cell.id, "1:5");
}

#[test]
fn container_cell_has_a_row_per_member() {
    let mut symbols = vec![sym("impl Big", SymbolKind::Impl, 0, None)];
    for i in 0..12u32 {
        symbols.push(sym(&format!("member_{}", i), SymbolKind::Function, 10 + i, Some(0)));
    }
    let m = file("big.rs", 5, &symbols);
    let node = Language::Rust.file_repr(&m);
    assert_eq!(node.sections.len(), 1);
    assert_eq!(node.sections[0].children.len(), 12);
    for i in 0..12usize {
        assert_eq!(node.sections[0].children[i].title, format!("member_{}", i));
    }
}

#[test]
fn row_of_a_cell() {
    let cell = leaf("1:120", "120", "area");
    assert_eq!(ritem_cell(&cell), "<TR><TD PORT=\"1:120\">area</TD></TR>");
}

#[test]
fn bordered_table_of_a_cell() {
    let mut cell = leaf("1:90", "90", "impl Point");
    cell.children.push(leaf("1:120", "120", "area"));
    cell.children.push(leaf("1:150", "150", "norm"));
    let expected = "\n        <TR><TD>\n        <TABLE BORDER=\"1\" CELLBORDER=\"0\" ROWS=\"*\">\n        <TR><TD PORT=\"1:90\">impl Point</TD></TR>\n        <TR><TD PORT=\"1:120\">area</TD></TR>\n        <TR><TD PORT=\"1:150\">norm</TD></TR>\n        </TABLE>\n        </TD></TR>\n        ";
    assert_eq!(ritem_table(&cell), expected);

    let alone = leaf("1:7", "7", "Point");
    let expected = "\n        <TR><TD>\n        <TABLE BORDER=\"1\" CELLBORDER=\"0\" ROWS=\"*\">\n        <TR><TD PORT=\"1:7\">Point</TD></TR>\n        </TABLE>\n        </TD></TR>\n        ";
    assert_eq!(ritem_table(&alone), expected);
}

#[test]
fn node_of_a_table() {
    let node = TableNode {
        id: "3".to_string(),
        title: "point.rs".to_string(),
        sections: vec![leaf("3:7", "7", "Point"), leaf("3:40", "40", "new")],
    };
    let first = ritem_table(&node.sections[0]);
    let second = ritem_table(&node.sections[1]);
    let expected = format!(
        "\n    \"3\" [label=<\n        <TABLE BORDER=\"0\" CELLBORDER=\"0\">\n        <TR><TD WIDTH=\"230\" BORDER=\"0\"><FONT POINT-SIZE=\"12\">point.rs</FONT></TD></TR>\n        {}\n{}\n        <TR><TD BORDER=\"0\"></TD></TR>\n        </TABLE>\n    >]\n        ",
        first, second
    );
    assert_eq!(module_node(&node), expected);
}

#[test]
fn empty_file_renders_header_only() {
    let m = file("/work/empty.rs", 12, &Vec::new());
    let node = Language::Default.file_repr(&m);
    assert_eq!(node.id, "12");
    assert_eq!(node.title, "empty.rs");
    assert!(node.sections.is_empty());
    let text = module_node(&node);
    let expected = "\n    \"12\" [label=<\n        <TABLE BORDER=\"0\" CELLBORDER=\"0\">\n        <TR><TD WIDTH=\"230\" BORDER=\"0\"><FONT POINT-SIZE=\"12\">empty.rs</FONT></TD></TR>\n        \n        <TR><TD BORDER=\"0\"></TD></TR>\n        </TABLE>\n    >]\n        ";
    assert_eq!(text, expected);
    assert_eq!(text.matches("<TR>").count(), 2);
    assert_eq!(text.matches("PORT=").count(), 0);
    let graph = modules_graph(&vec![node]);
    assert_eq!(graph, format!("{}{}{}", GRAPH_HEAD, expected, GRAPH_TAIL));
}

#[test]
fn graph_without_files() {
    assert_eq!(modules_graph(&Vec::new()), format!("{}{}", GRAPH_HEAD, GRAPH_TAIL));
}

#[test]
fn graph_joins_nodes_in_order() {
    let a = Language::Rust.file_repr(&file("a/point.rs", 1, &point_file()));
    let b = Language::Rust.file_repr(&file("b/other.rs", 2, &point_file()));
    let expected =
        format!("{}{}\n{}{}", GRAPH_HEAD, module_node(&a), module_node(&b), GRAPH_TAIL);
    let graph = modules_graph(&vec![a, b]);
    assert_eq!(graph, expected);
    assert!(graph.find("\"1\" [label=<").unwrap() < graph.find("\"2\" [label=<").unwrap());
    assert_eq!(graph.matches("<TABLE").count(), graph.matches("</TABLE>").count());
    assert_eq!(graph.matches("<TR>").count(), graph.matches("</TR>").count());
    assert_eq!(graph.matches("PORT=\"2:120\"").count(), 1);
}

#[test]
fn same_file_name_distinct_ids_do_not_collide() {
    let a = Language::Rust.file_repr(&file("left/mod.rs", 1, &point_file()));
    let b = Language::Rust.file_repr(&file("right/mod.rs", 2, &point_file()));
    assert_eq!(a.title, "mod.rs");
    assert_eq!(b.title, "mod.rs");
    assert_ne!(a.id, b.id);
    let nodes = vec![a, b];
    let ids = all_ids(&nodes);
    assert_eq!(ids.len(), 8);
    for i in 0..ids.len() {
        for j in 0..i {
            assert_ne!(ids[i], ids[j]);
        }
    }
    let graph = modules_graph(&nodes);
    assert_eq!(graph.matches("\"1\" [label=<").count(), 1);
    assert_eq!(graph.matches("\"2\" [label=<").count(), 1);
    for id in &ids {
        assert_eq!(graph.matches(&format!("PORT=\"{}\"", id)).count(), 1);
    }
}

#[test]
fn anchors_do_not_run_together() {
    let one = vec![sym("f", SymbolKind::Function, 23, None)];
    let other = vec![sym("g", SymbolKind::Function, 3, None)];
    let a = Language::Rust.file_repr(&file("a.rs", 1, &one));
    let b = Language::Rust.file_repr(&file("b.rs", 12, &other));
    assert_eq!(a.sections[0].id, "1:23");
    assert_eq!(b.sections[0].id, "12:3");
    assert_ne!(a.sections[0].id, b.sections[0].id);
}

#[test]
fn text_is_escaped_for_its_place() {
    let mut s = String::new();
    push_escaped(&mut s, Escape::Html, "impl<T> From<&'a T> for \"X\"");
    assert_eq!(s, "impl&lt;T&gt; From&lt;&amp;'a T&gt; for &quot;X&quot;");
    let mut s = "id=".to_string();
    push_escaped(&mut s, Escape::Quoted, "a\"b\\c<d>");
    assert_eq!(s, "id=a\\\"b\\\\c<d>");
    let mut s = "keep".to_string();
    push_escaped(&mut s, Escape::Html, "");
    assert_eq!(s, "keep");
    let mut s = String::new();
    push_escaped(&mut s, Escape::Html, "plain_name 12:7");
    assert_eq!(s, "plain_name 12:7");
    let mut s = String::new();
    push_escaped(&mut s, Escape::Html, "<");
    assert_eq!(s, "&lt;");
}

#[test]
fn rows_and_nodes_escape_what_they_show() {
    let cell = leaf("1:\"2\"", "2", "impl<T> Add<T> for Wrapper<T>");
    assert_eq!(
        ritem_cell(&cell),
        "<TR><TD PORT=\"1:&quot;2&quot;\">impl&lt;T&gt; Add&lt;T&gt; for Wrapper&lt;T&gt;</TD></TR>"
    );
    let node = TableNode {
        id: "my \"file\"".to_string(),
        title: "a&b.rs".to_string(),
        sections: Vec::new(),
    };
    let expected = "\n    \"my \\\"file\\\"\" [label=<\n        <TABLE BORDER=\"0\" CELLBORDER=\"0\">\n        <TR><TD WIDTH=\"230\" BORDER=\"0\"><FONT POINT-SIZE=\"12\">a&amp;b.rs</FONT></TD></TR>\n        \n        <TR><TD BORDER=\"0\"></TD></TR>\n        </TABLE>\n    >]\n        ";
    assert_eq!(module_node(&node), expected);
}
