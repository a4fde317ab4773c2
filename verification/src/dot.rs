//! The graph in the dot language: one node per table, whose label is a table
//! of tables.

use vstd::prelude::*;
use vstd::string::*;
use crate::graph::{anchor_of, table_views, Cell, CellView, RowView, TableNode, TableNodeView};
use crate::text::{
    decimal, escape_char, escaped, join, lemma_decimal_digits, lemma_escaped_unchanged,
    push_escaped, Escape,
};

verus! {

/// What separates the rows of one bordered table.
pub open spec fn row_separator() -> Seq<char> {
    "\n        "@
}

/// What separates the bordered tables of a node, and the nodes of the graph.
pub open spec fn line_separator() -> Seq<char> {
    "\n"@
}

/// The row that shows a cell: its anchor in the graph as port, then its
/// title, both written as a label takes them.
pub open spec fn row_text(id: Seq<char>, title: Seq<char>) -> Seq<char> {
    "<TR><TD PORT=\""@ + escaped(Escape::Html, id) + "\">"@ + escaped(Escape::Html, title)
        + "</TD></TR>"@
}

/// The rows of a cell's bordered table: the cell's own, then one for each cell
/// below it, in order.
pub open spec fn table_rows(cell: CellView) -> Seq<Seq<char>> {
    seq![row_text(cell.id, cell.title)] + cell.children.map_values(
        |r: RowView| row_text(r.id, r.title),
    )
}

/// The bordered table of a cell, as one row of the table around it.
pub open spec fn table_text(cell: CellView) -> Seq<char> {
    "\n        <TR><TD>\n        <TABLE BORDER=\"1\" CELLBORDER=\"0\" ROWS=\"*\">\n        "@
        + join(table_rows(cell), row_separator())
        + "\n        </TABLE>\n        </TD></TR>\n        "@
}

/// The row that heads a node: the title of its file.
pub open spec fn header_text(title: Seq<char>) -> Seq<char> {
    "<TR><TD WIDTH=\"230\" BORDER=\"0\"><FONT POINT-SIZE=\"12\">"@ + escaped(
        Escape::Html,
        title,
    ) + "</FONT></TD></TR>"@
}

/// The bordered tables of a node's sections, in order.
pub open spec fn section_texts(sections: Seq<CellView>) -> Seq<Seq<char>> {
    sections.map_values(|c: CellView| table_text(c))
}

/// The node of a table: its id between double quotes, and as label the header row followed by
/// the bordered tables of its sections.
pub open spec fn node_text(node: TableNodeView) -> Seq<char> {
    "\n    \""@ + escaped(Escape::Quoted, node.id) + "\" [label=<\n        <TABLE BORDER=\"0\" CELLBORDER=\"0\">\n        "@
        + header_text(node.title) + "\n        "@ + join(
        section_texts(node.sections),
        line_separator(),
    ) + "\n        <TR><TD BORDER=\"0\"></TD></TR>\n        </TABLE>\n    >]\n        "@
}

/// The nodes of a list of tables, in order.
pub open spec fn node_texts(nodes: Seq<TableNodeView>) -> Seq<Seq<char>> {
    nodes.map_values(|n: TableNodeView| node_text(n))
}

/// What opens the graph: its name and the attributes of the graph and of all
/// nodes.
pub open spec fn graph_head() -> Seq<char> {
    "\ndigraph graphviz {\n    graph [\n        rankdir = \"LR\"\n        ranksep = 2.0\n    ];\n    node [\n        fontsize = \"16\"\n        fontname = \"helvetica, open-sans\"\n        shape = \"plaintext\"\n        style = \"rounded, filled\"\n    ];\n\n    "@
}

/// What closes the graph.
pub open spec fn graph_tail() -> Seq<char> {
    "\n}\n        "@
}

/// The whole graph: head, the nodes in order, tail.
pub open spec fn graph_text(nodes: Seq<TableNodeView>) -> Seq<char> {
    graph_head() + join(node_texts(nodes), line_separator()) + graph_tail()
}

/// The id of a file and the anchor of a row are written into the graph as
/// they stand: a numeral and a colon need no rewriting, so anchors that
/// differ are still different in the output.
pub proof fn lemma_anchor_written_plain(file_id: u32, offset: u32)
    ensures
        escaped(Escape::Html, anchor_of(file_id, offset)) == anchor_of(file_id, offset),
        escaped(Escape::Quoted, decimal(file_id as nat)) == decimal(file_id as nat),
{
    let id = decimal(file_id as nat);
    let port = decimal(offset as nat);
    let anchor = anchor_of(file_id, offset);
    lemma_decimal_digits(file_id as nat);
    lemma_decimal_digits(offset as nat);
    assert forall|i: int| 0 <= i < anchor.len() implies escape_char(
        Escape::Html,
        #[trigger] anchor[i],
    ) == seq![anchor[i]] by {
        if i < id.len() {
            assert(anchor[i] == id[i]);
        } else if i == id.len() {
            assert(anchor[i] == ':');
        } else {
            assert(anchor[i] == port[i - id.len() - 1]);
        }
    }
    lemma_escaped_unchanged(Escape::Html, anchor);
    assert forall|i: int| 0 <= i < id.len() implies escape_char(Escape::Quoted, #[trigger] id[i])
        == seq![id[i]] by {}
    lemma_escaped_unchanged(Escape::Quoted, id);
}

/// Joining one part more: nothing goes before the first part, the separator
/// before every other.
pub proof fn lemma_join_next(parts: Seq<Seq<char>>, sep: Seq<char>, i: int)
    requires
        0 <= i < parts.len(),
    ensures
        join(parts.take(i + 1), sep) == if i == 0 {
            parts[0]
        } else {
            join(parts.take(i), sep) + sep + parts[i]
        },
{
    assert(parts.take(i + 1).drop_last() =~= parts.take(i));
    assert(parts.take(i + 1).last() == parts[i]);
}

/// The row of `cell`.
pub fn ritem_cell(cell: &Cell) -> (text: String)
    ensures
        text@ == row_text(cell.id@, cell.title@),
{
    let mut text = String::from_str("<TR><TD PORT=\"");
    push_escaped(&mut text, Escape::Html, cell.id.as_str());
    text.append("\">");
    push_escaped(&mut text, Escape::Html, cell.title.as_str());
    text.append("</TD></TR>");
    text
}

/// The bordered table of `cell`: its own row, then the rows of the cells
/// below it.
pub fn ritem_table(cell: &Cell) -> (text: String)
    ensures
        text@ == table_text(cell@),
{
    let ghost rows = table_rows(cell@);
    let mut cells = ritem_cell(cell);
    proof {
        assert(rows.take(1) =~= seq![rows[0]]);
        assert(cells@ == join(rows.take(1), row_separator()));
    }
    let mut i: usize = 0;
    while i < cell.children.len()
        invariant
            i <= cell.children@.len(),
            rows == table_rows(cell@),
            rows.len() == cell.children@.len() + 1,
            cells@ == join(rows.take(i + 1), row_separator()),
        decreases cell.children@.len() - i,
    {
        let row = ritem_cell(&cell.children[i]);
        proof {
            lemma_join_next(rows, row_separator(), i + 1);
            assert(rows[i + 1] == row@);
        }
        cells.append("\n        ");
        cells.append(row.as_str());
        i += 1;
    }
    assert(rows.take(i + 1) =~= rows);
    let mut text = String::from_str(
        "\n        <TR><TD>\n        <TABLE BORDER=\"1\" CELLBORDER=\"0\" ROWS=\"*\">\n        ",
    );
    text.append(cells.as_str());
    text.append("\n        </TABLE>\n        </TD></TR>\n        ");
    text
}

/// The node of `node`: a header row with the title, then the bordered table
/// of each section.
pub fn module_node(node: &TableNode) -> (text: String)
    ensures
        text@ == node_text(node@),
{
    let ghost parts = section_texts(node@.sections);
    let mut groups = String::new();
    let mut i: usize = 0;
    assert(parts.take(0) =~= Seq::<Seq<char>>::empty());
    while i < node.sections.len()
        invariant
            i <= node.sections@.len(),
            parts == section_texts(node@.sections),
            parts.len() == node.sections@.len(),
            groups@ == join(parts.take(i as int), line_separator()),
        decreases node.sections@.len() - i,
    {
        let group = ritem_table(&node.sections[i]);
        proof {
            lemma_join_next(parts, line_separator(), i as int);
            assert(parts[i as int] == group@);
        }
        if i > 0 {
            groups.append("\n");
        }
        groups.append(group.as_str());
        assert(groups@ =~= join(parts.take(i + 1), line_separator()));
        i += 1;
    }
    assert(parts.take(i as int) =~= parts);
    let mut text = String::from_str("\n    \"");
    push_escaped(&mut text, Escape::Quoted, node.id.as_str());
    text.append("\" [label=<\n        <TABLE BORDER=\"0\" CELLBORDER=\"0\">\n        ");
    text.append("<TR><TD WIDTH=\"230\" BORDER=\"0\"><FONT POINT-SIZE=\"12\">");
    push_escaped(&mut text, Escape::Html, node.title.as_str());
    text.append("</FONT></TD></TR>");
    text.append("\n        ");
    text.append(groups.as_str());
    text.append("\n        <TR><TD BORDER=\"0\"></TD></TR>\n        </TABLE>\n    >]\n        ");
    assert(text@ =~= node_text(node@));
    text
}

/// The whole graph of `nodes`, in the dot language: one node per table, in
/// order.
pub fn modules_graph(nodes: &Vec<TableNode>) -> (text: String)
    ensures
        text@ == graph_text(table_views(nodes@)),
{
    let ghost parts = node_texts(table_views(nodes@));
    let mut body = String::new();
    let mut i: usize = 0;
    assert(parts.take(0) =~= Seq::<Seq<char>>::empty());
    while i < nodes.len()
        invariant
            i <= nodes@.len(),
            parts == node_texts(table_views(nodes@)),
            parts.len() == nodes@.len(),
            body@ == join(parts.take(i as int), line_separator()),
        decreases nodes@.len() - i,
    {
        let node = module_node(&nodes[i]);
        proof {
            lemma_join_next(parts, line_separator(), i as int);
            assert(parts[i as int] == node@);
        }
        if i > 0 {
            body.append("\n");
        }
        body.append(node.as_str());
        assert(body@ =~= join(parts.take(i + 1), line_separator()));
        i += 1;
    }
    assert(parts.take(i as int) =~= parts);
    let mut text = String::from_str(
        "\ndigraph graphviz {\n    graph [\n        rankdir = \"LR\"\n        ranksep = 2.0\n    ];\n    node [\n        fontsize = \"16\"\n        fontname = \"helvetica, open-sans\"\n        shape = \"plaintext\"\n        style = \"rounded, filled\"\n    ];\n\n    ",
    );
    text.append(body.as_str());
    text.append("\n}\n        ");
    text
}

} // verus!
