//! The graph as tables of cells: one table per file, one cell per item, a
//! container's members as the rows below it.

use vstd::prelude::*;
use vstd::string::*;
use crate::analysis::{
    file_items, is_member, is_top, item_of, lemma_items_in_source_order,
    lemma_members_in_source_order, member_indices_from, top_indices_from,
};
use crate::file_structure::{MemberView, Module, ModuleView, RItem, RItemType, RItemView};
use crate::symbol::SymbolView;
use crate::lang::{spec_symbol_kind, spec_symbol_style, symbol_kind, Language, Style};
use crate::text::{decimal, decimal_string, lemma_decimal_digits, lemma_decimal_injective};

verus! {

/// One row of a table. `id` names the row in the whole graph, `port` within
/// its table.
#[derive(Debug, PartialEq, Eq)]
pub struct Cell {
    pub id: String,
    pub port: String,
    pub styles: Vec<Style>,
    pub title: String,
    pub children: Vec<Cell>,
}

/// A row without rows below it, as plain mathematical data.
pub struct RowView {
    pub id: Seq<char>,
    pub port: Seq<char>,
    pub styles: Seq<Style>,
    pub title: Seq<char>,
}

/// A top-level cell as plain mathematical data.
pub struct CellView {
    pub id: Seq<char>,
    pub port: Seq<char>,
    pub styles: Seq<Style>,
    pub title: Seq<char>,
    pub children: Seq<RowView>,
}

/// The rows that a list of cells stands for.
pub open spec fn row_views(cells: Seq<Cell>) -> Seq<RowView> {
    cells.map_values(|c: Cell| c.row_view())
}

/// The top-level cells that a list of cells stands for.
pub open spec fn cell_views(cells: Seq<Cell>) -> Seq<CellView> {
    cells.map_values(|c: Cell| c@)
}

impl View for Cell {
    type V = CellView;

    open spec fn view(&self) -> CellView {
        CellView {
            id: self.id@,
            port: self.port@,
            styles: self.styles@,
            title: self.title@,
            children: row_views(self.children@),
        }
    }
}

impl Cell {
    /// This cell as a single row: the cells below it left aside.
    pub open spec fn row_view(&self) -> RowView {
        RowView { id: self.id@, port: self.port@, styles: self.styles@, title: self.title@ }
    }

    /// Whether nothing stands below this cell.
    pub open spec fn is_leaf(&self) -> bool {
        self.children@.len() == 0
    }

    /// Whether the nesting under this cell is one level deep at most.
    pub open spec fn wf(&self) -> bool {
        forall|i: int| 0 <= i < self.children@.len() ==> (#[trigger] self.children@[i]).is_leaf()
    }
}

/// The table of one file.
#[derive(Debug, PartialEq, Eq)]
pub struct TableNode {
    pub id: String,
    pub title: String,
    pub sections: Vec<Cell>,
}

/// A table as plain mathematical data.
pub struct TableNodeView {
    pub id: Seq<char>,
    pub title: Seq<char>,
    pub sections: Seq<CellView>,
}

impl View for TableNode {
    type V = TableNodeView;

    open spec fn view(&self) -> TableNodeView {
        TableNodeView { id: self.id@, title: self.title@, sections: cell_views(self.sections@) }
    }
}

impl TableNode {
    /// Whether the nesting under every section is one level deep at most.
    pub open spec fn wf(&self) -> bool {
        forall|i: int| 0 <= i < self.sections@.len() ==> (#[trigger] self.sections@[i]).wf()
    }
}

/// The tables that a list of tables stands for.
pub open spec fn table_views(tables: Seq<TableNode>) -> Seq<TableNodeView> {
    tables.map_values(|t: TableNode| t@)
}

/// The anchor of a row within its table: the offset of the item, in decimal.
pub open spec fn port_of(offset: u32) -> Seq<char> {
    decimal(offset as nat)
}

/// The anchor of a row within the graph: the file's id, a colon, the port.
pub open spec fn anchor_of(file_id: u32, offset: u32) -> Seq<char> {
    decimal(file_id as nat) + seq![':'] + port_of(offset)
}

/// The row that shows a member of a container in the file `file_id`.
pub open spec fn row_of(file_id: u32, m: MemberView) -> RowView {
    RowView {
        id: anchor_of(file_id, m.pos.offset),
        port: port_of(m.pos.offset),
        styles: spec_symbol_style(spec_symbol_kind(m.ty)),
        title: m.ident,
    }
}

/// The cell that shows a top-level item of the file `file_id`, with one row
/// for each of its members.
pub open spec fn cell_of(file_id: u32, item: RItemView) -> CellView {
    CellView {
        id: anchor_of(file_id, item.pos.offset),
        port: port_of(item.pos.offset),
        styles: spec_symbol_style(spec_symbol_kind(item.ty)),
        title: item.ident,
        children: match item.children {
            Some(members) => members.map_values(|m: MemberView| row_of(file_id, m)),
            None => Seq::empty(),
        },
    }
}

/// Where the last component of a path begins: behind its last `/`, or at its
/// start where it holds none.
pub open spec fn base_name_start(path: Seq<char>) -> int
    decreases path.len(),
{
    if path.len() == 0 {
        0
    } else if path.last() == '/' {
        path.len() as int
    } else {
        base_name_start(path.drop_last())
    }
}

/// The last component of a path: what follows its last `/`.
pub open spec fn base_name(path: Seq<char>) -> Seq<char> {
    path.subrange(base_name_start(path), path.len() as int)
}

/// The table that shows a file.
pub open spec fn table_of(file: ModuleView) -> TableNodeView {
    TableNodeView {
        id: decimal(file.file_id as nat),
        title: base_name(file.path),
        sections: file.items.map_values(|item: RItemView| cell_of(file.file_id, item)),
    }
}

/// Whether `(s, r)` names a row of a file's table: `s` is a section, and `r`
/// is 0 for the section's own row or the number of one of its members,
/// counted from 1.
pub open spec fn is_row(items: Seq<RItemView>, s: int, r: int) -> bool {
    &&& 0 <= s < items.len()
    &&& 0 <= r
    &&& r > 0 ==> items[s].children is Some && r <= items[s].children.unwrap().len()
}

/// The offset of the item that the row `(s, r)` shows.
pub open spec fn row_offset(items: Seq<RItemView>, s: int, r: int) -> u32 {
    if r == 0 {
        items[s].pos.offset
    } else {
        items[s].children.unwrap()[r - 1].pos.offset
    }
}

/// The anchor, in the graph, of the row `(s, r)` of a table.
pub open spec fn row_anchor(table: TableNodeView, s: int, r: int) -> Seq<char> {
    if r == 0 {
        table.sections[s].id
    } else {
        table.sections[s].children[r - 1].id
    }
}

/// Whether no two rows of a file show items at the same offset.
pub open spec fn distinct_offsets(items: Seq<RItemView>) -> bool {
    forall|s1: int, r1: int, s2: int, r2: int|
        is_row(items, s1, r1) && is_row(items, s2, r2) && #[trigger] row_offset(items, s1, r1)
            == #[trigger] row_offset(items, s2, r2) ==> s1 == s2 && r1 == r2
}

/// Whether no two files of the list have the same id.
pub open spec fn distinct_file_ids(files: Seq<ModuleView>) -> bool {
    forall|a: int, b: int|
        0 <= a < b < files.len() ==> (#[trigger] files[a]).file_id != (#[trigger] files[b]).file_id
}

/// An anchor names one place only: equal anchors come from the same file id
/// and the same offset.
pub proof fn lemma_anchor_injective(f1: u32, o1: u32, f2: u32, o2: u32)
    requires
        anchor_of(f1, o1) == anchor_of(f2, o2),
    ensures
        f1 == f2,
        o1 == o2,
{
    let a = decimal(f1 as nat);
    let b = decimal(o1 as nat);
    let c = decimal(f2 as nat);
    let d = decimal(o2 as nat);
    lemma_decimal_digits(f1 as nat);
    lemma_decimal_digits(o1 as nat);
    lemma_decimal_digits(f2 as nat);
    lemma_decimal_digits(o2 as nat);
    let s = anchor_of(f1, o1);
    let t = anchor_of(f2, o2);
    assert(s.len() == a.len() + 1 + b.len());
    assert(t.len() == c.len() + 1 + d.len());
    if a.len() < c.len() {
        assert(s[a.len() as int] == ':');
        assert(t[a.len() as int] == c[a.len() as int]);
        assert(false);
    }
    if c.len() < a.len() {
        assert(t[c.len() as int] == ':');
        assert(s[c.len() as int] == a[c.len() as int]);
        assert(false);
    }
    assert forall|i: int| 0 <= i < a.len() implies a[i] == c[i] by {
        assert(s[i] == a[i]);
        assert(t[i] == c[i]);
    }
    assert(a =~= c);
    assert forall|i: int| 0 <= i < b.len() implies b[i] == d[i] by {
        assert(s[a.len() + 1 + i] == b[i]);
        assert(t[c.len() + 1 + i] == d[i]);
    }
    assert(b =~= d);
    lemma_decimal_injective(f1 as nat, f2 as nat);
    lemma_decimal_injective(o1 as nat, o2 as nat);
}

/// A port names one offset only: within a table, rows that show different
/// offsets have different ports.
pub proof fn lemma_port_injective(o1: u32, o2: u32)
    requires
        port_of(o1) == port_of(o2),
    ensures
        o1 == o2,
{
    lemma_decimal_injective(o1 as nat, o2 as nat);
}

/// The anchor of a row is made of the id of its file and the offset of the
/// item that it shows.
pub proof fn lemma_row_anchor(file: ModuleView, s: int, r: int)
    requires
        is_row(file.items, s, r),
    ensures
        row_anchor(table_of(file), s, r) == anchor_of(file.file_id, row_offset(file.items, s, r)),
{
}

/// No anchor is used twice in a graph: where no two files share an id and no
/// two rows of a file share an offset, two rows with the same anchor are the
/// same row of the same table.
pub proof fn lemma_anchors_unique(
    files: Seq<ModuleView>,
    t1: int,
    s1: int,
    r1: int,
    t2: int,
    s2: int,
    r2: int,
)
    requires
        distinct_file_ids(files),
        forall|t: int| 0 <= t < files.len() ==> distinct_offsets((#[trigger] files[t]).items),
        0 <= t1 < files.len(),
        0 <= t2 < files.len(),
        is_row(files[t1].items, s1, r1),
        is_row(files[t2].items, s2, r2),
        row_anchor(table_of(files[t1]), s1, r1) == row_anchor(table_of(files[t2]), s2, r2),
    ensures
        t1 == t2,
        s1 == s2,
        r1 == r2,
{
    lemma_row_anchor(files[t1], s1, r1);
    lemma_row_anchor(files[t2], s2, r2);
    lemma_anchor_injective(
        files[t1].file_id,
        row_offset(files[t1].items, s1, r1),
        files[t2].file_id,
        row_offset(files[t2].items, s2, r2),
    );
    if t1 < t2 {
        assert(files[t1].file_id != files[t2].file_id);
    }
    if t2 < t1 {
        assert(files[t2].file_id != files[t1].file_id);
    }
    assert(distinct_offsets(files[t1].items));
}

/// Whether no two symbols of a file stand at the same offset.
pub open spec fn distinct_symbol_offsets(symbols: Seq<SymbolView>) -> bool {
    forall|i: int, j: int|
        0 <= i < j < symbols.len() ==> (#[trigger] symbols[i]).offset != (
        #[trigger] symbols[j]).offset
}

/// The position of the symbol that the row `(s, r)` of a file's table shows.
pub open spec fn row_source(symbols: Seq<SymbolView>, lang: Language, s: int, r: int) -> int {
    let top = top_indices_from(symbols, lang, 0)[s];
    if r == 0 {
        top
    } else {
        member_indices_from(symbols, lang, top, 0)[r - 1]
    }
}

/// A row shows one symbol of the file: a section's own row a top-level
/// symbol, any other row a member of that symbol.
pub proof fn lemma_row_source(
    symbols: Seq<SymbolView>,
    lang: Language,
    file_id: u32,
    s: int,
    r: int,
)
    requires
        is_row(file_items(symbols, lang, file_id), s, r),
    ensures
        ({
            let src = row_source(symbols, lang, s, r);
            let top = top_indices_from(symbols, lang, 0)[s];
            &&& 0 <= s < top_indices_from(symbols, lang, 0).len()
            &&& 0 <= src < symbols.len()
            &&& row_offset(file_items(symbols, lang, file_id), s, r) == symbols[src].offset
            &&& r == 0 ==> src == top && is_top(symbols, lang, src)
            &&& r > 0 ==> is_member(symbols, lang, top, src) && r - 1 < member_indices_from(
                symbols,
                lang,
                top,
                0,
            ).len()
        }),
{
    lemma_items_in_source_order(symbols, lang, file_id, 0);
    let top = top_indices_from(symbols, lang, 0)[s];
    lemma_members_in_source_order(symbols, lang, file_id, top, 0);
    if r > 0 {
        let idx = member_indices_from(symbols, lang, top, 0);
        assert(is_member(symbols, lang, top, idx[r - 1]));
    }
}

/// Where no two symbols of a file stand at the same offset, no two rows of
/// its table show the same offset.
pub proof fn lemma_offsets_stay_distinct(symbols: Seq<SymbolView>, lang: Language, file_id: u32)
    requires
        distinct_symbol_offsets(symbols),
    ensures
        distinct_offsets(file_items(symbols, lang, file_id)),
{
    let items = file_items(symbols, lang, file_id);
    let tops = top_indices_from(symbols, lang, 0);
    lemma_items_in_source_order(symbols, lang, file_id, 0);
    assert forall|s1: int, r1: int, s2: int, r2: int|
        is_row(items, s1, r1) && is_row(items, s2, r2) && #[trigger] row_offset(items, s1, r1)
            == #[trigger] row_offset(items, s2, r2) implies s1 == s2 && r1 == r2 by {
        lemma_row_source(symbols, lang, file_id, s1, r1);
        lemma_row_source(symbols, lang, file_id, s2, r2);
        let a = row_source(symbols, lang, s1, r1);
        let b = row_source(symbols, lang, s2, r2);
        if a < b {
            assert(symbols[a].offset != symbols[b].offset);
        }
        if b < a {
            assert(symbols[b].offset != symbols[a].offset);
        }
        assert(a == b);
        if s1 < s2 {
            assert(tops[s1] < tops[s2]);
        }
        if s2 < s1 {
            assert(tops[s2] < tops[s1]);
        }
        assert(s1 == s2);
        if r1 > 0 && r2 > 0 {
            let idx = member_indices_from(symbols, lang, tops[s1], 0);
            lemma_members_in_source_order(symbols, lang, file_id, tops[s1], 0);
            if r1 < r2 {
                assert(idx[r1 - 1] < idx[r2 - 1]);
            }
            if r2 < r1 {
                assert(idx[r2 - 1] < idx[r1 - 1]);
            }
        }
    }
}

/// A container and its members become one cell: the cell's title is the
/// container's name, it has one row below it for each symbol that is a member
/// of the container, in order, and each row's title is that symbol's name.
pub proof fn lemma_container_rows(
    symbols: Seq<SymbolView>,
    lang: Language,
    file_id: u32,
    k: int,
)
    requires
        0 <= k < symbols.len(),
        is_top(symbols, lang, k),
        lang.item_type(symbols[k].kind) == Some(RItemType::Impl),
    ensures
        ({
            let cell = cell_of(file_id, item_of(symbols, lang, file_id, k));
            let idx = member_indices_from(symbols, lang, k, 0);
            &&& cell.title == symbols[k].name
            &&& cell.children.len() == idx.len()
            &&& forall|i: int|
                0 <= i < idx.len() ==> (#[trigger] cell.children[i]).title == symbols[idx[i]].name
        }),
{
    lemma_members_in_source_order(symbols, lang, file_id, k, 0);
}

/// The start of a path's last component lies within the path, and no `/`
/// follows it.
pub proof fn lemma_base_name_start(path: Seq<char>)
    ensures
        0 <= base_name_start(path) <= path.len(),
        base_name_start(path) > 0 ==> path[base_name_start(path) - 1] == '/',
        forall|i: int| base_name_start(path) <= i < path.len() ==> path[i] != '/',
    decreases path.len(),
{
    if path.len() > 0 && path.last() != '/' {
        let shorter = path.drop_last();
        lemma_base_name_start(shorter);
        assert forall|i: int| base_name_start(path) <= i < path.len() implies path[i] != '/' by {
            if i < shorter.len() {
                assert(path[i] == shorter[i]);
            }
        }
        if base_name_start(path) > 0 {
            assert(path[base_name_start(path) - 1] == shorter[base_name_start(path) - 1]);
        }
    }
}

/// The last component of `path`: what follows its last `/`.
pub fn file_name(path: &str) -> (name: String)
    ensures
        name@ == base_name(path@),
{
    let n = path.unicode_len();
    let mut start: usize = 0;
    let mut i: usize = 0;
    while i < n
        invariant
            n == path@.len(),
            i <= n,
            start == base_name_start(path@.take(i as int)),
            start <= i,
        decreases n - i,
    {
        let c = path.get_char(i);
        proof {
            assert(path@.take(i + 1).drop_last() =~= path@.take(i as int));
            assert(path@.take(i + 1).last() == c);
        }
        if c == '/' {
            start = i + 1;
        }
        i += 1;
    }
    assert(path@.take(n as int) =~= path@);
    String::from_str(path.substring_char(start, n))
}

fn leaf_cell(lang: Language, file_id: u32, item: &RItem) -> (cell: Cell)
    ensures
        cell.row_view() == row_of(file_id, item.member_view()),
        cell.is_leaf(),
{
    let port = decimal_string(item.pos.offset);
    let mut id = decimal_string(file_id);
    id.append(":");
    id.append(port.as_str());
    proof {
        reveal_strlit(":");
        assert(":"@ =~= seq![':']);
    }
    Cell {
        id,
        port,
        styles: lang.symbol_style(symbol_kind(item.ty)),
        title: item.ident.clone(),
        children: Vec::new(),
    }
}

impl Language {
    /// The cell that shows `item` in the table of the file `file_id`: its
    /// title is the item's name, its anchors come from the item's offset, and
    /// each member of the item gets a row of its own, in order.
    pub fn symbol_repr(&self, file_id: u32, item: &RItem) -> (cell: Cell)
        ensures
            cell@ == cell_of(file_id, item@),
            cell.wf(),
    {
        let mut cell = leaf_cell(*self, file_id, item);
        match &item.children {
            Some(members) => {
                let mut rows: Vec<Cell> = Vec::new();
                let mut i: usize = 0;
                while i < members.len()
                    invariant
                        i <= members@.len(),
                        rows@.len() == i,
                        forall|j: int|
                            0 <= j < i ==> (#[trigger] rows@[j]).row_view() == row_of(
                                file_id,
                                members@[j].member_view(),
                            ),
                        forall|j: int| 0 <= j < i ==> (#[trigger] rows@[j]).is_leaf(),
                    decreases members@.len() - i,
                {
                    let row = leaf_cell(*self, file_id, &members[i]);
                    rows.push(row);
                    i += 1;
                }
                cell.children = rows;
                assert(cell@.children =~= cell_of(file_id, item@).children);
            },
            None => {
                assert(cell@.children =~= cell_of(file_id, item@).children);
            },
        }
        cell
    }

    /// The table that shows `file`: its id is the file's id in decimal, its
    /// title the last component of the file's path, and it has one section
    /// for each item, in order.
    pub fn file_repr(&self, file: &Module) -> (node: TableNode)
        requires
            base_name(file.path@).len() > 0,
        ensures
            node@ == table_of(file@),
            node.wf(),
    {
        let mut sections: Vec<Cell> = Vec::new();
        let mut i: usize = 0;
        while i < file.items.len()
            invariant
                i <= file.items@.len(),
                sections@.len() == i,
                forall|j: int|
                    0 <= j < i ==> (#[trigger] sections@[j])@ == cell_of(
                        file.file_id,
                        file.items@[j]@,
                    ),
                forall|j: int| 0 <= j < i ==> (#[trigger] sections@[j]).wf(),
            decreases file.items@.len() - i,
        {
            let cell = self.symbol_repr(file.file_id, &file.items[i]);
            sections.push(cell);
            i += 1;
        }
        let node = TableNode {
            id: decimal_string(file.file_id),
            title: file_name(file.path.as_str()),
            sections,
        };
        assert(node@.sections =~= table_of(file@).sections);
        node
    }
}

} // verus!
