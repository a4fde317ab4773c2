//! Rebuilding a file's structure from the flat list of its symbols.

use vstd::prelude::*;
use vstd::string::*;
use crate::file_structure::{
    item_views, items_wf, member_views, FilePosition, MemberView, Module, ModuleView, RItem,
    RItemType, RItemView,
};
use crate::lang::Language;
use crate::symbol::{parents_precede, symbol_views, Symbol, SymbolView};

verus! {

/// Whether symbol `j` becomes a member of the container at position `k`: it
/// names `k` as its parent and its kind stands for an item.
pub open spec fn is_member(symbols: Seq<SymbolView>, lang: Language, k: int, j: int) -> bool {
    &&& symbols[j].parent matches Some(p) && p == k
    &&& lang.item_type(symbols[j].kind) is Some
}

/// Whether symbol `k` becomes a top-level item: it has no parent and its kind
/// stands for an item.
pub open spec fn is_top(symbols: Seq<SymbolView>, lang: Language, k: int) -> bool {
    symbols[k].parent is None && lang.item_type(symbols[k].kind) is Some
}

/// The member that symbol `j` becomes.
pub open spec fn member_of(symbols: Seq<SymbolView>, lang: Language, file_id: u32, j: int)
    -> MemberView {
    MemberView {
        ident: symbols[j].name,
        ty: lang.item_type(symbols[j].kind).unwrap(),
        pos: FilePosition { file_id, offset: symbols[j].offset },
    }
}

/// The members of the container at position `k` that stand at position `lo`
/// or later, in source order.
pub open spec fn members_from(
    symbols: Seq<SymbolView>,
    lang: Language,
    file_id: u32,
    k: int,
    lo: int,
) -> Seq<MemberView>
    decreases symbols.len() - lo,
{
    if lo < 0 || lo >= symbols.len() {
        Seq::empty()
    } else if is_member(symbols, lang, k, lo) {
        seq![member_of(symbols, lang, file_id, lo)] + members_from(
            symbols,
            lang,
            file_id,
            k,
            lo + 1,
        )
    } else {
        members_from(symbols, lang, file_id, k, lo + 1)
    }
}

/// The top-level item that symbol `k` becomes: a container takes all its
/// members, any other item has no list of children.
pub open spec fn item_of(symbols: Seq<SymbolView>, lang: Language, file_id: u32, k: int)
    -> RItemView {
    let ty = lang.item_type(symbols[k].kind).unwrap();
    RItemView {
        ident: symbols[k].name,
        ty,
        pos: FilePosition { file_id, offset: symbols[k].offset },
        children: if ty == RItemType::Impl {
            Some(members_from(symbols, lang, file_id, k, 0))
        } else {
            None
        },
    }
}

/// The top-level items of the symbols at position `lo` or later, in source
/// order.
pub open spec fn items_from(symbols: Seq<SymbolView>, lang: Language, file_id: u32, lo: int)
    -> Seq<RItemView>
    decreases symbols.len() - lo,
{
    if lo < 0 || lo >= symbols.len() {
        Seq::empty()
    } else if is_top(symbols, lang, lo) {
        seq![item_of(symbols, lang, file_id, lo)] + items_from(symbols, lang, file_id, lo + 1)
    } else {
        items_from(symbols, lang, file_id, lo + 1)
    }
}

/// The structure of a file: the top-level items of all its symbols.
pub open spec fn file_items(symbols: Seq<SymbolView>, lang: Language, file_id: u32) -> Seq<
    RItemView,
> {
    items_from(symbols, lang, file_id, 0)
}

/// The positions, in rising order from `lo` on, of the symbols that become
/// members of the container at position `k`.
pub open spec fn member_indices_from(symbols: Seq<SymbolView>, lang: Language, k: int, lo: int)
    -> Seq<int>
    decreases symbols.len() - lo,
{
    if lo < 0 || lo >= symbols.len() {
        Seq::empty()
    } else if is_member(symbols, lang, k, lo) {
        seq![lo] + member_indices_from(symbols, lang, k, lo + 1)
    } else {
        member_indices_from(symbols, lang, k, lo + 1)
    }
}

/// The positions, in rising order from `lo` on, of the symbols that become
/// top-level items.
pub open spec fn top_indices_from(symbols: Seq<SymbolView>, lang: Language, lo: int) -> Seq<int>
    decreases symbols.len() - lo,
{
    if lo < 0 || lo >= symbols.len() {
        Seq::empty()
    } else if is_top(symbols, lang, lo) {
        seq![lo] + top_indices_from(symbols, lang, lo + 1)
    } else {
        top_indices_from(symbols, lang, lo + 1)
    }
}

/// The members of a container stand in the order of their symbols: member
/// `i` is made of the symbol at the `i`-th of the rising positions at which a
/// member of `k` stands, and every such position from `lo` on is among them.
pub proof fn lemma_members_in_source_order(
    symbols: Seq<SymbolView>,
    lang: Language,
    file_id: u32,
    k: int,
    lo: int,
)
    requires
        0 <= lo,
    ensures
        ({
            let idx = member_indices_from(symbols, lang, k, lo);
            let members = members_from(symbols, lang, file_id, k, lo);
            &&& idx.len() == members.len()
            &&& forall|i: int|
                0 <= i < idx.len() ==> {
                    &&& lo <= #[trigger] idx[i] < symbols.len()
                    &&& is_member(symbols, lang, k, idx[i])
                    &&& members[i] == member_of(symbols, lang, file_id, idx[i])
                }
            &&& forall|i: int, j: int| 0 <= i < j < idx.len() ==> idx[i] < idx[j]
            &&& forall|j: int|
                lo <= j < symbols.len() && is_member(symbols, lang, k, j) ==> idx.contains(j)
        }),
    decreases symbols.len() - lo,
{
    if lo < symbols.len() {
        lemma_members_in_source_order(symbols, lang, file_id, k, lo + 1);
        let idx = member_indices_from(symbols, lang, k, lo);
        let rest = member_indices_from(symbols, lang, k, lo + 1);
        if is_member(symbols, lang, k, lo) {
            assert(idx[0] == lo);
            assert forall|i: int| 0 < i < idx.len() implies idx[i] == rest[i - 1] by {}
            assert forall|j: int|
                lo <= j < symbols.len() && is_member(symbols, lang, k, j) implies idx.contains(
                j,
            ) by {
                if j > lo {
                    assert(rest.contains(j));
                    let i = choose|i: int| 0 <= i < rest.len() && rest[i] == j;
                    assert(idx[i + 1] == j);
                }
            }
            assert forall|i: int, j: int| 0 <= i < j < idx.len() implies idx[i] < idx[j] by {
                assert(idx[j] == rest[j - 1]);
                if i > 0 {
                    assert(idx[i] == rest[i - 1]);
                }
            }
        }
    }
}

/// The top-level items stand in the order of their symbols: item `i` is made
/// of the symbol at the `i`-th of the rising positions at which a top-level
/// item stands, and every such position from `lo` on is among them.
pub proof fn lemma_items_in_source_order(
    symbols: Seq<SymbolView>,
    lang: Language,
    file_id: u32,
    lo: int,
)
    requires
        0 <= lo,
    ensures
        ({
            let idx = top_indices_from(symbols, lang, lo);
            let items = items_from(symbols, lang, file_id, lo);
            &&& idx.len() == items.len()
            &&& forall|i: int|
                0 <= i < idx.len() ==> {
                    &&& lo <= #[trigger] idx[i] < symbols.len()
                    &&& is_top(symbols, lang, idx[i])
                    &&& items[i] == item_of(symbols, lang, file_id, idx[i])
                }
            &&& forall|i: int, j: int| 0 <= i < j < idx.len() ==> idx[i] < idx[j]
            &&& forall|j: int|
                lo <= j < symbols.len() && is_top(symbols, lang, j) ==> idx.contains(j)
        }),
    decreases symbols.len() - lo,
{
    if lo < symbols.len() {
        lemma_items_in_source_order(symbols, lang, file_id, lo + 1);
        let idx = top_indices_from(symbols, lang, lo);
        let rest = top_indices_from(symbols, lang, lo + 1);
        if is_top(symbols, lang, lo) {
            assert(idx[0] == lo);
            assert forall|i: int| 0 < i < idx.len() implies idx[i] == rest[i - 1] by {}
            assert forall|j: int|
                lo <= j < symbols.len() && is_top(symbols, lang, j) implies idx.contains(j) by {
                if j > lo {
                    assert(rest.contains(j));
                    let i = choose|i: int| 0 <= i < rest.len() && rest[i] == j;
                    assert(idx[i + 1] == j);
                }
            }
            assert forall|i: int, j: int| 0 <= i < j < idx.len() implies idx[i] < idx[j] by {
                assert(idx[j] == rest[j - 1]);
                if i > 0 {
                    assert(idx[i] == rest[i - 1]);
                }
            }
        }
    }
}

/// A symbol whose kind the language drops is the source of no item: it
/// stands at none of the positions that the top-level items are made of, nor
/// at one that the members of any container are made of, whatever parent it
/// names.
pub proof fn lemma_dropped_kinds_absent(
    symbols: Seq<SymbolView>,
    lang: Language,
    file_id: u32,
    j: int,
    k: int,
)
    requires
        0 <= j < symbols.len(),
        !lang.retains(symbols[j].kind) || crate::lang::spec_item_type(symbols[j].kind) is None,
    ensures
        !top_indices_from(symbols, lang, 0).contains(j),
        !member_indices_from(symbols, lang, k, 0).contains(j),
{
    lemma_items_in_source_order(symbols, lang, file_id, 0);
    lemma_members_in_source_order(symbols, lang, file_id, k, 0);
}

/// A symbol whose parent reference does not point at an earlier symbol.
#[derive(Clone, Copy, Debug, PartialEq, Eq, Structural)]
pub struct BadParent {
    /// The position of the symbol.
    pub symbol: usize,
    /// The parent that it names.
    pub parent: usize,
}

/// Whether `symbol` is the first position whose parent reference does not
/// point at an earlier symbol, and `parent` what it names.
pub open spec fn first_bad_parent(symbols: Seq<SymbolView>, bad: BadParent) -> bool {
    &&& bad.symbol < symbols.len()
    &&& symbols[bad.symbol as int].parent == Some(bad.parent)
    &&& bad.parent >= bad.symbol
    &&& parents_precede(symbols.take(bad.symbol as int))
}

/// Turns one symbol into an item, or into nothing where the language drops
/// its kind. A container takes `children` as its members (none given: an
/// empty list); any other item has no list of children.
pub fn structure_node_to_ritem(
    lang: Language,
    node: &Symbol,
    children: Option<Vec<RItem>>,
    file_id: u32,
) -> (res: Option<RItem>)
    requires
        children matches Some(v) ==> forall|j: int| 0 <= j < v@.len() ==> (#[trigger] v@[j]).is_leaf(),
    ensures
        res is Some <==> lang.item_type(node.kind) is Some,
        res matches Some(item) ==> {
            &&& item.ident@ == node.name@
            &&& Some(item.ty) == lang.item_type(node.kind)
            &&& item.pos == (FilePosition { file_id, offset: node.offset })
            &&& item.ty != RItemType::Impl ==> item.children is None
            &&& item.ty == RItemType::Impl ==> (item.children matches Some(kept) && kept@ == (
            match children {
                Some(v) => v@,
                None => Seq::empty(),
            }))
            &&& item.wf()
            &&& children is None ==> item.is_leaf()
        },
{
    match lang.item_type_of(node.kind) {
        None => None,
        Some(ty) => {
            let pos = FilePosition { file_id, offset: node.offset };
            let children = match ty {
                RItemType::Impl => Some(
                    match children {
                        Some(v) => v,
                        None => Vec::new(),
                    },
                ),
                _ => None,
            };
            Some(RItem { ident: node.name.clone(), ty, pos, children })
        },
    }
}

/// The items of `v` in the opposite order.
fn reverse_items(v: Vec<RItem>) -> (out: Vec<RItem>)
    ensures
        out@ == v@.reverse(),
{
    let ghost orig = v@;
    let mut rest = v;
    let mut out: Vec<RItem> = Vec::new();
    while rest.len() > 0
        invariant
            rest@ == orig.take(rest@.len() as int),
            rest@.len() + out@.len() == orig.len(),
            forall|j: int| 0 <= j < out@.len() ==> out@[j] == orig[orig.len() - 1 - j],
        decreases rest@.len(),
    {
        let item = rest.pop().unwrap();
        out.push(item);
        assert(rest@ =~= orig.take(rest@.len() as int));
    }
    assert(out@ =~= orig.reverse());
    out
}

/// Looks for the first symbol whose parent reference does not point at an
/// earlier symbol.
pub fn check_parents(symbols: &Vec<Symbol>) -> (res: Result<(), BadParent>)
    ensures
        res is Ok <==> parents_precede(symbol_views(symbols@)),
        res matches Err(bad) ==> first_bad_parent(symbol_views(symbols@), bad),
{
    let ghost sv = symbol_views(symbols@);
    let mut k: usize = 0;
    while k < symbols.len()
        invariant
            k <= symbols.len(),
            sv == symbol_views(symbols@),
            parents_precede(sv.take(k as int)),
        decreases symbols.len() - k,
    {
        match symbols[k].parent {
            Some(p) => {
                if p >= k {
                    assert(sv[k as int].parent == Some(p));
                    return Err(BadParent { symbol: k, parent: p });
                }
            },
            None => {},
        }
        assert forall|j: int| 0 <= j < k + 1 implies match (#[trigger] sv.take(k + 1)[j]).parent {
            Some(p) => p < j,
            None => true,
        } by {
            if j < k {
                assert(sv.take(k + 1)[j] == sv.take(k as int)[j]);
            }
        }
        k += 1;
    }
    assert(sv.take(k as int) =~= sv);
    Ok(())
}

/// With every parent before its child, no symbol at position `k` or before
/// is a member of `k`: the members of `k` all stand after it.
proof fn lemma_members_before(
    symbols: Seq<SymbolView>,
    lang: Language,
    file_id: u32,
    k: int,
    lo: int,
)
    requires
        parents_precede(symbols),
        0 <= lo <= k + 1,
        k < symbols.len(),
    ensures
        members_from(symbols, lang, file_id, k, lo) == members_from(
            symbols,
            lang,
            file_id,
            k,
            k + 1,
        ),
    decreases k + 1 - lo,
{
    if lo <= k {
        lemma_members_before(symbols, lang, file_id, k, lo + 1);
        assert(!is_member(symbols, lang, k, lo)) by {
            let _ = symbols[lo];
        }
    }
}

/// Rebuilds the structure of a file from the flat list of its symbols.
///
/// The symbols are taken from the last to the first: each is put at the end
/// of its parent's list, or of the top-level list, and each list is turned
/// round once when it is complete. A symbol that names a parent which does not
/// stand before it makes the whole list unusable, and is reported.
pub fn module_ritems(lang: Language, symbols: &Vec<Symbol>, file_id: u32) -> (res: Result<
    Vec<RItem>,
    BadParent,
>)
    ensures
        res is Ok <==> parents_precede(symbol_views(symbols@)),
        res matches Ok(items) ==> item_views(items@) == file_items(
            symbol_views(symbols@),
            lang,
            file_id,
        ) && items_wf(items@),
        res matches Err(bad) ==> first_bad_parent(symbol_views(symbols@), bad),
{
    match check_parents(symbols) {
        Err(bad) => {
            return Err(bad);
        },
        Ok(()) => {},
    }
    let ghost sv = symbol_views(symbols@);
    let n = symbols.len();
    let mut slots: Vec<Vec<RItem>> = Vec::new();
    let mut filled: usize = 0;
    while filled < n
        invariant
            filled <= n,
            slots@.len() == filled,
            forall|i: int| 0 <= i < filled ==> (#[trigger] slots@[i])@.len() == 0,
        decreases n - filled,
    {
        slots.push(Vec::new());
        filled += 1;
    }
    let mut top: Vec<RItem> = Vec::new();
    let mut idx: usize = n;
    assert(item_views(top@) =~= items_from(sv, lang, file_id, idx as int).reverse());
    assert forall|i: int| 0 <= i < idx implies member_views((#[trigger] slots@[i])@)
        == members_from(sv, lang, file_id, i, idx as int).reverse() by {
        assert(member_views(slots@[i]@) =~= members_from(sv, lang, file_id, i, idx as int).reverse());
    }
    while idx > 0
        invariant
            n == symbols@.len(),
            sv == symbol_views(symbols@),
            parents_precede(sv),
            idx <= n,
            slots@.len() == idx,
            forall|i: int|
                0 <= i < idx ==> member_views((#[trigger] slots@[i])@) == members_from(
                    sv,
                    lang,
                    file_id,
                    i,
                    idx as int,
                ).reverse(),
            forall|i: int, j: int|
                0 <= i < idx && 0 <= j < slots@[i]@.len() ==> (#[trigger] slots@[i]@[j]).is_leaf(),
            item_views(top@) == items_from(sv, lang, file_id, idx as int).reverse(),
            items_wf(top@),
        decreases idx,
    {
        let ghost before = slots@;
        let ghost top_before = top@;
        idx -= 1;
        let own = slots.pop().unwrap();
        let sym = &symbols[idx];
        assert(sv[idx as int] == sym@);
        match sym.parent {
            None => {
                let members = reverse_items(own);
                proof {
                    lemma_members_before(sv, lang, file_id, idx as int, 0);
                    assert(member_views(members@) =~= member_views(own@).reverse());
                    assert(member_views(members@) =~= members_from(
                        sv,
                        lang,
                        file_id,
                        idx as int,
                        idx + 1,
                    ));
                }
                match structure_node_to_ritem(lang, sym, Some(members), file_id) {
                    Some(item) => {
                        assert(item@ == item_of(sv, lang, file_id, idx as int));
                        top.push(item);
                        assert(item_views(top@) =~= item_views(top_before).push(item@));
                    },
                    None => {},
                }
                assert(item_views(top@) =~= items_from(sv, lang, file_id, idx as int).reverse());
                assert forall|i: int| 0 <= i < idx implies member_views((#[trigger] slots@[i])@)
                    == members_from(sv, lang, file_id, i, idx as int).reverse() by {
                    assert(slots@[i] == before[i]);
                    assert(!is_member(sv, lang, i, idx as int));
                }
            },
            Some(p) => {
                assert(p < idx);
                match structure_node_to_ritem(lang, sym, None, file_id) {
                    Some(item) => {
                        let ghost m = item.member_view();
                        assert(m == member_of(sv, lang, file_id, idx as int));
                        slots[p].push(item);
                        assert forall|i: int| 0 <= i < idx implies member_views(
                            (#[trigger] slots@[i])@,
                        ) == members_from(sv, lang, file_id, i, idx as int).reverse() by {
                            if i == p {
                                assert(is_member(sv, lang, i, idx as int));
                                assert(member_views(slots@[i]@) =~= member_views(before[i]@).push(
                                    m,
                                ));
                                assert(members_from(sv, lang, file_id, i, idx as int).reverse()
                                    =~= members_from(
                                    sv,
                                    lang,
                                    file_id,
                                    i,
                                    idx + 1,
                                ).reverse().push(m));
                            } else {
                                assert(slots@[i] == before[i]);
                                assert(!is_member(sv, lang, i, idx as int));
                            }
                        }
                    },
                    None => {
                        assert forall|i: int| 0 <= i < idx implies member_views(
                            (#[trigger] slots@[i])@,
                        ) == members_from(sv, lang, file_id, i, idx as int).reverse() by {
                            assert(slots@[i] == before[i]);
                            assert(!is_member(sv, lang, i, idx as int));
                        }
                    },
                }
                assert(!is_top(sv, lang, idx as int));
            },
        }
    }
    let items = reverse_items(top);
    assert(item_views(items@) =~= item_views(top@).reverse());
    assert(item_views(items@) =~= file_items(sv, lang, file_id));
    Ok(items)
}

/// One file as it comes from the provider: its path, its id and its symbols
/// in source order.
#[derive(Debug, PartialEq, Eq)]
pub struct SourceFile {
    pub path: String,
    pub file_id: u32,
    pub symbols: Vec<Symbol>,
}

/// A provider's file as plain mathematical data.
pub struct SourceFileView {
    pub path: Seq<char>,
    pub file_id: u32,
    pub symbols: Seq<SymbolView>,
}

impl View for SourceFile {
    type V = SourceFileView;

    open spec fn view(&self) -> SourceFileView {
        SourceFileView {
            path: self.path@,
            file_id: self.file_id,
            symbols: symbol_views(self.symbols@),
        }
    }
}

/// The provider's files as plain mathematical data.
pub open spec fn source_views(files: Seq<SourceFile>) -> Seq<SourceFileView> {
    files.map_values(|f: SourceFile| f@)
}

/// The analysed files as plain mathematical data.
pub open spec fn module_views(modules: Seq<Module>) -> Seq<ModuleView> {
    modules.map_values(|m: Module| m@)
}

/// Whether `path` lies at or below `root`: `root` is the whole path or ends
/// where a component of it ends. Everything lies below the empty root.
pub open spec fn path_within(root: Seq<char>, path: Seq<char>) -> bool {
    &&& root.len() <= path.len()
    &&& path.take(root.len() as int) == root
    &&& root.len() == 0 || root.len() == path.len() || root.last() == '/' || path[root.len() as int]
        == '/'
}

/// A file of the provider whose symbols cannot be rebuilt into a structure.
#[derive(Clone, Copy, Debug, PartialEq, Eq, Structural)]
pub struct BadFile {
    /// The position of the file in the provider's list.
    pub file: usize,
    /// What is wrong with its symbols.
    pub bad: BadParent,
}

/// The analysed file that a file of the provider becomes.
pub open spec fn module_of(file: SourceFileView, lang: Language) -> ModuleView {
    ModuleView {
        path: file.path,
        file_id: file.file_id,
        items: file_items(file.symbols, lang, file.file_id),
    }
}

/// The analysed files of the first `hi` files of the provider: those at or
/// below `root`, in the provider's order.
pub open spec fn modules_upto(files: Seq<SourceFileView>, root: Seq<char>, lang: Language, hi: int)
    -> Seq<ModuleView>
    decreases hi,
{
    if hi <= 0 || hi > files.len() {
        Seq::empty()
    } else if path_within(root, files[hi - 1].path) {
        modules_upto(files, root, lang, hi - 1).push(module_of(files[hi - 1], lang))
    } else {
        modules_upto(files, root, lang, hi - 1)
    }
}

/// Whether the symbols of each of the first `hi` files at or below `root` can
/// be rebuilt into a structure.
pub open spec fn sound_upto(files: Seq<SourceFileView>, root: Seq<char>, hi: int) -> bool {
    forall|i: int|
        0 <= i < hi && i < files.len() && path_within(root, (#[trigger] files[i]).path)
            ==> parents_precede(files[i].symbols)
}

/// Whether `path` lies at or below `root`.
pub fn starts_with(path: &str, root: &str) -> (within: bool)
    ensures
        within == path_within(root@, path@),
{
    let n = root.unicode_len();
    let m = path.unicode_len();
    if n > m {
        return false;
    }
    let mut i: usize = 0;
    while i < n
        invariant
            n == root@.len(),
            m == path@.len(),
            n <= m,
            i <= n,
            forall|j: int| 0 <= j < i ==> path@[j] == root@[j],
        decreases n - i,
    {
        if path.get_char(i) != root.get_char(i) {
            assert(path@.take(n as int)[i as int] != root@[i as int]);
            return false;
        }
        i += 1;
    }
    assert(path@.take(n as int) =~= root@);
    n == 0 || n == m || root.get_char(n - 1) == '/' || path.get_char(n) == '/'
}

/// Rebuilds the structure of every file at or below `root`, in the provider's
/// order; files elsewhere are passed over. The first file at or below `root`
/// whose symbols cannot be rebuilt is reported, and nothing else is returned
/// then.
pub fn analyze(lang: Language, root: &str, files: &Vec<SourceFile>) -> (res: Result<
    Vec<Module>,
    BadFile,
>)
    ensures
        res is Ok <==> sound_upto(source_views(files@), root@, files@.len() as int),
        res matches Ok(modules) ==> {
            &&& module_views(modules@) == modules_upto(
                source_views(files@),
                root@,
                lang,
                files@.len() as int,
            )
            &&& forall|i: int| 0 <= i < modules@.len() ==> (#[trigger] modules@[i]).wf()
        },
        res matches Err(e) ==> {
            &&& e.file < files@.len()
            &&& path_within(root@, files@[e.file as int].path@)
            &&& first_bad_parent(symbol_views(files@[e.file as int].symbols@), e.bad)
            &&& sound_upto(source_views(files@), root@, e.file as int)
        },
{
    let ghost fv = source_views(files@);
    let mut modules: Vec<Module> = Vec::new();
    let mut i: usize = 0;
    assert(module_views(modules@) =~= modules_upto(fv, root@, lang, 0));
    while i < files.len()
        invariant
            i <= files@.len(),
            fv == source_views(files@),
            sound_upto(fv, root@, i as int),
            module_views(modules@) == modules_upto(fv, root@, lang, i as int),
            forall|j: int| 0 <= j < modules@.len() ==> (#[trigger] modules@[j]).wf(),
        decreases files@.len() - i,
    {
        let file = &files[i];
        assert(fv[i as int] == file@);
        let ghost before = modules@;
        if starts_with(file.path.as_str(), root) {
            match module_ritems(lang, &file.symbols, file.file_id) {
                Err(bad) => {
                    return Err(BadFile { file: i, bad });
                },
                Ok(items) => {
                    let mut module = Module::new(file.path.clone(), file.file_id);
                    module.items = items;
                    assert(module@ == module_of(file@, lang));
                    modules.push(module);
                    assert(module_views(modules@) =~= module_views(before).push(
                        module_of(file@, lang),
                    ));
                },
            }
        }
        i += 1;
    }
    Ok(modules)
}

} // verus!
