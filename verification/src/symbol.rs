//! What a symbol provider hands over: one descriptor per symbol of a file, in
//! source order, each pointing back at its parent by position.

use vstd::prelude::*;

verus! {

/// The kinds of symbol that a provider may report.
#[derive(Clone, Copy, Debug, PartialEq, Eq, Structural)]
pub enum SymbolKind {
    Struct,
    Class,
    Function,
    Method,
    Constructor,
    Enum,
    Union,
    Trait,
    Macro,
    Impl,
    Constant,
    Variable,
    Field,
    EnumMember,
    Module,
    Unknown,
}

/// One symbol of a file as the provider reports it.
#[derive(Debug, PartialEq, Eq)]
pub struct Symbol {
    /// The symbol's name as it is shown.
    pub name: String,
    pub kind: SymbolKind,
    /// Where the name stands in the file.
    pub offset: u32,
    /// The position, in the file's sequence, of the symbol that holds this one.
    pub parent: Option<usize>,
}

/// A symbol descriptor as plain mathematical data.
pub struct SymbolView {
    pub name: Seq<char>,
    pub kind: SymbolKind,
    pub offset: u32,
    pub parent: Option<usize>,
}

impl View for Symbol {
    type V = SymbolView;

    open spec fn view(&self) -> SymbolView {
        SymbolView { name: self.name@, kind: self.kind, offset: self.offset, parent: self.parent }
    }
}

/// The descriptors of a file as plain mathematical data.
pub open spec fn symbol_views(symbols: Seq<Symbol>) -> Seq<SymbolView> {
    symbols.map_values(|s: Symbol| s@)
}

/// Whether every parent reference points at an earlier symbol of the sequence.
pub open spec fn parents_precede(symbols: Seq<SymbolView>) -> bool {
    forall|k: int|
        0 <= k < symbols.len() ==> match (#[trigger] symbols[k]).parent {
            Some(p) => p < k,
            None => true,
        }
}

impl Symbol {
    /// A descriptor with the given fields.
    pub fn new(name: String, kind: SymbolKind, offset: u32, parent: Option<usize>) -> (s: Symbol)
        ensures
            s@ == (SymbolView { name: name@, kind, offset, parent }),
    {
        Symbol { name, kind, offset, parent }
    }
}

} // verus!
