//! The rules of each source language: which kinds of symbol are kept, what
//! item each becomes, and how it is styled.

use vstd::prelude::*;
use vstd::string::*;
use crate::file_structure::RItemType;
use crate::symbol::SymbolKind;

verus! {

/// A hint on how a cell is drawn.
#[derive(Clone, Copy, Debug, PartialEq, Eq, Structural)]
pub enum Style {
    /// The cell belongs to the named class.
    CssClass(CssClass),
    /// The width of the cell's border.
    Border(u8),
    Rounded,
}

/// The classes that a cell can belong to.
#[derive(Clone, Copy, Debug, PartialEq, Eq, Structural)]
pub enum CssClass {
    Fn,
    Interface,
}

impl CssClass {
    /// The name of the class as style sheets write it.
    pub open spec fn spec_name(self) -> Seq<char> {
        match self {
            CssClass::Fn => "fn"@,
            CssClass::Interface => "interface"@,
        }
    }

    /// The name of the class as style sheets write it.
    pub fn name(self) -> (s: String)
        ensures
            s@ == self.spec_name(),
    {
        match self {
            CssClass::Fn => String::from_str("fn"),
            CssClass::Interface => String::from_str("interface"),
        }
    }
}

/// The kind of item that a kind of symbol becomes, if any.
pub open spec fn spec_item_type(kind: SymbolKind) -> Option<RItemType> {
    match kind {
        SymbolKind::Struct | SymbolKind::Class => Some(RItemType::Struct),
        SymbolKind::Function | SymbolKind::Method | SymbolKind::Constructor => Some(
            RItemType::Func,
        ),
        SymbolKind::Enum => Some(RItemType::Enum),
        SymbolKind::Union => Some(RItemType::Union),
        SymbolKind::Trait => Some(RItemType::Trait),
        SymbolKind::Macro => Some(RItemType::Macro),
        SymbolKind::Impl => Some(RItemType::Impl),
        _ => None,
    }
}

/// The styles of a kind of symbol: functions, methods and constructors are
/// rounded boxes of class `fn`; traits are rounded boxes of class `interface`
/// without a border; all others are plain.
pub open spec fn spec_symbol_style(kind: SymbolKind) -> Seq<Style> {
    match kind {
        SymbolKind::Function | SymbolKind::Method | SymbolKind::Constructor => seq![
            Style::CssClass(CssClass::Fn),
            Style::Rounded,
        ],
        SymbolKind::Trait => seq![
            Style::CssClass(CssClass::Interface),
            Style::Border(0),
            Style::Rounded,
        ],
        _ => Seq::empty(),
    }
}

/// The kind of symbol that stands for a kind of item where styles are chosen.
pub open spec fn spec_symbol_kind(ty: RItemType) -> SymbolKind {
    match ty {
        RItemType::Struct => SymbolKind::Struct,
        RItemType::Func => SymbolKind::Function,
        RItemType::Enum => SymbolKind::Enum,
        RItemType::Union => SymbolKind::Union,
        RItemType::Trait => SymbolKind::Trait,
        RItemType::Macro => SymbolKind::Macro,
        RItemType::Impl => SymbolKind::Impl,
    }
}

/// The kind of symbol that stands for a kind of item where styles are chosen.
pub fn symbol_kind(ty: RItemType) -> (kind: SymbolKind)
    ensures
        kind == spec_symbol_kind(ty),
{
    match ty {
        RItemType::Struct => SymbolKind::Struct,
        RItemType::Func => SymbolKind::Function,
        RItemType::Enum => SymbolKind::Enum,
        RItemType::Union => SymbolKind::Union,
        RItemType::Trait => SymbolKind::Trait,
        RItemType::Macro => SymbolKind::Macro,
        RItemType::Impl => SymbolKind::Impl,
    }
}

/// The rules that hold where a language has none of its own: every kind is
/// kept but `Unknown`.
pub struct DefaultLang;

impl DefaultLang {
    /// Whether the default rules keep symbols of the given kind.
    pub open spec fn retains(kind: SymbolKind) -> bool {
        kind != SymbolKind::Unknown
    }

    /// Whether a symbol of this kind is kept.
    pub fn filter_symbol(&self, kind: SymbolKind) -> (keep: bool)
        ensures
            keep == Self::retains(kind),
    {
        match kind {
            SymbolKind::Unknown => false,
            _ => true,
        }
    }

    /// The styles of a symbol of this kind.
    pub fn symbol_style(&self, kind: SymbolKind) -> (styles: Vec<Style>)
        ensures
            styles@ == spec_symbol_style(kind),
    {
        let styles = match kind {
            SymbolKind::Function | SymbolKind::Method | SymbolKind::Constructor => {
                vec![Style::CssClass(CssClass::Fn), Style::Rounded]
            },
            SymbolKind::Trait => {
                vec![Style::CssClass(CssClass::Interface), Style::Border(0), Style::Rounded]
            },
            _ => Vec::new(),
        };
        assert(styles@ =~= spec_symbol_style(kind));
        styles
    }
}

/// The rules of C and its relatives: constants, fields and enum members are
/// dropped besides what the default drops.
pub struct C;

impl C {
    /// Whether the rules of C keep symbols of the given kind.
    pub open spec fn retains(kind: SymbolKind) -> bool {
        kind != SymbolKind::Unknown && kind != SymbolKind::Constant && kind != SymbolKind::Field
            && kind != SymbolKind::EnumMember
    }

    /// Whether a symbol of this kind is kept.
    pub fn filter_symbol(&self, kind: SymbolKind) -> (keep: bool)
        ensures
            keep == Self::retains(kind),
    {
        match kind {
            SymbolKind::Unknown
            | SymbolKind::Constant
            | SymbolKind::Field
            | SymbolKind::EnumMember => false,
            _ => true,
        }
    }
}

/// The languages with rules of their own, and the default for all others.
#[derive(Clone, Copy, Debug, PartialEq, Eq, Structural)]
pub enum Language {
    Go,
    Java,
    Rust,
    C,
    Default,
}

impl Language {
    /// Whether this language keeps symbols of the given kind.
    pub open spec fn retains(self, kind: SymbolKind) -> bool {
        match self {
            Language::C => C::retains(kind),
            _ => DefaultLang::retains(kind),
        }
    }

    /// The kind of item that a symbol of the given kind becomes under this
    /// language: none where the kind is dropped or stands for no item.
    pub open spec fn item_type(self, kind: SymbolKind) -> Option<RItemType> {
        if self.retains(kind) {
            spec_item_type(kind)
        } else {
            None
        }
    }

    /// Whether a symbol of this kind is kept.
    pub fn filter_symbol(&self, kind: SymbolKind) -> (keep: bool)
        ensures
            keep == self.retains(kind),
    {
        match self {
            Language::C => C.filter_symbol(kind),
            _ => DefaultLang.filter_symbol(kind),
        }
    }

    /// The kind of item that a symbol of this kind becomes, if any.
    pub fn item_type_of(&self, kind: SymbolKind) -> (ty: Option<RItemType>)
        ensures
            ty == self.item_type(kind),
    {
        if !self.filter_symbol(kind) {
            return None;
        }
        match kind {
            SymbolKind::Struct | SymbolKind::Class => Some(RItemType::Struct),
            SymbolKind::Function | SymbolKind::Method | SymbolKind::Constructor => Some(
                RItemType::Func,
            ),
            SymbolKind::Enum => Some(RItemType::Enum),
            SymbolKind::Union => Some(RItemType::Union),
            SymbolKind::Trait => Some(RItemType::Trait),
            SymbolKind::Macro => Some(RItemType::Macro),
            SymbolKind::Impl => Some(RItemType::Impl),
            _ => None,
        }
    }

    /// The styles of a symbol of this kind.
    pub fn symbol_style(&self, kind: SymbolKind) -> (styles: Vec<Style>)
        ensures
            styles@ == spec_symbol_style(kind),
    {
        DefaultLang.symbol_style(kind)
    }
}

/// The language that files with the extension `ext` are written in.
pub open spec fn spec_language_handler(ext: Seq<char>) -> Language {
    if ext == "go"@ {
        Language::Go
    } else if ext == "java"@ {
        Language::Java
    } else if ext == "rs"@ {
        Language::Rust
    } else if ext == "c"@ || ext == "cpp"@ || ext == "h"@ || ext == "hpp"@ {
        Language::C
    } else {
        Language::Default
    }
}

fn str_eq(a: &str, b: &str) -> (same: bool)
    ensures
        same == (a@ == b@),
{
    let n = a.unicode_len();
    if n != b.unicode_len() {
        return false;
    }
    let mut i: usize = 0;
    while i < n
        invariant
            n == a@.len(),
            n == b@.len(),
            i <= n,
            forall|j: int| 0 <= j < i ==> a@[j] == b@[j],
        decreases n - i,
    {
        if a.get_char(i) != b.get_char(i) {
            return false;
        }
        i += 1;
    }
    assert(a@ =~= b@);
    true
}

/// The language that files with the extension `ext` are written in: the
/// default for an extension that no language claims.
pub fn language_handler(ext: &str) -> (lang: Language)
    ensures
        lang == spec_language_handler(ext@),
{
    if str_eq(ext, "go") {
        Language::Go
    } else if str_eq(ext, "java") {
        Language::Java
    } else if str_eq(ext, "rs") {
        Language::Rust
    } else if str_eq(ext, "c") || str_eq(ext, "cpp") || str_eq(ext, "h") || str_eq(ext, "hpp") {
        Language::C
    } else {
        Language::Default
    }
}

} // verus!
