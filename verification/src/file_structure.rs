//! The structure of one file: its retained symbols as items, nested one level
//! deep.

use vstd::prelude::*;

verus! {

/// The kinds of structural item.
#[derive(Clone, Copy, Debug, PartialEq, Eq, Structural)]
pub enum RItemType {
    Struct,
    Func,
    Enum,
    Union,
    Trait,
    Macro,
    Impl,
}

/// A place in a file.
#[derive(Clone, Copy, Debug, PartialEq, Eq, Structural)]
pub struct FilePosition {
    pub file_id: u32,
    pub offset: u32,
}

/// A structural item. Only an `Impl` holds children, and a child holds none.
#[derive(Debug, PartialEq, Eq)]
pub struct RItem {
    pub ident: String,
    pub ty: RItemType,
    pub pos: FilePosition,
    pub children: Option<Vec<RItem>>,
}

/// A member of a container item as plain mathematical data.
pub struct MemberView {
    pub ident: Seq<char>,
    pub ty: RItemType,
    pub pos: FilePosition,
}

/// A top-level item as plain mathematical data: `children` is `Some` exactly
/// for a container.
pub struct RItemView {
    pub ident: Seq<char>,
    pub ty: RItemType,
    pub pos: FilePosition,
    pub children: Option<Seq<MemberView>>,
}

/// The members that a list of child items stands for.
pub open spec fn member_views(items: Seq<RItem>) -> Seq<MemberView> {
    items.map_values(|c: RItem| c.member_view())
}

/// The top-level items that a list of items stands for.
pub open spec fn item_views(items: Seq<RItem>) -> Seq<RItemView> {
    items.map_values(|c: RItem| c@)
}

impl View for RItem {
    type V = RItemView;

    open spec fn view(&self) -> RItemView {
        RItemView {
            ident: self.ident@,
            ty: self.ty,
            pos: self.pos,
            children: match self.children {
                Some(v) => Some(member_views(v@)),
                None => None,
            },
        }
    }
}

impl RItem {
    /// This item seen as a member of a container: its own children left aside.
    pub open spec fn member_view(&self) -> MemberView {
        MemberView { ident: self.ident@, ty: self.ty, pos: self.pos }
    }

    /// Whether this item holds nothing below it: a list of children only
    /// where it is a container, and then an empty one.
    pub open spec fn is_leaf(&self) -> bool {
        match self.children {
            Some(v) => self.ty == RItemType::Impl && v@.len() == 0,
            None => self.ty != RItemType::Impl,
        }
    }

    /// Whether this item is a well-formed top-level item: it has a list of
    /// children exactly if it is a container, and each child is a leaf.
    pub open spec fn wf(&self) -> bool {
        match self.children {
            Some(v) => self.ty == RItemType::Impl && forall|i: int|
                0 <= i < v@.len() ==> (#[trigger] v@[i]).is_leaf(),
            None => self.ty != RItemType::Impl,
        }
    }
}

/// Whether every item of the list is a well-formed top-level item.
pub open spec fn items_wf(items: Seq<RItem>) -> bool {
    forall|i: int| 0 <= i < items.len() ==> (#[trigger] items[i]).wf()
}

/// One analysed file: its path, its id and its top-level items in source order.
#[derive(Debug, PartialEq, Eq)]
pub struct Module {
    pub path: String,
    pub file_id: u32,
    pub items: Vec<RItem>,
}

/// A file as plain mathematical data.
pub struct ModuleView {
    pub path: Seq<char>,
    pub file_id: u32,
    pub items: Seq<RItemView>,
}

impl View for Module {
    type V = ModuleView;

    open spec fn view(&self) -> ModuleView {
        ModuleView { path: self.path@, file_id: self.file_id, items: item_views(self.items@) }
    }
}

impl Module {
    /// A file without items yet.
    pub fn new(path: String, file_id: u32) -> (m: Module)
        ensures
            m@ == (ModuleView { path: path@, file_id, items: Seq::empty() }),
    {
        let m = Module { path, file_id, items: Vec::new() };
        assert(m@.items =~= Seq::empty());
        m
    }

    /// Whether the file's items are well formed.
    pub open spec fn wf(&self) -> bool {
        items_wf(self.items@)
    }
}

} // verus!
