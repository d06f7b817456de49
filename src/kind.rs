//! Identities and the closed sets of kinds that separate name spaces.

use vstd::prelude::*;

verus! {

/// identity of a group
pub type GroupId = usize;

/// identity of an item; `DEFAULT_ITEM_ID` is reserved for the default item of a group
pub type ItemId = usize;

/// item id reserved for the item that declares a group
pub const DEFAULT_ITEM_ID: usize = 0;

/// kind of a graph item
#[derive(Debug, Clone, Copy, PartialEq, Eq, Hash, PartialOrd, Ord, Structural)]
pub enum GraphItemKind {
    Node,
    Edge,
    Group,
}

/// kind of a layout item attached to a graph item
#[derive(Debug, Clone, Copy, PartialEq, Eq, Hash, PartialOrd, Ord, Structural)]
pub enum WithItemLayoutKind {
    Label,
    Style,
}

/// kind of a layout attribute that stands alone
#[derive(Debug, Clone, Copy, PartialEq, Eq, Hash, PartialOrd, Ord, Structural)]
pub enum AttributeKind {
    Style,
}

/// kind of a layout name space
#[derive(Debug, Clone, Copy, PartialEq, Eq, Hash, PartialOrd, Ord, Structural)]
pub enum LayoutItemKind {
    WithItemAttribute(GraphItemKind, WithItemLayoutKind),
    IsolateAttribute(AttributeKind),
}

impl LayoutItemKind {
    /// kind of a layout item attached to a graph item of `item_kind`
    pub fn new_layout(item_kind: GraphItemKind, layout_kind: WithItemLayoutKind) -> (r: Self)
        ensures
            r == LayoutItemKind::WithItemAttribute(item_kind, layout_kind),
    {
        LayoutItemKind::WithItemAttribute(item_kind, layout_kind)
    }

    /// kind of a standalone layout attribute
    pub fn new_attribute(attribute_kind: AttributeKind) -> (r: Self)
        ensures
            r == LayoutItemKind::IsolateAttribute(attribute_kind),
    {
        LayoutItemKind::IsolateAttribute(attribute_kind)
    }

    /// the kind belongs to a graph item
    pub fn need_graph_item(&self) -> (r: bool)
        ensures
            r == self is WithItemAttribute,
    {
        match self {
            LayoutItemKind::WithItemAttribute(_, _) => true,
            LayoutItemKind::IsolateAttribute(_) => false,
        }
    }

    /// the kind is a standalone attribute
    pub fn is_attribute(&self) -> (r: bool)
        ensures
            r == self is IsolateAttribute,
    {
        match self {
            LayoutItemKind::WithItemAttribute(_, _) => false,
            LayoutItemKind::IsolateAttribute(_) => true,
        }
    }
}

/// A key of the name index that can be compared in executable code.
pub trait NameRefKeyTrait: Sized {
    /// equality of two keys
    fn same_key(&self, other: &Self) -> (r: bool)
        ensures
            r == (*self == *other),
    ;

    /// a copy of the key
    fn copy_key(&self) -> (r: Self)
        ensures
            r == *self,
    ;
}

impl NameRefKeyTrait for GraphItemKind {
    fn same_key(&self, other: &Self) -> (r: bool) {
        *self == *other
    }

    fn copy_key(&self) -> (r: Self) {
        *self
    }
}

impl NameRefKeyTrait for LayoutItemKind {
    fn same_key(&self, other: &Self) -> (r: bool) {
        *self == *other
    }

    fn copy_key(&self) -> (r: Self) {
        *self
    }
}

impl NameRefKeyTrait for usize {
    fn same_key(&self, other: &Self) -> (r: bool) {
        *self == *other
    }

    fn copy_key(&self) -> (r: Self) {
        *self
    }
}

impl NameRefKeyTrait for (usize, usize) {
    fn same_key(&self, other: &Self) -> (r: bool) {
        self.0 == other.0 && self.1 == other.1
    }

    fn copy_key(&self) -> (r: Self) {
        (self.0, self.1)
    }
}

/// Compares a stored name with a looked up one.
pub fn same_name(stored: &String, name: &str) -> (r: bool)
    ensures
        r == (stored@ == name@),
{
    let owned = name.to_owned();
    *stored == owned
}

} // verus!
