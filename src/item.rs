//! Graph items as they are stored, and what each kind of item offers.

use vstd::prelude::*;
use crate::kind::{AttributeKind, GraphItemKind, GroupId, ItemId, DEFAULT_ITEM_ID};

verus! {

/// What every stored graph item tells about itself.
pub trait GraphItemBase: Sized {
    spec fn spec_kind(&self) -> GraphItemKind;

    spec fn spec_group(&self) -> GroupId;

    spec fn spec_item_id(&self) -> ItemId;

    /// kind of the item
    fn get_kind(&self) -> (r: GraphItemKind)
        ensures
            r == self.spec_kind(),
    ;

    /// group that the item belongs to
    fn get_belong_group_id(&self) -> (r: GroupId)
        ensures
            r == self.spec_group(),
    ;

    /// identity of the item
    fn get_item_id(&self) -> (r: ItemId)
        ensures
            r == self.spec_item_id(),
    ;
}

/// An item kind with a default item, the one that declares a group.
pub trait HasDefaultItem: GraphItemBase {
    /// the default item of the group
    spec fn spec_default_of(group_id: GroupId) -> Self;

    /// the default item of the group
    fn default_of(group_id: GroupId) -> (r: Self)
        ensures
            r == Self::spec_default_of(group_id),
            r.spec_group() == group_id,
            r.spec_item_id() == DEFAULT_ITEM_ID,
    ;
}

/// What every stored layout attribute tells about itself.
pub trait LayoutItemBase: Sized {
    spec fn spec_kind(&self) -> AttributeKind;

    spec fn spec_item_id(&self) -> ItemId;

    /// kind of the attribute
    fn get_kind(&self) -> (r: AttributeKind)
        ensures
            r == self.spec_kind(),
    ;

    /// identity of the attribute
    fn get_item_id(&self) -> (r: ItemId)
        ensures
            r == self.spec_item_id(),
    ;
}

/// a standalone layout attribute
#[derive(Debug, Clone, Copy, PartialEq, Eq, Structural)]
pub struct AttributeItem {
    pub kind: AttributeKind,
    pub item_id: ItemId,
}

impl LayoutItemBase for AttributeItem {
    open spec fn spec_kind(&self) -> AttributeKind {
        self.kind
    }

    open spec fn spec_item_id(&self) -> ItemId {
        self.item_id
    }

    fn get_kind(&self) -> (r: AttributeKind) {
        self.kind
    }

    fn get_item_id(&self) -> (r: ItemId) {
        self.item_id
    }
}

/// what a builder hands on for name registration
#[derive(Debug, Clone, PartialEq, Eq)]
pub struct ItemOption {
    pub name: Option<String>,
}

/// node item
#[derive(Debug, Clone, Copy, PartialEq, Eq, Structural)]
pub struct NodeItem {
    pub belong_group_id: GroupId,
    pub item_id: ItemId,
}

impl NodeItem {
    pub fn new(belong_group_id: GroupId, item_id: ItemId) -> (r: Self)
        ensures
            r == (NodeItem { belong_group_id, item_id }),
    {
        NodeItem { belong_group_id, item_id }
    }
}

impl GraphItemBase for NodeItem {
    open spec fn spec_kind(&self) -> GraphItemKind {
        GraphItemKind::Node
    }

    open spec fn spec_group(&self) -> GroupId {
        self.belong_group_id
    }

    open spec fn spec_item_id(&self) -> ItemId {
        self.item_id
    }

    fn get_kind(&self) -> (r: GraphItemKind) {
        GraphItemKind::Node
    }

    fn get_belong_group_id(&self) -> (r: GroupId) {
        self.belong_group_id
    }

    fn get_item_id(&self) -> (r: ItemId) {
        self.item_id
    }
}

impl HasDefaultItem for NodeItem {
    open spec fn spec_default_of(group_id: GroupId) -> Self {
        NodeItem { belong_group_id: group_id, item_id: DEFAULT_ITEM_ID }
    }

    fn default_of(group_id: GroupId) -> (r: Self) {
        NodeItem { belong_group_id: group_id, item_id: DEFAULT_ITEM_ID }
    }
}

/// group item; its item id is the id of the group it declares
#[derive(Debug, Clone, Copy, PartialEq, Eq, Structural)]
pub struct GroupItem {
    pub belong_group_id: GroupId,
    pub item_id: ItemId,
}

impl GroupItem {
    pub fn new(belong_group_id: GroupId, item_id: ItemId) -> (r: Self)
        ensures
            r == (GroupItem { belong_group_id, item_id }),
    {
        GroupItem { belong_group_id, item_id }
    }
}

impl GraphItemBase for GroupItem {
    open spec fn spec_kind(&self) -> GraphItemKind {
        GraphItemKind::Group
    }

    open spec fn spec_group(&self) -> GroupId {
        self.belong_group_id
    }

    open spec fn spec_item_id(&self) -> ItemId {
        self.item_id
    }

    fn get_kind(&self) -> (r: GraphItemKind) {
        GraphItemKind::Group
    }

    fn get_belong_group_id(&self) -> (r: GroupId) {
        self.belong_group_id
    }

    fn get_item_id(&self) -> (r: ItemId) {
        self.item_id
    }
}

impl HasDefaultItem for GroupItem {
    open spec fn spec_default_of(group_id: GroupId) -> Self {
        GroupItem { belong_group_id: group_id, item_id: DEFAULT_ITEM_ID }
    }

    fn default_of(group_id: GroupId) -> (r: Self) {
        GroupItem { belong_group_id: group_id, item_id: DEFAULT_ITEM_ID }
    }
}

/// how an edge is drawn
#[derive(Debug, Clone, Copy, PartialEq, Eq, Structural)]
pub enum EdgeItemStyle {
    Line,
    Dashed,
    Dotted,
}

/// what an edge connects to
#[derive(Debug, Clone, Copy, PartialEq, Eq, Structural)]
pub struct Endpoint {
    pub kind: GraphItemKind,
    pub belong_group_id: GroupId,
    pub item_id: ItemId,
}

impl Endpoint {
    pub fn new(kind: GraphItemKind, belong_group_id: GroupId, item_id: ItemId) -> (r: Self)
        ensures
            r == (Endpoint { kind, belong_group_id, item_id }),
    {
        Endpoint { kind, belong_group_id, item_id }
    }
}

/// edge item
#[derive(Debug, Clone, PartialEq, Eq)]
pub struct EdgeItem {
    pub belong_group_id: GroupId,
    pub item_id: ItemId,
    pub start: Endpoint,
    pub end: Endpoint,
    pub label: Option<String>,
    pub style: EdgeItemStyle,
}

impl GraphItemBase for EdgeItem {
    open spec fn spec_kind(&self) -> GraphItemKind {
        GraphItemKind::Edge
    }

    open spec fn spec_group(&self) -> GroupId {
        self.belong_group_id
    }

    open spec fn spec_item_id(&self) -> ItemId {
        self.item_id
    }

    fn get_kind(&self) -> (r: GraphItemKind) {
        GraphItemKind::Edge
    }

    fn get_belong_group_id(&self) -> (r: GroupId) {
        self.belong_group_id
    }

    fn get_item_id(&self) -> (r: ItemId) {
        self.item_id
    }
}

} // verus!
