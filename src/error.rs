//! Errors of the builders, gathered under one type.

use vstd::prelude::*;
use crate::kind::{GraphItemKind, ItemId, LayoutItemKind};
use crate::name_ref::NameIdError;
use crate::resolver::ResolverError;

verus! {

/// error of the node builder
#[derive(Debug, Clone, PartialEq, Eq)]
pub enum NodeItemError {
    /// the group of the node could not be resolved
    FailResolveBelongGroup(ItemId),
    /// a name could not be used
    NameIdError(ItemId, NameIdError<GraphItemKind>),
}

/// error of the group builder
#[derive(Debug, Clone, PartialEq, Eq)]
pub enum GroupItemError {
    /// the parent group could not be resolved
    FailResolveBelongGroup(ItemId),
    /// a name could not be used
    NameIdError(ItemId, NameIdError<GraphItemKind>),
}

/// error of the edge builder; each carries the item id and the edge's name
#[derive(Debug, Clone, PartialEq, Eq)]
pub enum EdgeItemError {
    /// the group of the edge could not be resolved
    FailResolveBelongGroup(ItemId, Option<String>, Option<String>),
    /// no start endpoint was given
    NotSpecifyStartEndpoint(ItemId, Option<String>, Option<(GraphItemKind, String)>),
    /// no end endpoint was given
    NotSpecifyEndEndpoint(ItemId, Option<String>, Option<(GraphItemKind, String)>),
    /// a group endpoint is the edge's own group or one of its ancestors
    CannotSpecifyBelongGroupAsEndpoint(ItemId, Option<String>, String),
    /// the edge's group is not at or above the groups of both endpoints
    InappropriateGroup(ItemId, Option<String>, Option<String>),
    /// the start endpoint could not be resolved
    FailResolveStartEndpoint(ItemId, Option<String>, Option<(GraphItemKind, String)>),
    /// the end endpoint could not be resolved
    FailResolveEndEndpoint(ItemId, Option<String>, Option<(GraphItemKind, String)>),
    /// a name could not be used
    NameIdError(ItemId, Option<String>, NameIdError<GraphItemKind>),
    /// the group hierarchy refused
    ResolverError(ItemId, Option<String>, ResolverError),
}

/// every error of the library
#[derive(Debug, Clone, PartialEq, Eq)]
pub enum GrafoError {
    NameIdError(NameIdError<GraphItemKind>),
    LayoutNameIdError(NameIdError<LayoutItemKind>),
    ResolverError(ResolverError),
    NodeItemError(NodeItemError),
    EdgeItemError(EdgeItemError),
    GroupItemError(GroupItemError),
}

} // verus!
