//! Identity and reference core of a graph modeling library: arena storage of
//! graph items, a bidirectional name index, a group hierarchy, builders that
//! validate items before they are committed, and ordered iteration over items
//! partitioned by group.

pub mod kind;
pub mod assoc;
pub mod name_ref;
pub mod group_tree;
pub mod resolver;
pub mod item;
pub mod error;
pub mod builder;
pub mod edge_builder;
pub mod arena;
pub mod iter;
