//! Resolution of names to identities under the group hierarchy.

use vstd::prelude::*;
use crate::group_tree::{GroupTree, IdTreeError};
use crate::item::{GraphItemBase, LayoutItemBase};
use crate::kind::{
    AttributeKind,
    GraphItemKind,
    GroupId,
    ItemId,
    LayoutItemKind,
    WithItemLayoutKind,
};
use crate::name_ref::{
    admitted_keys,
    keys_of_kind,
    lookup,
    lemma_graph_kinds_partition,
    lemma_layout_kinds_partition,
    AttributeKinds,
    GraphItemLayoutKinds,
    NameIdError,
    NameRefIndex,
};

verus! {

/// error of the group hierarchy as the resolver reports it
#[derive(Debug, Clone, Copy, PartialEq, Eq, Structural)]
pub enum ResolverError {
    /// the root group was set before
    FailSetRootGraphId,
    /// no root group is set
    NotInitialized,
    /// the parent group is unknown
    NotFindParentId(GroupId),
    /// the group is known already
    AlreadyExistId(GroupId),
}

/// one of two results
#[derive(Debug, Clone, PartialEq, Eq)]
pub enum Either<L, R> {
    Left(L),
    Right(R),
}

impl ResolverError {
    /// the resolver's error for an error of the hierarchy
    pub fn from_tree_error(e: IdTreeError) -> (r: ResolverError)
        ensures
            r == tree_error(e),
    {
        match e {
            IdTreeError::NotInitialized => ResolverError::NotInitialized,
            IdTreeError::NotFindParentId(id) => ResolverError::NotFindParentId(id),
            IdTreeError::AlreadyExistId(id) => ResolverError::AlreadyExistId(id),
        }
    }
}

/// the resolver's error for an error of the hierarchy
pub open spec fn tree_error(e: IdTreeError) -> ResolverError {
    match e {
        IdTreeError::NotInitialized => ResolverError::NotInitialized,
        IdTreeError::NotFindParentId(id) => ResolverError::NotFindParentId(id),
        IdTreeError::AlreadyExistId(id) => ResolverError::AlreadyExistId(id),
    }
}

/// `e` reports that `name` is not bound under `kind`
pub open spec fn is_not_exist<K>(e: NameIdError<K>, kind: K, name: Seq<char>) -> bool {
    match e {
        NameIdError::NotExist(k, n) => k == kind && n@ == name,
        _ => false,
    }
}

/// `e` reports that `name` was rebound under `kind`
pub open spec fn is_override<K>(e: NameIdError<K>, kind: K, name: Seq<char>) -> bool {
    match e {
        NameIdError::Override(k, n) => k == kind && n@ == name,
        _ => false,
    }
}

/// Group hierarchy and the name indexes of graph items and layout items.
#[derive(Debug, Clone)]
pub struct Resolver {
    group_id_tree: GroupTree,
    /// (kind, name) to (group_id, item_id)
    graph_items: NameRefIndex<GraphItemKind, (GroupId, ItemId)>,
    /// (layout kind, name) to item_id
    layout_items: NameRefIndex<LayoutItemKind, ItemId>,
}

impl Resolver {
    /// the group hierarchy
    pub closed spec fn tree(&self) -> GroupTree {
        self.group_id_tree
    }

    /// the names of graph items
    pub closed spec fn graph(&self) -> NameRefIndex<GraphItemKind, (GroupId, ItemId)> {
        self.graph_items
    }

    /// the names of layout items and attributes
    pub closed spec fn layout(&self) -> NameRefIndex<LayoutItemKind, ItemId> {
        self.layout_items
    }

    pub open spec fn wf(&self) -> bool {
        &&& self.tree().wf()
        &&& self.graph().wf()
        &&& self.layout().wf()
    }

    /// the group that a group name refers to; the root without a name
    pub open spec fn belong_group_of(&self, name: Option<Seq<char>>) -> Option<GroupId> {
        match name {
            None => self.tree().root(),
            Some(n) => match lookup(self.graph().names(), (GraphItemKind::Group, n)) {
                Some(pair) => Some(pair.1),
                None => None,
            },
        }
    }

    /// `a` is `g` or one of its ancestors
    pub open spec fn is_at_or_above(&self, a: GroupId, g: GroupId) -> bool {
        a == g || (self.tree().groups().contains(g) && self.tree().ancestors(g).contains(a))
    }

    /// initialize
    pub fn new() -> (r: Self)
        ensures
            r.wf(),
            r.tree().groups() == Set::<GroupId>::empty(),
            r.tree().root() is None,
            r.graph().names() == Map::<(GraphItemKind, Seq<char>), (GroupId, ItemId)>::empty(),
            r.graph().registered() == Map::<(GraphItemKind, (GroupId, ItemId)), Seq<char>>::empty(),
            r.layout().names() == Map::<(LayoutItemKind, Seq<char>), ItemId>::empty(),
            r.layout().registered() == Map::<(LayoutItemKind, ItemId), Seq<char>>::empty(),
    {
        Resolver {
            group_id_tree: GroupTree::new(),
            graph_items: NameRefIndex::new(),
            layout_items: NameRefIndex::new(),
        }
    }

    //
    // for root group
    //
    /// sets the root group once
    pub fn set_root_group_id(&mut self, group_id: GroupId) -> (r: Result<(), ResolverError>)
        requires
            old(self).wf(),
        ensures
            final(self).wf(),
            final(self).graph() == old(self).graph(),
            final(self).layout() == old(self).layout(),
            old(self).tree().root() is None ==> r is Ok && final(self).tree().root() == Some(
                group_id,
            ) && final(self).tree().groups() == set![group_id] && final(self).tree().ancestors(
                group_id,
            ) == Seq::<GroupId>::empty(),
            old(self).tree().root() is Some ==> r == Err::<(), ResolverError>(
                ResolverError::FailSetRootGraphId,
            ) && final(self).tree() == old(self).tree(),
    {
        if self.group_id_tree.set_root(group_id) {
            Ok(())
        } else {
            Err(ResolverError::FailSetRootGraphId)
        }
    }

    /// adds `child` under `parent` in the hierarchy
    pub fn insert_group(&mut self, parent: GroupId, child: GroupId) -> (r: Result<(), ResolverError>)
        requires
            old(self).wf(),
        ensures
            final(self).wf(),
            final(self).graph() == old(self).graph(),
            final(self).layout() == old(self).layout(),
            r == if old(self).tree().root() is None {
                Err::<(), ResolverError>(ResolverError::NotInitialized)
            } else if !old(self).tree().groups().contains(parent) {
                Err(ResolverError::NotFindParentId(parent))
            } else if old(self).tree().groups().contains(child) {
                Err(ResolverError::AlreadyExistId(child))
            } else {
                Ok(())
            },
            r is Ok ==> {
                &&& final(self).tree().groups() == old(self).tree().groups().insert(child)
                &&& final(self).tree().root() == old(self).tree().root()
                &&& final(self).tree().ancestors(child) == seq![parent].add(
                    old(self).tree().ancestors(parent),
                )
                &&& forall|g: GroupId|
                    old(self).tree().groups().contains(g) ==> #[trigger] final(self).tree().ancestors(g) == old(self).tree().ancestors(g)
            },
            r is Err ==> final(self).tree() == old(self).tree(),
    {
        match self.group_id_tree.insert_id(parent, child) {
            Ok(()) => Ok(()),
            Err(e) => Err(ResolverError::from_tree_error(e)),
        }
    }

    /// the root group
    pub fn get_root_group_id(&self) -> (r: Result<GroupId, ResolverError>)
        ensures
            match self.tree().root() {
                Some(g) => r == Ok::<GroupId, ResolverError>(g),
                None => r == Err::<GroupId, ResolverError>(ResolverError::NotInitialized),
            },
    {
        match self.group_id_tree.get_root_id() {
            Ok(id) => Ok(id),
            Err(e) => Err(ResolverError::from_tree_error(e)),
        }
    }

    /// the group is in the hierarchy
    pub fn contains_group(&self, group_id: GroupId) -> (r: bool)
        requires
            self.wf(),
        ensures
            r == self.tree().groups().contains(group_id),
    {
        self.group_id_tree.contains(group_id)
    }

    /// The group that an item with the group name `name` belongs to: the root
    /// without a name, else the group registered under that name.
    pub fn get_belong_group(&self, name: Option<&str>) -> (r: Result<
        GroupId,
        Either<NameIdError<GraphItemKind>, ResolverError>,
    >)
        requires
            self.wf(),
        ensures
            match name {
                None => match self.tree().root() {
                    Some(g) => r == Ok::<GroupId, Either<NameIdError<GraphItemKind>, ResolverError>>(
                        g,
                    ),
                    None => r == Err::<GroupId, Either<NameIdError<GraphItemKind>, ResolverError>>(
                        Either::Right(ResolverError::NotInitialized),
                    ),
                },
                Some(n) => match r {
                    Ok(g) => self.belong_group_of(Some(n@)) == Some(g),
                    Err(Either::Left(e)) => self.belong_group_of(Some(n@)) is None && is_not_exist(
                        e,
                        GraphItemKind::Group,
                        n@,
                    ),
                    Err(Either::Right(_)) => false,
                },
            },
    {
        match name {
            None => match self.get_root_group_id() {
                Ok(root_id) => Ok(root_id),
                Err(e) => Err(Either::Right(e)),
            },
            Some(n) => match self.get_graph_item_id_pair(GraphItemKind::Group, n) {
                Ok(pair) => Ok(pair.1),
                Err(e) => Err(Either::Left(e)),
            },
        }
    }

    /// the ancestors of the group, from its parent up to the root
    pub fn get_ancestor_ids(&self, group_id: GroupId) -> (r: Option<Vec<GroupId>>)
        requires
            self.wf(),
        ensures
            match r {
                Some(v) => self.tree().groups().contains(group_id) && v@ == self.tree().ancestors(
                    group_id,
                ),
                None => !self.tree().groups().contains(group_id),
            },
    {
        self.group_id_tree.get_ancestor_ids(group_id)
    }

    //
    // for whole item resolve
    //
    /// number of layout names in use
    pub fn count_usable_whole_layout_item_names(&self) -> (r: usize)
        requires
            self.wf(),
        ensures
            r == self.layout().names().dom().len(),
    {
        self.layout_items.count_usable_names_all()
    }

    /// number of registered layout names
    pub fn count_registered_whole_layout_names(&self) -> (r: usize)
        requires
            self.wf(),
        ensures
            r == self.layout().registered().dom().len(),
    {
        self.layout_items.count_registered_names_all()
    }

    //
    // for graph item
    //
    /// binds the name of a graph item, replacing an earlier binding
    pub fn push_graph_item_value_or_override(
        &mut self,
        item_kind: GraphItemKind,
        name: String,
        group_id: GroupId,
        item_id: ItemId,
    ) -> (r: Result<(), NameIdError<GraphItemKind>>)
        requires
            old(self).wf(),
        ensures
            final(self).wf(),
            final(self).tree() == old(self).tree(),
            final(self).layout() == old(self).layout(),
            final(self).graph().names() == old(self).graph().names().insert(
                (item_kind, name@),
                (group_id, item_id),
            ),
            final(self).graph().registered() == old(self).graph().registered().insert(
                (item_kind, (group_id, item_id)),
                name@,
            ),
            final(self).graph().unnamed() == old(self).graph().unnamed(),
            r == if old(self).graph().names().contains_key((item_kind, name@)) && old(self).graph().names()[(item_kind, name@)] != (group_id, item_id) {
                Err(NameIdError::Override(item_kind, name))
            } else {
                Ok(())
            },
    {
        self.graph_items.insert_value_or_override(item_kind, Some(name), (group_id, item_id))
    }

    /// registers a graph item without a name
    pub fn push_graph_item_without_name(
        &mut self,
        item_kind: GraphItemKind,
        group_id: GroupId,
        item_id: ItemId,
    )
        requires
            old(self).wf(),
        ensures
            final(self).wf(),
            final(self).tree() == old(self).tree(),
            final(self).layout() == old(self).layout(),
            final(self).graph().names() == old(self).graph().names(),
            final(self).graph().registered() == old(self).graph().registered(),
            final(self).graph().unnamed() == old(self).graph().unnamed().insert(
                (item_kind, (group_id, item_id)),
            ),
    {
        let _ = self.graph_items.insert_value_or_override(item_kind, None, (group_id, item_id));
    }

    /// the (group_id, item_id) that the name refers to
    pub fn get_graph_item_id_pair(&self, item_kind: GraphItemKind, name: &str) -> (r: Result<
        (GroupId, ItemId),
        NameIdError<GraphItemKind>,
    >)
        requires
            self.wf(),
        ensures
            match r {
                Ok(pair) => lookup(self.graph().names(), (item_kind, name@)) == Some(pair),
                Err(e) => lookup(self.graph().names(), (item_kind, name@)) is None && is_not_exist(
                    e,
                    item_kind,
                    name@,
                ),
            },
    {
        match self.graph_items.get_value(item_kind, name) {
            Some(pair) => Ok(pair),
            None => Err(NameIdError::NotExist(item_kind, name.to_owned())),
        }
    }

    /// the name of the graph item
    pub fn get_graph_item_name_by(&self, item_kind: GraphItemKind, group_id: GroupId, item_id: ItemId) -> (r:
        Option<&String>)
        requires
            self.wf(),
        ensures
            match r {
                Some(n) => lookup(self.graph().registered(), (item_kind, (group_id, item_id)))
                    == Some(n@),
                None => lookup(self.graph().registered(), (item_kind, (group_id, item_id))) is None,
            },
    {
        self.graph_items.get_name(item_kind, (group_id, item_id))
    }

    /// the name of the stored graph item
    pub fn get_graph_item_name_by_item<I: GraphItemBase>(&self, item: &I) -> (r: Option<&String>)
        requires
            self.wf(),
        ensures
            match r {
                Some(n) => lookup(
                    self.graph().registered(),
                    (item.spec_kind(), (item.spec_group(), item.spec_item_id())),
                ) == Some(n@),
                None => lookup(
                    self.graph().registered(),
                    (item.spec_kind(), (item.spec_group(), item.spec_item_id())),
                ) is None,
            },
    {
        self.get_graph_item_name_by(item.get_kind(), item.get_belong_group_id(), item.get_item_id())
    }

    /// the name is bound under the kind
    pub fn is_usable_graph_item_name(&self, item_kind: GraphItemKind, name: &str) -> (r: bool)
        requires
            self.wf(),
        ensures
            r == self.graph().names().contains_key((item_kind, name@)),
    {
        self.graph_items.is_usable_name(item_kind, name)
    }

    /// the graph item has a name
    pub fn has_registered_graph_item_name(&self, item_kind: GraphItemKind, group_id: GroupId, item_id: ItemId) -> (r:
        bool)
        requires
            self.wf(),
        ensures
            r == self.graph().registered().contains_key((item_kind, (group_id, item_id))),
    {
        self.graph_items.has_registered_name(item_kind, (group_id, item_id))
    }

    /// number of graph item names in use
    pub fn count_usable_graph_item_names(&self) -> (r: usize)
        requires
            self.wf(),
        ensures
            r == self.graph().names().dom().len(),
    {
        self.graph_items.count_usable_names_all()
    }

    /// number of registered graph item names
    pub fn count_registered_graph_item_names(&self) -> (r: usize)
        requires
            self.wf(),
        ensures
            r == self.graph().registered().dom().len(),
    {
        self.graph_items.count_registered_names_all()
    }

    /// number of graph item names in use under the kind
    pub fn count_usable_graph_item_names_by(&self, item_kind: GraphItemKind) -> (r: usize)
        requires
            self.wf(),
        ensures
            r == keys_of_kind(self.graph().names(), item_kind).len(),
    {
        self.graph_items.count_usable_names_by(item_kind)
    }

    /// number of registered graph item names under the kind
    pub fn count_registered_graph_item_names_by(&self, item_kind: GraphItemKind) -> (r: usize)
        requires
            self.wf(),
        ensures
            r == keys_of_kind(self.graph().registered(), item_kind).len(),
    {
        self.graph_items.count_registered_names_by(item_kind)
    }

    //
    // for layout with graph item
    //
    /// binds the name of a layout item of a graph item
    pub fn push_graph_item_layout_value(
        &mut self,
        item_kind: GraphItemKind,
        layout_kind: WithItemLayoutKind,
        name: String,
        layout_item_id: ItemId,
    ) -> (r: Result<(), NameIdError<LayoutItemKind>>)
        requires
            old(self).wf(),
        ensures
            final(self).wf(),
            final(self).tree() == old(self).tree(),
            final(self).graph() == old(self).graph(),
            final(self).layout().names() == old(self).layout().names().insert(
                (LayoutItemKind::WithItemAttribute(item_kind, layout_kind), name@),
                layout_item_id,
            ),
            final(self).layout().registered() == old(self).layout().registered().insert(
                (LayoutItemKind::WithItemAttribute(item_kind, layout_kind), layout_item_id),
                name@,
            ),
            final(self).layout().unnamed() == old(self).layout().unnamed(),
            r is Err <==> old(self).layout().names().contains_key(
                (LayoutItemKind::WithItemAttribute(item_kind, layout_kind), name@),
            ) && old(self).layout().names()[(
                LayoutItemKind::WithItemAttribute(item_kind, layout_kind),
                name@,
            )] != layout_item_id,
            r is Err ==> is_override(
                r->Err_0,
                LayoutItemKind::WithItemAttribute(item_kind, layout_kind),
                name@,
            ),
    {
        let kind = LayoutItemKind::new_layout(item_kind, layout_kind);
        self.layout_items.insert_value_or_override(kind, Some(name), layout_item_id)
    }

    /// the id of the layout item that the name refers to
    pub fn get_graph_item_layout_id(
        &self,
        item_kind: GraphItemKind,
        layout_kind: WithItemLayoutKind,
        name: &str,
    ) -> (r: Result<ItemId, NameIdError<LayoutItemKind>>)
        requires
            self.wf(),
        ensures
            match r {
                Ok(id) => lookup(
                    self.layout().names(),
                    (LayoutItemKind::WithItemAttribute(item_kind, layout_kind), name@),
                ) == Some(id),
                Err(e) => lookup(
                    self.layout().names(),
                    (LayoutItemKind::WithItemAttribute(item_kind, layout_kind), name@),
                ) is None && is_not_exist(
                    e,
                    LayoutItemKind::WithItemAttribute(item_kind, layout_kind),
                    name@,
                ),
            },
    {
        let kind = LayoutItemKind::new_layout(item_kind, layout_kind);
        match self.layout_items.get_value(kind, name) {
            Some(id) => Ok(id),
            None => Err(NameIdError::NotExist(kind, name.to_owned())),
        }
    }

    /// the name of the layout item
    pub fn get_graph_item_layout_name_by(
        &self,
        item_kind: GraphItemKind,
        layout_kind: WithItemLayoutKind,
        item_id: ItemId,
    ) -> (r: Option<&String>)
        requires
            self.wf(),
        ensures
            match r {
                Some(n) => lookup(
                    self.layout().registered(),
                    (LayoutItemKind::WithItemAttribute(item_kind, layout_kind), item_id),
                ) == Some(n@),
                None => lookup(
                    self.layout().registered(),
                    (LayoutItemKind::WithItemAttribute(item_kind, layout_kind), item_id),
                ) is None,
            },
    {
        self.layout_items.get_name(LayoutItemKind::new_layout(item_kind, layout_kind), item_id)
    }

    /// the name of the layout item of the stored graph item
    pub fn get_graph_item_layout_name_by_item<I: GraphItemBase>(
        &self,
        layout_kind: WithItemLayoutKind,
        item: &I,
    ) -> (r: Option<&String>)
        requires
            self.wf(),
        ensures
            match r {
                Some(n) => lookup(
                    self.layout().registered(),
                    (LayoutItemKind::WithItemAttribute(item.spec_kind(), layout_kind), item.spec_item_id()),
                ) == Some(n@),
                None => lookup(
                    self.layout().registered(),
                    (LayoutItemKind::WithItemAttribute(item.spec_kind(), layout_kind), item.spec_item_id()),
                ) is None,
            },
    {
        self.get_graph_item_layout_name_by(item.get_kind(), layout_kind, item.get_item_id())
    }

    /// the layout name is bound
    pub fn is_usable_graph_item_layout_name(
        &self,
        item_kind: GraphItemKind,
        layout_kind: WithItemLayoutKind,
        name: &str,
    ) -> (r: bool)
        requires
            self.wf(),
        ensures
            r == self.layout().names().contains_key(
                (LayoutItemKind::WithItemAttribute(item_kind, layout_kind), name@),
            ),
    {
        self.layout_items.is_usable_name(LayoutItemKind::new_layout(item_kind, layout_kind), name)
    }

    /// the layout item has a name
    pub fn has_registered_graph_item_layout_name(
        &self,
        item_kind: GraphItemKind,
        layout_kind: WithItemLayoutKind,
        item_id: ItemId,
    ) -> (r: bool)
        requires
            self.wf(),
        ensures
            r == self.layout().registered().contains_key(
                (LayoutItemKind::WithItemAttribute(item_kind, layout_kind), item_id),
            ),
    {
        self.layout_items.has_registered_name(
            LayoutItemKind::new_layout(item_kind, layout_kind),
            item_id,
        )
    }

    /// number of layout names in use that belong to graph items
    pub fn count_usable_graph_item_layout_names(&self) -> (r: usize)
        requires
            self.wf(),
        ensures
            r == admitted_keys(self.layout().names(), GraphItemLayoutKinds).len(),
    {
        self.layout_items.count_usable_names_filtered_by(&GraphItemLayoutKinds)
    }

    /// number of registered layout names that belong to graph items
    pub fn count_registered_graph_item_layout_names(&self) -> (r: usize)
        requires
            self.wf(),
        ensures
            r == admitted_keys(self.layout().registered(), GraphItemLayoutKinds).len(),
    {
        self.layout_items.count_registered_names_filtered_by(&GraphItemLayoutKinds)
    }

    /// number of layout names in use of one kind
    pub fn count_usable_graph_item_layout_names_by(
        &self,
        item_kind: GraphItemKind,
        layout_kind: WithItemLayoutKind,
    ) -> (r: usize)
        requires
            self.wf(),
        ensures
            r == keys_of_kind(
                self.layout().names(),
                LayoutItemKind::WithItemAttribute(item_kind, layout_kind),
            ).len(),
    {
        self.layout_items.count_usable_names_by(LayoutItemKind::new_layout(item_kind, layout_kind))
    }

    /// number of registered layout names of one kind
    pub fn count_registered_graph_item_layout_names_by(
        &self,
        item_kind: GraphItemKind,
        layout_kind: WithItemLayoutKind,
    ) -> (r: usize)
        requires
            self.wf(),
        ensures
            r == keys_of_kind(
                self.layout().registered(),
                LayoutItemKind::WithItemAttribute(item_kind, layout_kind),
            ).len(),
    {
        self.layout_items.count_registered_names_by(
            LayoutItemKind::new_layout(item_kind, layout_kind),
        )
    }

    //
    //  for layout without graph item
    //
    /// binds the name of a standalone attribute
    pub fn push_attribute_value(
        &mut self,
        attribute_kind: AttributeKind,
        name: String,
        layout_item_id: ItemId,
    ) -> (r: Result<(), NameIdError<LayoutItemKind>>)
        requires
            old(self).wf(),
        ensures
            final(self).wf(),
            final(self).tree() == old(self).tree(),
            final(self).graph() == old(self).graph(),
            final(self).layout().names() == old(self).layout().names().insert(
                (LayoutItemKind::IsolateAttribute(attribute_kind), name@),
                layout_item_id,
            ),
            final(self).layout().registered() == old(self).layout().registered().insert(
                (LayoutItemKind::IsolateAttribute(attribute_kind), layout_item_id),
                name@,
            ),
            final(self).layout().unnamed() == old(self).layout().unnamed(),
            r is Err <==> old(self).layout().names().contains_key(
                (LayoutItemKind::IsolateAttribute(attribute_kind), name@),
            ) && old(self).layout().names()[(
                LayoutItemKind::IsolateAttribute(attribute_kind),
                name@,
            )] != layout_item_id,
            r is Err ==> is_override(
                r->Err_0,
                LayoutItemKind::IsolateAttribute(attribute_kind),
                name@,
            ),
    {
        let kind = LayoutItemKind::new_attribute(attribute_kind);
        self.layout_items.insert_value_or_override(kind, Some(name), layout_item_id)
    }

    /// the id of the attribute that the name refers to
    pub fn get_attribute_item_id(&self, attribute_kind: AttributeKind, name: &str) -> (r: Result<
        ItemId,
        NameIdError<LayoutItemKind>,
    >)
        requires
            self.wf(),
        ensures
            match r {
                Ok(id) => lookup(
                    self.layout().names(),
                    (LayoutItemKind::IsolateAttribute(attribute_kind), name@),
                ) == Some(id),
                Err(e) => lookup(
                    self.layout().names(),
                    (LayoutItemKind::IsolateAttribute(attribute_kind), name@),
                ) is None && is_not_exist(
                    e,
                    LayoutItemKind::IsolateAttribute(attribute_kind),
                    name@,
                ),
            },
    {
        let kind = LayoutItemKind::new_attribute(attribute_kind);
        match self.layout_items.get_value(kind, name) {
            Some(id) => Ok(id),
            None => Err(NameIdError::NotExist(kind, name.to_owned())),
        }
    }

    /// the name of the attribute
    pub fn get_attribute_name_by(&self, attribute_kind: AttributeKind, item_id: ItemId) -> (r:
        Option<&String>)
        requires
            self.wf(),
        ensures
            match r {
                Some(n) => lookup(
                    self.layout().registered(),
                    (LayoutItemKind::IsolateAttribute(attribute_kind), item_id),
                ) == Some(n@),
                None => lookup(
                    self.layout().registered(),
                    (LayoutItemKind::IsolateAttribute(attribute_kind), item_id),
                ) is None,
            },
    {
        self.layout_items.get_name(LayoutItemKind::new_attribute(attribute_kind), item_id)
    }

    /// the name of the stored attribute item
    pub fn get_attribute_name_by_item<I: LayoutItemBase>(&self, item: &I) -> (r: Option<&String>)
        requires
            self.wf(),
        ensures
            match r {
                Some(n) => lookup(
                    self.layout().registered(),
                    (LayoutItemKind::IsolateAttribute(item.spec_kind()), item.spec_item_id()),
                ) == Some(n@),
                None => lookup(
                    self.layout().registered(),
                    (LayoutItemKind::IsolateAttribute(item.spec_kind()), item.spec_item_id()),
                ) is None,
            },
    {
        self.get_attribute_name_by(item.get_kind(), item.get_item_id())
    }

    /// the attribute name is bound
    pub fn is_usable_attribute_name(&self, attribute_kind: AttributeKind, name: &str) -> (r: bool)
        requires
            self.wf(),
        ensures
            r == self.layout().names().contains_key(
                (LayoutItemKind::IsolateAttribute(attribute_kind), name@),
            ),
    {
        self.layout_items.is_usable_name(LayoutItemKind::new_attribute(attribute_kind), name)
    }

    /// the attribute has a name
    pub fn has_registered_attribute_name(&self, attribute_kind: AttributeKind, item_id: ItemId) -> (r:
        bool)
        requires
            self.wf(),
        ensures
            r == self.layout().registered().contains_key(
                (LayoutItemKind::IsolateAttribute(attribute_kind), item_id),
            ),
    {
        self.layout_items.has_registered_name(LayoutItemKind::new_attribute(attribute_kind), item_id)
    }

    /// number of attribute names in use
    pub fn count_usable_whole_attribute_names(&self) -> (r: usize)
        requires
            self.wf(),
        ensures
            r == admitted_keys(self.layout().names(), AttributeKinds).len(),
    {
        self.layout_items.count_usable_names_filtered_by(&AttributeKinds)
    }

    /// number of registered attribute names
    pub fn count_registered_whole_attribute_names(&self) -> (r: usize)
        requires
            self.wf(),
        ensures
            r == admitted_keys(self.layout().registered(), AttributeKinds).len(),
    {
        self.layout_items.count_registered_names_filtered_by(&AttributeKinds)
    }

    /// number of attribute names in use of one kind
    pub fn count_usable_attribute_names_by(&self, attribute_kind: AttributeKind) -> (r: usize)
        requires
            self.wf(),
        ensures
            r == keys_of_kind(
                self.layout().names(),
                LayoutItemKind::IsolateAttribute(attribute_kind),
            ).len(),
    {
        self.layout_items.count_usable_names_by(LayoutItemKind::new_attribute(attribute_kind))
    }

    /// number of registered attribute names of one kind
    pub fn count_registered_attribute_names_by(&self, attribute_kind: AttributeKind) -> (r: usize)
        requires
            self.wf(),
        ensures
            r == keys_of_kind(
                self.layout().registered(),
                LayoutItemKind::IsolateAttribute(attribute_kind),
            ).len(),
    {
        self.layout_items.count_registered_names_by(LayoutItemKind::new_attribute(attribute_kind))
    }

    /// Each total count of names adds up from its parts: graph item names
    /// from those of nodes, edges and groups; layout names from those that
    /// belong to graph items and those of standalone attributes.
    pub proof fn lemma_name_counts_add_up(&self)
        requires
            self.wf(),
        ensures
            self.graph().names().dom().len() == keys_of_kind(
                self.graph().names(),
                GraphItemKind::Node,
            ).len() + keys_of_kind(self.graph().names(), GraphItemKind::Edge).len() + keys_of_kind(
                self.graph().names(),
                GraphItemKind::Group,
            ).len(),
            self.graph().registered().dom().len() == keys_of_kind(
                self.graph().registered(),
                GraphItemKind::Node,
            ).len() + keys_of_kind(self.graph().registered(), GraphItemKind::Edge).len()
                + keys_of_kind(self.graph().registered(), GraphItemKind::Group).len(),
            self.layout().names().dom().len() == admitted_keys(
                self.layout().names(),
                GraphItemLayoutKinds,
            ).len() + admitted_keys(self.layout().names(), AttributeKinds).len(),
            self.layout().registered().dom().len() == admitted_keys(
                self.layout().registered(),
                GraphItemLayoutKinds,
            ).len() + admitted_keys(self.layout().registered(), AttributeKinds).len(),
    {
        self.graph().lemma_finite();
        self.layout().lemma_finite();
        lemma_graph_kinds_partition(self.graph().names());
        lemma_graph_kinds_partition(self.graph().registered());
        lemma_layout_kinds_partition(self.layout().names());
        lemma_layout_kinds_partition(self.layout().registered());
    }
}

} // verus!
