//! Builders: each validates user input against the resolver and yields an
//! item and the name to register, or the errors found; and the commit actions
//! that register names once an item is built.

use vstd::prelude::*;
use crate::error::{GrafoError, GroupItemError, NodeItemError};
use crate::item::{GraphItemBase, GroupItem, ItemOption, NodeItem};
use crate::kind::{GraphItemKind, GroupId, ItemId};
use crate::name_ref::NameIdError;
use crate::resolver::{Either, Resolver, ResolverError};

verus! {

/// the string views of an optional name
pub open spec fn opt_view(o: Option<String>) -> Option<Seq<char>> {
    match o {
        Some(s) => Some(s@),
        None => None,
    }
}

/// the name is given and already bound under the kind
pub open spec fn name_taken(resolver: &Resolver, kind: GraphItemKind, name: Option<String>) -> bool {
    name is Some && resolver.graph().names().contains_key((kind, name->Some_0@))
}

/// a copy of an optional name
pub(crate) fn clone_name(o: &Option<String>) -> (r: Option<String>)
    ensures
        r == *o,
{
    match o {
        Some(s) => Some(s.clone()),
        None => None,
    }
}

/// The group that a builder's group name resolves to. On failure the error
/// says why: no root without a name, an unbound name otherwise.
pub(crate) fn resolve_group_name(name: &Option<String>, resolver: &Resolver) -> (r: Result<
    GroupId,
    Either<NameIdError<GraphItemKind>, ResolverError>,
>)
    requires
        resolver.wf(),
    ensures
        match r {
            Ok(g) => resolver.belong_group_of(opt_view(*name)) == Some(g),
            Err(Either::Left(e)) => resolver.belong_group_of(opt_view(*name)) is None
                && name is Some && e == NameIdError::NotExist(GraphItemKind::Group, name->Some_0),
            Err(Either::Right(e)) => resolver.belong_group_of(opt_view(*name)) is None
                && name is None && e == ResolverError::NotInitialized,
        },
{
    match name {
        Some(n) => match resolver.get_belong_group(Some(n.as_str())) {
            Ok(g) => Ok(g),
            Err(_) => Err(Either::Left(NameIdError::NotExist(GraphItemKind::Group, n.clone()))),
        },
        None => match resolver.get_belong_group(None) {
            Ok(g) => Ok(g),
            Err(_) => Err(Either::Right(ResolverError::NotInitialized)),
        },
    }
}

/// A builder of one item kind.
pub trait HasItemBuilderMethod: Sized {
    type Item: GraphItemBase;

    /// the item and option that the builder's input yields for the item
    /// `item_id`, and the errors found, in order
    spec fn spec_build(&self, item_id: ItemId, resolver: Resolver) -> (
        Option<(Self::Item, ItemOption)>,
        Seq<GrafoError>,
    );

    /// validates the builder's input for the item `item_id`
    fn build_item(self, item_id: ItemId, resolver: &Resolver) -> (r: (
        Option<(Self::Item, ItemOption)>,
        Vec<GrafoError>,
    ))
        requires
            resolver.wf(),
        ensures
            (r.0, r.1@) == self.spec_build(item_id, *resolver),
            r.0 matches Some(p) ==> p.0.spec_item_id() == item_id,
    ;
}

/// What is done to commit a built item: register its name. The item is
/// stored only if the first part of the result is true.
pub trait CommitAction {
    /// the verdict and the errors for committing the item (kind, group_id,
    /// item_id) with `option` against `resolver`
    spec fn spec_commit(
        &self,
        resolver: Resolver,
        kind: GraphItemKind,
        group_id: GroupId,
        item_id: ItemId,
        option: ItemOption,
    ) -> (bool, Seq<GrafoError>);

    /// how committing changes the resolver from `before` to `after`
    spec fn spec_effect(
        &self,
        before: Resolver,
        after: Resolver,
        kind: GraphItemKind,
        group_id: GroupId,
        item_id: ItemId,
        option: ItemOption,
    ) -> bool;

    fn commit(
        self,
        resolver: &mut Resolver,
        kind: GraphItemKind,
        group_id: GroupId,
        item_id: ItemId,
        option: ItemOption,
    ) -> (r: (bool, Vec<GrafoError>))
        requires
            old(resolver).wf(),
        ensures
            final(resolver).wf(),
            (r.0, r.1@) == self.spec_commit(*old(resolver), kind, group_id, item_id, option),
            self.spec_effect(*old(resolver), *final(resolver), kind, group_id, item_id, option),
    ;
}

/// a group item cannot enter the hierarchy as `item_id` under `group_id`
pub open spec fn hierarchy_refuses(
    resolver: &Resolver,
    kind: GraphItemKind,
    group_id: GroupId,
    item_id: ItemId,
) -> bool {
    kind == GraphItemKind::Group && (resolver.tree().root() is None
        || !resolver.tree().groups().contains(group_id) || resolver.tree().groups().contains(
        item_id,
    ))
}

/// why the hierarchy refuses `item_id` under `group_id`
pub open spec fn hierarchy_error(resolver: &Resolver, group_id: GroupId, item_id: ItemId) -> ResolverError {
    if resolver.tree().root() is None {
        ResolverError::NotInitialized
    } else if !resolver.tree().groups().contains(group_id) {
        ResolverError::NotFindParentId(group_id)
    } else {
        ResolverError::AlreadyExistId(item_id)
    }
}

/// binding `name` to `value` under `kind` replaces a binding to another value
pub open spec fn overrides(
    resolver: &Resolver,
    kind: GraphItemKind,
    name: Seq<char>,
    value: (GroupId, ItemId),
) -> bool {
    resolver.graph().names().contains_key((kind, name)) && resolver.graph().names()[(kind, name)]
        != value
}

/// Registers the item's name, and for a group its place in the hierarchy.
/// With `accept_override` an item whose name overrides another is still
/// committed; the override is reported either way.
#[derive(Debug, Clone, Copy, PartialEq, Eq, Structural)]
pub struct NameRegistration {
    pub accept_override: bool,
}

impl NameRegistration {
    /// the verdict and errors of registering the item
    pub open spec fn outcome(
        &self,
        resolver: &Resolver,
        kind: GraphItemKind,
        group_id: GroupId,
        item_id: ItemId,
        option: ItemOption,
    ) -> (bool, Seq<GrafoError>) {
        if hierarchy_refuses(resolver, kind, group_id, item_id) {
            (false, seq![GrafoError::ResolverError(hierarchy_error(resolver, group_id, item_id))])
        } else {
            match option.name {
                Some(n) => if overrides(resolver, kind, n@, (group_id, item_id)) {
                    (
                        self.accept_override,
                        seq![GrafoError::NameIdError(NameIdError::Override(kind, n))],
                    )
                } else {
                    (true, Seq::empty())
                },
                None => (true, Seq::empty()),
            }
        }
    }

    /// what registering the item does to the resolver
    pub open spec fn effect(
        &self,
        before: &Resolver,
        after: &Resolver,
        kind: GraphItemKind,
        group_id: GroupId,
        item_id: ItemId,
        option: ItemOption,
    ) -> bool {
        &&& after.layout() == before.layout()
        &&& if hierarchy_refuses(before, kind, group_id, item_id) {
            after.graph() == before.graph() && after.tree() == before.tree()
        } else {
            &&& kind != GraphItemKind::Group ==> after.tree() == before.tree()
            &&& kind == GraphItemKind::Group ==> {
                &&& after.tree().groups() == before.tree().groups().insert(item_id)
                &&& after.tree().root() == before.tree().root()
                &&& after.tree().ancestors(item_id) == seq![group_id].add(
                    before.tree().ancestors(group_id),
                )
            }
            &&& match option.name {
                Some(n) => {
                    &&& after.graph().names() == before.graph().names().insert(
                        (kind, n@),
                        (group_id, item_id),
                    )
                    &&& after.graph().registered() == before.graph().registered().insert(
                        (kind, (group_id, item_id)),
                        n@,
                    )
                    &&& after.graph().unnamed() == before.graph().unnamed()
                },
                None => {
                    &&& after.graph().names() == before.graph().names()
                    &&& after.graph().registered() == before.graph().registered()
                    &&& after.graph().unnamed() == before.graph().unnamed().insert(
                        (kind, (group_id, item_id)),
                    )
                },
            }
        }
    }

    /// Registers the name of the item (kind, group_id, item_id).
    pub fn register(
        &self,
        resolver: &mut Resolver,
        kind: GraphItemKind,
        group_id: GroupId,
        item_id: ItemId,
        option: ItemOption,
    ) -> (r: (bool, Vec<GrafoError>))
        requires
            old(resolver).wf(),
        ensures
            final(resolver).wf(),
            (r.0, r.1@) == self.outcome(old(resolver), kind, group_id, item_id, option),
            self.effect(old(resolver), final(resolver), kind, group_id, item_id, option),
    {
        let mut errors: Vec<GrafoError> = Vec::new();
        if kind == GraphItemKind::Group {
            match resolver.insert_group(group_id, item_id) {
                Ok(()) => {},
                Err(e) => {
                    errors.push(GrafoError::ResolverError(e));
                    proof {
                        assert(errors@ =~= seq![GrafoError::ResolverError(hierarchy_error(old(resolver), group_id, item_id))]);
                    }
                    return (false, errors);
                },
            }
        }
        match option.name {
            Some(n) => {
                match resolver.push_graph_item_value_or_override(kind, n, group_id, item_id) {
                    Ok(()) => {
                        proof {
                            assert(errors@ =~= Seq::<GrafoError>::empty());
                        }
                        (true, errors)
                    },
                    Err(e) => {
                        errors.push(GrafoError::NameIdError(e));
                        proof {
                            assert(errors@ =~= seq![GrafoError::NameIdError(e)]);
                        }
                        (self.accept_override, errors)
                    },
                }
            },
            None => {
                resolver.push_graph_item_without_name(kind, group_id, item_id);
                proof {
                    assert(errors@ =~= Seq::<GrafoError>::empty());
                }
                (true, errors)
            },
        }
    }
}

impl CommitAction for NameRegistration {
    open spec fn spec_commit(
        &self,
        resolver: Resolver,
        kind: GraphItemKind,
        group_id: GroupId,
        item_id: ItemId,
        option: ItemOption,
    ) -> (bool, Seq<GrafoError>) {
        self.outcome(&resolver, kind, group_id, item_id, option)
    }

    open spec fn spec_effect(
        &self,
        before: Resolver,
        after: Resolver,
        kind: GraphItemKind,
        group_id: GroupId,
        item_id: ItemId,
        option: ItemOption,
    ) -> bool {
        self.effect(&before, &after, kind, group_id, item_id, option)
    }

    fn commit(
        self,
        resolver: &mut Resolver,
        kind: GraphItemKind,
        group_id: GroupId,
        item_id: ItemId,
        option: ItemOption,
    ) -> (r: (bool, Vec<GrafoError>)) {
        self.register(resolver, kind, group_id, item_id, option)
    }
}

/// builder of a node item
#[derive(Debug, Clone)]
pub struct NodeItemBuilder {
    belong_group: Option<String>,
    name: Option<String>,
}

impl NodeItemBuilder {
    /// the name of the group given
    pub closed spec fn group_name(&self) -> Option<String> {
        self.belong_group
    }

    /// the item's own name given
    pub closed spec fn item_name(&self) -> Option<String> {
        self.name
    }

    pub fn new() -> (r: Self)
        ensures
            r.group_name() is None,
            r.item_name() is None,
    {
        NodeItemBuilder { belong_group: None, name: None }
    }

    /// sets the name of the group the node belongs to
    pub fn set_belong_group(&mut self, group: &str)
        ensures
            final(self).group_name() is Some && final(self).group_name()->Some_0@ == group@,
            final(self).item_name() == old(self).item_name(),
    {
        self.belong_group = Some(group.to_owned());
    }

    /// sets the node's name
    pub fn set_name(&mut self, name: &str)
        ensures
            final(self).item_name() is Some && final(self).item_name()->Some_0@ == name@,
            final(self).group_name() == old(self).group_name(),
    {
        self.name = Some(name.to_owned());
    }

    /// the node and option that the input yields for the item `item_id`,
    /// and the errors found: why the group did not resolve, then a name
    /// already in use
    pub open spec fn spec_result(&self, item_id: ItemId, resolver: &Resolver) -> (
        Option<(NodeItem, ItemOption)>,
        Seq<GrafoError>,
    ) {
        let bg = resolver.belong_group_of(opt_view(self.group_name()));
        let group_errors: Seq<GrafoError> = match bg {
            Some(_) => Seq::empty(),
            None => match self.group_name() {
                None => seq![GrafoError::ResolverError(ResolverError::NotInitialized)],
                Some(n) => seq![
                    GrafoError::NodeItemError(NodeItemError::NameIdError(
                        item_id,
                        NameIdError::NotExist(GraphItemKind::Group, n),
                    )),
                ],
            }.push(GrafoError::NodeItemError(NodeItemError::FailResolveBelongGroup(item_id))),
        };
        let name_errors: Seq<GrafoError> = if name_taken(resolver, GraphItemKind::Node, self.item_name()) {
            seq![
                GrafoError::NodeItemError(
                    NodeItemError::NameIdError(
                        item_id,
                        NameIdError::AlreadyExist(GraphItemKind::Node, self.item_name()->Some_0),
                    ),
                ),
            ]
        } else {
            Seq::empty()
        };
        (
            match bg {
                Some(g) => Some(
                    (NodeItem { belong_group_id: g, item_id }, ItemOption { name: self.item_name() }),
                ),
                None => None,
            },
            group_errors.add(name_errors),
        )
    }

    /// Resolves the node's group and checks its name. The node is built
    /// when the group resolves; a name already in use is reported, last.
    pub fn build(self, item_id: ItemId, resolver: &Resolver) -> (r: (
        Option<(NodeItem, ItemOption)>,
        Vec<GrafoError>,
    ))
        requires
            resolver.wf(),
        ensures
            (r.0, r.1@) == self.spec_result(item_id, resolver),
    {
        let ghost spec = self.spec_result(item_id, resolver);
        let mut errors: Vec<GrafoError> = Vec::new();
        let group = match resolve_group_name(&self.belong_group, resolver) {
            Ok(g) => Some(g),
            Err(Either::Left(e)) => {
                errors.push(GrafoError::NodeItemError(NodeItemError::NameIdError(item_id, e)));
                None
            },
            Err(Either::Right(e)) => {
                errors.push(GrafoError::ResolverError(e));
                None
            },
        };
        let item = match group {
            Some(g) => Some(NodeItem::new(g, item_id)),
            None => {
                errors.push(
                    GrafoError::NodeItemError(NodeItemError::FailResolveBelongGroup(item_id)),
                );
                None
            },
        };
        let ghost group_errors = errors@;
        if let Some(n) = &self.name {
            if resolver.is_usable_graph_item_name(GraphItemKind::Node, n.as_str()) {
                errors.push(
                    GrafoError::NodeItemError(
                        NodeItemError::NameIdError(
                            item_id,
                            NameIdError::AlreadyExist(GraphItemKind::Node, n.clone()),
                        ),
                    ),
                );
            }
        }
        proof {
            assert(errors@ =~= spec.1);
        }
        let option = ItemOption { name: self.name };
        match item {
            Some(i) => (Some((i, option)), errors),
            None => (None, errors),
        }
    }
}

impl HasItemBuilderMethod for NodeItemBuilder {
    type Item = NodeItem;

    open spec fn spec_build(&self, item_id: ItemId, resolver: Resolver) -> (
        Option<(NodeItem, ItemOption)>,
        Seq<GrafoError>,
    ) {
        self.spec_result(item_id, &resolver)
    }

    fn build_item(self, item_id: ItemId, resolver: &Resolver) -> (r: (
        Option<(NodeItem, ItemOption)>,
        Vec<GrafoError>,
    )) {
        self.build(item_id, resolver)
    }
}

/// builder of a group item: a group nested in its parent group
#[derive(Debug, Clone)]
pub struct GroupItemBuilder {
    belong_group: Option<String>,
    name: Option<String>,
}

impl GroupItemBuilder {
    /// the name of the parent group given
    pub closed spec fn group_name(&self) -> Option<String> {
        self.belong_group
    }

    /// the group's own name given
    pub closed spec fn item_name(&self) -> Option<String> {
        self.name
    }

    pub fn new() -> (r: Self)
        ensures
            r.group_name() is None,
            r.item_name() is None,
    {
        GroupItemBuilder { belong_group: None, name: None }
    }

    /// sets the name of the parent group
    pub fn set_belong_group(&mut self, group: &str)
        ensures
            final(self).group_name() is Some && final(self).group_name()->Some_0@ == group@,
            final(self).item_name() == old(self).item_name(),
    {
        self.belong_group = Some(group.to_owned());
    }

    /// sets the group's name
    pub fn set_name(&mut self, name: &str)
        ensures
            final(self).item_name() is Some && final(self).item_name()->Some_0@ == name@,
            final(self).group_name() == old(self).group_name(),
    {
        self.name = Some(name.to_owned());
    }

    /// the group and option that the input yields for the item `item_id`,
    /// and the errors found: why the group did not resolve, then a name
    /// already in use
    pub open spec fn spec_result(&self, item_id: ItemId, resolver: &Resolver) -> (
        Option<(GroupItem, ItemOption)>,
        Seq<GrafoError>,
    ) {
        let bg = resolver.belong_group_of(opt_view(self.group_name()));
        let group_errors: Seq<GrafoError> = match bg {
            Some(_) => Seq::empty(),
            None => match self.group_name() {
                None => seq![GrafoError::ResolverError(ResolverError::NotInitialized)],
                Some(n) => seq![
                    GrafoError::GroupItemError(GroupItemError::NameIdError(
                        item_id,
                        NameIdError::NotExist(GraphItemKind::Group, n),
                    )),
                ],
            }.push(GrafoError::GroupItemError(GroupItemError::FailResolveBelongGroup(item_id))),
        };
        let name_errors: Seq<GrafoError> = if name_taken(resolver, GraphItemKind::Group, self.item_name()) {
            seq![
                GrafoError::GroupItemError(
                    GroupItemError::NameIdError(
                        item_id,
                        NameIdError::AlreadyExist(GraphItemKind::Group, self.item_name()->Some_0),
                    ),
                ),
            ]
        } else {
            Seq::empty()
        };
        (
            match bg {
                Some(g) => Some(
                    (GroupItem { belong_group_id: g, item_id }, ItemOption { name: self.item_name() }),
                ),
                None => None,
            },
            group_errors.add(name_errors),
        )
    }

    /// Resolves the group's group and checks its name. The group is built
    /// when the group resolves; a name already in use is reported, last.
    pub fn build(self, item_id: ItemId, resolver: &Resolver) -> (r: (
        Option<(GroupItem, ItemOption)>,
        Vec<GrafoError>,
    ))
        requires
            resolver.wf(),
        ensures
            (r.0, r.1@) == self.spec_result(item_id, resolver),
    {
        let ghost spec = self.spec_result(item_id, resolver);
        let mut errors: Vec<GrafoError> = Vec::new();
        let group = match resolve_group_name(&self.belong_group, resolver) {
            Ok(g) => Some(g),
            Err(Either::Left(e)) => {
                errors.push(GrafoError::GroupItemError(GroupItemError::NameIdError(item_id, e)));
                None
            },
            Err(Either::Right(e)) => {
                errors.push(GrafoError::ResolverError(e));
                None
            },
        };
        let item = match group {
            Some(g) => Some(GroupItem::new(g, item_id)),
            None => {
                errors.push(
                    GrafoError::GroupItemError(GroupItemError::FailResolveBelongGroup(item_id)),
                );
                None
            },
        };
        let ghost group_errors = errors@;
        if let Some(n) = &self.name {
            if resolver.is_usable_graph_item_name(GraphItemKind::Group, n.as_str()) {
                errors.push(
                    GrafoError::GroupItemError(
                        GroupItemError::NameIdError(
                            item_id,
                            NameIdError::AlreadyExist(GraphItemKind::Group, n.clone()),
                        ),
                    ),
                );
            }
        }
        proof {
            assert(errors@ =~= spec.1);
        }
        let option = ItemOption { name: self.name };
        match item {
            Some(i) => (Some((i, option)), errors),
            None => (None, errors),
        }
    }
}

impl HasItemBuilderMethod for GroupItemBuilder {
    type Item = GroupItem;

    open spec fn spec_build(&self, item_id: ItemId, resolver: Resolver) -> (
        Option<(GroupItem, ItemOption)>,
        Seq<GrafoError>,
    ) {
        self.spec_result(item_id, &resolver)
    }

    fn build_item(self, item_id: ItemId, resolver: &Resolver) -> (r: (
        Option<(GroupItem, ItemOption)>,
        Vec<GrafoError>,
    )) {
        self.build(item_id, resolver)
    }
}

} // verus!
