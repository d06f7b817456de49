//! Builder of edge items: the most constrained kind. An edge belongs to a
//! group at or above the groups of both its endpoints, and may not name its
//! own group or one of that group's ancestors as an endpoint.

use vstd::prelude::*;
use crate::builder::{clone_name, name_taken, opt_view, resolve_group_name, HasItemBuilderMethod};
use crate::error::{EdgeItemError, GrafoError};
use crate::item::{EdgeItem, EdgeItemStyle, Endpoint, ItemOption};
use crate::kind::{GraphItemKind, GroupId, ItemId};
use crate::name_ref::{lookup, NameIdError};
use crate::resolver::{Either, Resolver, ResolverError};

verus! {

/// the endpoint's group `id` may not be used by an edge of group `group_id`
pub open spec fn group_endpoint_forbidden(resolver: &Resolver, group_id: GroupId, id: GroupId) -> bool {
    id == group_id || !resolver.tree().groups().contains(group_id) || resolver.tree().ancestors(
        group_id,
    ).contains(id)
}

/// the endpoint that `endpoint` resolves to for an edge of group `group_id`
pub open spec fn endpoint_of(
    resolver: &Resolver,
    group_id: GroupId,
    endpoint: Option<(GraphItemKind, String)>,
) -> Option<Endpoint> {
    match endpoint {
        None => None,
        Some(p) => match lookup(resolver.graph().names(), (p.0, p.1@)) {
            None => None,
            Some(pair) => if p.0 == GraphItemKind::Group && group_endpoint_forbidden(
                resolver,
                group_id,
                pair.1,
            ) {
                None
            } else {
                Some(Endpoint { kind: p.0, belong_group_id: pair.0, item_id: pair.1 })
            },
        },
    }
}

/// the style of an edge; a line unless given
pub open spec fn style_or_default(style: Option<EdgeItemStyle>) -> EdgeItemStyle {
    match style {
        Some(s) => s,
        None => EdgeItemStyle::Line,
    }
}

/// builder of an edge item
#[derive(Debug, Clone)]
pub struct EdgeItemBuilder {
    belong_group: Option<String>,
    name: Option<String>,
    label: Option<String>,
    style: Option<EdgeItemStyle>,
    start: Option<(GraphItemKind, String)>,
    end: Option<(GraphItemKind, String)>,
}

impl EdgeItemBuilder {
    pub closed spec fn group_name(&self) -> Option<String> {
        self.belong_group
    }

    pub closed spec fn item_name(&self) -> Option<String> {
        self.name
    }

    pub closed spec fn label_of(&self) -> Option<String> {
        self.label
    }

    pub closed spec fn style_of(&self) -> Option<EdgeItemStyle> {
        self.style
    }

    pub closed spec fn start_of(&self) -> Option<(GraphItemKind, String)> {
        self.start
    }

    pub closed spec fn end_of(&self) -> Option<(GraphItemKind, String)> {
        self.end
    }

    /// the edge that the builder's input resolves to
    pub open spec fn edge_of(&self, resolver: &Resolver, item_id: ItemId) -> Option<EdgeItem> {
        match resolver.belong_group_of(opt_view(self.group_name())) {
            None => None,
            Some(g) => match (
                endpoint_of(resolver, g, self.start_of()),
                endpoint_of(resolver, g, self.end_of()),
            ) {
                (Some(s), Some(e)) => if resolver.is_at_or_above(g, s.belong_group_id)
                    && resolver.is_at_or_above(g, e.belong_group_id) {
                    Some(
                        EdgeItem {
                            belong_group_id: g,
                            item_id,
                            start: s,
                            end: e,
                            label: self.label_of(),
                            style: style_or_default(self.style_of()),
                        },
                    )
                } else {
                    None
                },
                _ => None,
            },
        }
    }

    /// initializer
    pub fn new() -> (r: Self)
        ensures
            r.group_name() is None,
            r.item_name() is None,
            r.label_of() is None,
            r.style_of() is None,
            r.start_of() is None,
            r.end_of() is None,
    {
        EdgeItemBuilder {
            belong_group: None,
            name: None,
            label: None,
            style: None,
            start: None,
            end: None,
        }
    }

    /// sets the name of the group the edge belongs to
    pub fn set_belong_group(&mut self, group: &str)
        ensures
            final(self).group_name() is Some && final(self).group_name()->Some_0@ == group@,
            final(self).item_name() == old(self).item_name(),
            final(self).label_of() == old(self).label_of(),
            final(self).style_of() == old(self).style_of(),
            final(self).start_of() == old(self).start_of(),
            final(self).end_of() == old(self).end_of(),
    {
        self.belong_group = Some(group.to_owned());
    }

    /// sets the edge's name
    pub fn set_name(&mut self, name: &str)
        ensures
            final(self).item_name() is Some && final(self).item_name()->Some_0@ == name@,
            final(self).group_name() == old(self).group_name(),
            final(self).label_of() == old(self).label_of(),
            final(self).style_of() == old(self).style_of(),
            final(self).start_of() == old(self).start_of(),
            final(self).end_of() == old(self).end_of(),
    {
        self.name = Some(name.to_owned());
    }

    /// sets the edge's label
    pub fn set_label(&mut self, label: &str)
        ensures
            final(self).label_of() is Some && final(self).label_of()->Some_0@ == label@,
            final(self).group_name() == old(self).group_name(),
            final(self).item_name() == old(self).item_name(),
            final(self).style_of() == old(self).style_of(),
            final(self).start_of() == old(self).start_of(),
            final(self).end_of() == old(self).end_of(),
    {
        self.label = Some(label.to_owned());
    }

    /// sets the edge's style
    pub fn set_item_style(&mut self, style: EdgeItemStyle)
        ensures
            final(self).style_of() == Some(style),
            final(self).group_name() == old(self).group_name(),
            final(self).item_name() == old(self).item_name(),
            final(self).label_of() == old(self).label_of(),
            final(self).start_of() == old(self).start_of(),
            final(self).end_of() == old(self).end_of(),
    {
        self.style = Some(style);
    }

    /// sets the start endpoint: an item of `kind` named `name`
    pub fn set_start_endpoint(&mut self, kind: GraphItemKind, name: &str)
        ensures
            final(self).start_of() is Some && final(self).start_of()->Some_0.0 == kind && final(self).start_of()->Some_0.1@ == name@,
            final(self).group_name() == old(self).group_name(),
            final(self).item_name() == old(self).item_name(),
            final(self).label_of() == old(self).label_of(),
            final(self).style_of() == old(self).style_of(),
            final(self).end_of() == old(self).end_of(),
    {
        self.start = Some((kind, name.to_owned()));
    }

    /// sets the end endpoint: an item of `kind` named `name`
    pub fn set_end_endpoint(&mut self, kind: GraphItemKind, name: &str)
        ensures
            final(self).end_of() is Some && final(self).end_of()->Some_0.0 == kind && final(self).end_of()->Some_0.1@ == name@,
            final(self).group_name() == old(self).group_name(),
            final(self).item_name() == old(self).item_name(),
            final(self).label_of() == old(self).label_of(),
            final(self).style_of() == old(self).style_of(),
            final(self).start_of() == old(self).start_of(),
    {
        self.end = Some((kind, name.to_owned()));
    }
}

/// `x` is among the ids
pub fn vec_contains(v: &Vec<GroupId>, x: GroupId) -> (r: bool)
    ensures
        r == v@.contains(x),
{
    let mut i: usize = 0;
    while i < v.len()
        invariant
            i <= v@.len(),
            forall|j: int| 0 <= j < i ==> v@[j] != x,
        decreases v@.len() - i,
    {
        if v[i] == x {
            proof {
                assert(v@[i as int] == x);
            }
            return true;
        }
        i += 1;
    }
    false
}

/// `a` is `g` or one of the ancestors of `g`
fn at_or_above(resolver: &Resolver, a: GroupId, g: GroupId) -> (r: bool)
    requires
        resolver.wf(),
    ensures
        r == resolver.is_at_or_above(a, g),
{
    if a == g {
        return true;
    }
    match resolver.get_ancestor_ids(g) {
        Some(v) => vec_contains(&v, a),
        None => false,
    }
}

/// why an endpoint of an edge of group `group_id` did not resolve: not given,
/// not bound, or a group the edge may not use
pub open spec fn endpoint_errors(
    resolver: &Resolver,
    group_id: GroupId,
    item_id: ItemId,
    name: Option<String>,
    endpoint: Option<(GraphItemKind, String)>,
    is_start: bool,
) -> Seq<GrafoError> {
    match endpoint {
        None => seq![
            GrafoError::EdgeItemError(
                if is_start {
                    EdgeItemError::NotSpecifyStartEndpoint(item_id, name, None)
                } else {
                    EdgeItemError::NotSpecifyEndEndpoint(item_id, name, None)
                },
            ),
        ],
        Some(p) => match lookup(resolver.graph().names(), (p.0, p.1@)) {
            None => seq![
                GrafoError::EdgeItemError(
                    EdgeItemError::NameIdError(item_id, name, NameIdError::NotExist(p.0, p.1)),
                ),
            ],
            Some(pair) => if p.0 != GraphItemKind::Group || pair.1 != group_id && resolver.tree().groups().contains(group_id)
                && !resolver.tree().ancestors(group_id).contains(pair.1) {
                Seq::empty()
            } else if pair.1 != group_id && !resolver.tree().groups().contains(group_id) {
                seq![
                    GrafoError::EdgeItemError(
                        EdgeItemError::NameIdError(
                            item_id,
                            name,
                            NameIdError::NotExist(GraphItemKind::Group, p.1),
                        ),
                    ),
                    GrafoError::EdgeItemError(
                        EdgeItemError::CannotSpecifyBelongGroupAsEndpoint(item_id, name, p.1),
                    ),
                ]
            } else {
                seq![
                    GrafoError::EdgeItemError(
                        EdgeItemError::CannotSpecifyBelongGroupAsEndpoint(item_id, name, p.1),
                    ),
                ]
            },
        },
    }
}

impl EdgeItemBuilder {
    /// why the edge's group did not resolve, if it did not
    pub open spec fn group_errors(&self, resolver: &Resolver, item_id: ItemId) -> Seq<GrafoError> {
        match resolver.belong_group_of(opt_view(self.group_name())) {
            Some(_) => Seq::empty(),
            None => match self.group_name() {
                None => seq![
                    GrafoError::EdgeItemError(
                        EdgeItemError::ResolverError(
                            item_id,
                            self.item_name(),
                            ResolverError::NotInitialized,
                        ),
                    ),
                ],
                Some(n) => seq![
                    GrafoError::EdgeItemError(
                        EdgeItemError::NameIdError(
                            item_id,
                            self.item_name(),
                            NameIdError::NotExist(GraphItemKind::Group, n),
                        ),
                    ),
                ],
            },
        }
    }

    /// why the endpoints did not resolve; nothing when the group did not resolve
    pub open spec fn endpoints_errors(&self, resolver: &Resolver, item_id: ItemId) -> Seq<GrafoError> {
        match resolver.belong_group_of(opt_view(self.group_name())) {
            None => Seq::empty(),
            Some(g) => endpoint_errors(
                resolver,
                g,
                item_id,
                self.item_name(),
                self.start_of(),
                true,
            ).add(endpoint_errors(resolver, g, item_id, self.item_name(), self.end_of(), false)),
        }
    }

    /// why the edge could not be made of its resolved parts
    pub open spec fn combine_errors(&self, resolver: &Resolver, item_id: ItemId) -> Seq<GrafoError> {
        match resolver.belong_group_of(opt_view(self.group_name())) {
            None => seq![
                GrafoError::EdgeItemError(
                    EdgeItemError::FailResolveBelongGroup(
                        item_id,
                        self.item_name(),
                        self.group_name(),
                    ),
                ),
            ],
            Some(g) => match (
                endpoint_of(resolver, g, self.start_of()),
                endpoint_of(resolver, g, self.end_of()),
            ) {
                (Some(s), Some(e)) => if resolver.is_at_or_above(g, s.belong_group_id)
                    && resolver.is_at_or_above(g, e.belong_group_id) {
                    Seq::empty()
                } else {
                    seq![
                        GrafoError::EdgeItemError(
                            EdgeItemError::InappropriateGroup(
                                item_id,
                                self.item_name(),
                                self.group_name(),
                            ),
                        ),
                    ]
                },
                (None, None) => seq![
                    GrafoError::EdgeItemError(
                        EdgeItemError::FailResolveStartEndpoint(
                            item_id,
                            self.item_name(),
                            self.start_of(),
                        ),
                    ),
                    GrafoError::EdgeItemError(
                        EdgeItemError::FailResolveEndEndpoint(item_id, self.item_name(), self.end_of()),
                    ),
                ],
                (None, Some(_)) => seq![
                    GrafoError::EdgeItemError(
                        EdgeItemError::FailResolveStartEndpoint(
                            item_id,
                            self.item_name(),
                            self.start_of(),
                        ),
                    ),
                ],
                (Some(_), None) => seq![
                    GrafoError::EdgeItemError(
                        EdgeItemError::FailResolveEndEndpoint(item_id, self.item_name(), self.end_of()),
                    ),
                ],
            },
        }
    }

    /// the report of a name already in use, if it is
    pub open spec fn name_errors(&self, resolver: &Resolver, item_id: ItemId) -> Seq<GrafoError> {
        if name_taken(resolver, GraphItemKind::Edge, self.item_name()) {
            seq![
                GrafoError::EdgeItemError(
                    EdgeItemError::NameIdError(
                        item_id,
                        self.item_name(),
                        NameIdError::AlreadyExist(GraphItemKind::Edge, self.item_name()->Some_0),
                    ),
                ),
            ]
        } else {
            Seq::empty()
        }
    }

    /// the edge and option that the input yields for the item `item_id`, and
    /// every error found, in the order of the stages
    pub open spec fn spec_result(&self, item_id: ItemId, resolver: &Resolver) -> (
        Option<(EdgeItem, ItemOption)>,
        Seq<GrafoError>,
    ) {
        (
            match self.edge_of(resolver, item_id) {
                Some(e) => Some((e, ItemOption { name: self.item_name() })),
                None => None,
            },
            self.group_errors(resolver, item_id).add(self.endpoints_errors(resolver, item_id)).add(
                self.combine_errors(resolver, item_id),
            ).add(self.name_errors(resolver, item_id)),
        )
    }

    /// resolves the edge's group; on failure records why
    fn resolve_belong_group(&self, item_id: ItemId, resolver: &Resolver, errors: &mut Vec<GrafoError>) -> (r:
        Option<GroupId>)
        requires
            resolver.wf(),
        ensures
            r == resolver.belong_group_of(opt_view(self.group_name())),
            final(errors)@ == old(errors)@.add(self.group_errors(resolver, item_id)),
    {
        let ghost e0 = errors@;
        match resolve_group_name(&self.belong_group, resolver) {
            Ok(group) => {
                proof {
                    assert(errors@ =~= e0.add(Seq::<GrafoError>::empty()));
                }
                Some(group)
            },
            Err(Either::Left(e)) => {
                errors.push(
                    GrafoError::EdgeItemError(
                        EdgeItemError::NameIdError(item_id, clone_name(&self.name), e),
                    ),
                );
                proof {
                    assert(errors@ =~= e0.add(self.group_errors(resolver, item_id)));
                }
                None
            },
            Err(Either::Right(e)) => {
                errors.push(
                    GrafoError::EdgeItemError(
                        EdgeItemError::ResolverError(item_id, clone_name(&self.name), e),
                    ),
                );
                proof {
                    assert(errors@ =~= e0.add(self.group_errors(resolver, item_id)));
                }
                None
            },
        }
    }

    /// resolves one endpoint of an edge of group `group_id`; on failure records why
    fn resolve_endpoint(
        &self,
        group_id: GroupId,
        item_id: ItemId,
        endpoint: &Option<(GraphItemKind, String)>,
        resolver: &Resolver,
        errors: &mut Vec<GrafoError>,
        is_start: bool,
    ) -> (r: Option<Endpoint>)
        requires
            resolver.wf(),
        ensures
            r == endpoint_of(resolver, group_id, *endpoint),
            final(errors)@ == old(errors)@.add(
                endpoint_errors(resolver, group_id, item_id, self.item_name(), *endpoint, is_start),
            ),
    {
        let ghost e0 = errors@;
        let ghost expected = endpoint_errors(resolver, group_id, item_id, self.item_name(), *endpoint, is_start);
        let r = match endpoint {
            Some((kind, name)) => {
                match resolver.get_graph_item_id_pair(*kind, name.as_str()) {
                    Ok((endpoint_group_id, endpoint_item_id)) => {
                        if *kind == GraphItemKind::Group {
                            let mut cannot_specify = group_id == endpoint_item_id;
                            if !cannot_specify {
                                if resolver.contains_group(group_id) {
                                    cannot_specify = at_or_above(resolver, endpoint_item_id, group_id);
                                } else {
                                    // the edge's group is not in the hierarchy
                                    errors.push(
                                        GrafoError::EdgeItemError(
                                            EdgeItemError::NameIdError(
                                                item_id,
                                                clone_name(&self.name),
                                                NameIdError::NotExist(GraphItemKind::Group, name.clone()),
                                            ),
                                        ),
                                    );
                                    cannot_specify = true;
                                }
                            }
                            if cannot_specify {
                                errors.push(
                                    GrafoError::EdgeItemError(
                                        EdgeItemError::CannotSpecifyBelongGroupAsEndpoint(
                                            item_id,
                                            clone_name(&self.name),
                                            name.clone(),
                                        ),
                                    ),
                                );
                                None
                            } else {
                                Some(Endpoint::new(*kind, endpoint_group_id, endpoint_item_id))
                            }
                        } else {
                            Some(Endpoint::new(*kind, endpoint_group_id, endpoint_item_id))
                        }
                    },
                    Err(_) => {
                        errors.push(
                            GrafoError::EdgeItemError(
                                EdgeItemError::NameIdError(
                                    item_id,
                                    clone_name(&self.name),
                                    NameIdError::NotExist(*kind, name.clone()),
                                ),
                            ),
                        );
                        None
                    },
                }
            },
            None => {
                let e = if is_start {
                    EdgeItemError::NotSpecifyStartEndpoint(item_id, clone_name(&self.name), None)
                } else {
                    EdgeItemError::NotSpecifyEndEndpoint(item_id, clone_name(&self.name), None)
                };
                errors.push(GrafoError::EdgeItemError(e));
                None
            },
        };
        proof {
            assert(errors@ =~= e0.add(expected));
        }
        r
    }

    /// Combines the resolved group and endpoints into the edge, checks that
    /// the group is at or above both endpoints' groups, and checks the name.
    fn resolve_item(
        self,
        item_id: ItemId,
        resolver: &Resolver,
        errors: &mut Vec<GrafoError>,
        resolved_belong_group: Option<GroupId>,
        resolved_start: Option<Endpoint>,
        resolved_end: Option<Endpoint>,
    ) -> (r: (Option<EdgeItem>, ItemOption))
        requires
            resolver.wf(),
            resolved_belong_group == resolver.belong_group_of(opt_view(self.group_name())),
            resolved_belong_group matches Some(g) ==> resolved_start == endpoint_of(
                resolver,
                g,
                self.start_of(),
            ) && resolved_end == endpoint_of(resolver, g, self.end_of()),
        ensures
            r.0 == self.edge_of(resolver, item_id),
            r.1 == (ItemOption { name: self.item_name() }),
            final(errors)@ == old(errors)@.add(self.combine_errors(resolver, item_id)).add(
                self.name_errors(resolver, item_id),
            ),
    {
        let ghost b = self;
        let ghost e0 = errors@;
        let EdgeItemBuilder { belong_group, name, label, style, start, end } = self;
        let item = match (resolved_belong_group, resolved_start, resolved_end) {
            (None, _, _) => {
                errors.push(
                    GrafoError::EdgeItemError(
                        EdgeItemError::FailResolveBelongGroup(item_id, clone_name(&name), belong_group),
                    ),
                );
                None
            },
            (Some(gid), Some(s), Some(e)) => {
                if at_or_above(resolver, gid, s.belong_group_id) && at_or_above(
                    resolver,
                    gid,
                    e.belong_group_id,
                ) {
                    let st = match style {
                        Some(x) => x,
                        None => EdgeItemStyle::Line,
                    };
                    Some(
                        EdgeItem {
                            belong_group_id: gid,
                            item_id,
                            start: s,
                            end: e,
                            label,
                            style: st,
                        },
                    )
                } else {
                    errors.push(
                        GrafoError::EdgeItemError(
                            EdgeItemError::InappropriateGroup(item_id, clone_name(&name), belong_group),
                        ),
                    );
                    None
                }
            },
            (Some(_), None, None) => {
                errors.push(
                    GrafoError::EdgeItemError(
                        EdgeItemError::FailResolveStartEndpoint(item_id, clone_name(&name), start),
                    ),
                );
                errors.push(
                    GrafoError::EdgeItemError(
                        EdgeItemError::FailResolveEndEndpoint(item_id, clone_name(&name), end),
                    ),
                );
                None
            },
            (Some(_), None, Some(_)) => {
                errors.push(
                    GrafoError::EdgeItemError(
                        EdgeItemError::FailResolveStartEndpoint(item_id, clone_name(&name), start),
                    ),
                );
                None
            },
            (Some(_), Some(_), None) => {
                errors.push(
                    GrafoError::EdgeItemError(
                        EdgeItemError::FailResolveEndEndpoint(item_id, clone_name(&name), end),
                    ),
                );
                None
            },
        };
        proof {
            assert(errors@ =~= e0.add(b.combine_errors(resolver, item_id)));
        }
        let ghost e1 = errors@;
        if let Some(n) = &name {
            if resolver.is_usable_graph_item_name(GraphItemKind::Edge, n.as_str()) {
                errors.push(
                    GrafoError::EdgeItemError(
                        EdgeItemError::NameIdError(
                            item_id,
                            Some(n.clone()),
                            NameIdError::AlreadyExist(GraphItemKind::Edge, n.clone()),
                        ),
                    ),
                );
            }
        }
        proof {
            assert(errors@ =~= e1.add(b.name_errors(resolver, item_id)));
        }
        (item, ItemOption { name })
    }

    /// Resolves the edge's group, then its endpoints, then the edge itself,
    /// and checks its name. Every failure found is reported, in that order;
    /// the endpoints are not looked at when the group does not resolve.
    pub fn build(self, item_id: ItemId, resolver: &Resolver) -> (r: (
        Option<(EdgeItem, ItemOption)>,
        Vec<GrafoError>,
    ))
        requires
            resolver.wf(),
        ensures
            (r.0, r.1@) == self.spec_result(item_id, resolver),
    {
        let ghost b = self;
        let mut errors: Vec<GrafoError> = Vec::new();
        let belong_group = self.resolve_belong_group(item_id, resolver, &mut errors);
        let ghost e1 = errors@;
        let start = match belong_group {
            Some(bg) => self.resolve_endpoint(bg, item_id, &self.start, resolver, &mut errors, true),
            None => None,
        };
        let end = match belong_group {
            Some(bg) => self.resolve_endpoint(bg, item_id, &self.end, resolver, &mut errors, false),
            None => None,
        };
        proof {
            assert(errors@ =~= e1.add(b.endpoints_errors(resolver, item_id)));
        }
        let (item, option) = self.resolve_item(
            item_id,
            resolver,
            &mut errors,
            belong_group,
            start,
            end,
        );
        proof {
            assert(errors@ =~= b.spec_result(item_id, resolver).1);
        }
        match item {
            Some(i) => (Some((i, option)), errors),
            None => (None, errors),
        }
    }
}

/// the endpoint names a group that an edge of group `group_id` may not use
pub open spec fn endpoint_forbidden(
    resolver: &Resolver,
    group_id: GroupId,
    endpoint: Option<(GraphItemKind, String)>,
) -> bool {
    match endpoint {
        Some(p) => p.0 == GraphItemKind::Group && lookup(resolver.graph().names(), (p.0, p.1@))
            is Some && group_endpoint_forbidden(
            resolver,
            group_id,
            lookup(resolver.graph().names(), (p.0, p.1@))->Some_0.1,
        ),
        None => false,
    }
}

impl HasItemBuilderMethod for EdgeItemBuilder {
    type Item = EdgeItem;

    open spec fn spec_build(&self, item_id: ItemId, resolver: Resolver) -> (
        Option<(EdgeItem, ItemOption)>,
        Seq<GrafoError>,
    ) {
        self.spec_result(item_id, &resolver)
    }

    fn build_item(self, item_id: ItemId, resolver: &Resolver) -> (r: (
        Option<(EdgeItem, ItemOption)>,
        Vec<GrafoError>,
    )) {
        self.build(item_id, resolver)
    }
}

/// An edge whose group is `g` and that names `g`, or an ancestor of `g`, as a
/// group endpoint is not built, and the build reports
/// `CannotSpecifyBelongGroupAsEndpoint` for that endpoint.
pub proof fn lemma_forbidden_endpoint_not_built(
    b: EdgeItemBuilder,
    resolver: &Resolver,
    item_id: ItemId,
    g: GroupId,
)
    requires
        resolver.belong_group_of(opt_view(b.group_name())) == Some(g),
        endpoint_forbidden(resolver, g, b.start_of()) || endpoint_forbidden(resolver, g, b.end_of()),
    ensures
        b.edge_of(resolver, item_id) is None,
        b.spec_result(item_id, resolver).0 is None,
        endpoint_forbidden(resolver, g, b.start_of()) ==> b.spec_result(item_id, resolver).1.contains(
            GrafoError::EdgeItemError(
                EdgeItemError::CannotSpecifyBelongGroupAsEndpoint(
                    item_id,
                    b.item_name(),
                    b.start_of()->Some_0.1,
                ),
            ),
        ),
        endpoint_forbidden(resolver, g, b.end_of()) ==> b.spec_result(item_id, resolver).1.contains(
            GrafoError::EdgeItemError(
                EdgeItemError::CannotSpecifyBelongGroupAsEndpoint(
                    item_id,
                    b.item_name(),
                    b.end_of()->Some_0.1,
                ),
            ),
        ),
{
    let all = b.spec_result(item_id, resolver).1;
    let ge = b.group_errors(resolver, item_id);
    let se = endpoint_errors(resolver, g, item_id, b.item_name(), b.start_of(), true);
    let ee = endpoint_errors(resolver, g, item_id, b.item_name(), b.end_of(), false);
    assert(ge.len() == 0);
    assert(b.endpoints_errors(resolver, item_id) == se.add(ee));
    if endpoint_forbidden(resolver, g, b.start_of()) {
        assert(se.len() > 0);
        assert(all[se.len() - 1] == se[se.len() - 1]);
    }
    if endpoint_forbidden(resolver, g, b.end_of()) {
        assert(ee.len() > 0);
        assert(all[se.len() + ee.len() - 1] == ee[ee.len() - 1]);
    }
}

} // verus!
