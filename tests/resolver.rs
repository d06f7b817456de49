use grafo::arena::ItemArena;
use grafo::builder::{GroupItemBuilder, NameRegistration, NodeItemBuilder};
use grafo::edge_builder::EdgeItemBuilder;
use grafo::error::{EdgeItemError, GrafoError, NodeItemError};
use grafo::item::{EdgeItem, EdgeItemStyle, Endpoint, GroupItem, NodeItem};
use grafo::kind::{AttributeKind, GraphItemKind, WithItemLayoutKind};
use grafo::name_ref::NameIdError;
use grafo::resolver::{Either, Resolver, ResolverError};

fn strict() -> NameRegistration {
    NameRegistration { accept_override: false }
}

#[test]
fn hierarchy_errors() {
    let mut resolver = Resolver::new();
    assert_eq!(resolver.get_root_group_id(), Err(ResolverError::NotInitialized));
    assert_eq!(resolver.insert_group(0, 1), Err(ResolverError::NotInitialized));
    assert_eq!(
        resolver.get_belong_group(None),
        Err(Either::Right(ResolverError::NotInitialized))
    );
    assert_eq!(resolver.set_root_group_id(0), Ok(()));
    assert_eq!(resolver.set_root_group_id(5), Err(ResolverError::FailSetRootGraphId));
    assert_eq!(resolver.get_root_group_id(), Ok(0));
    assert_eq!(resolver.insert_group(9, 1), Err(ResolverError::NotFindParentId(9)));
    assert_eq!(resolver.insert_group(0, 1), Ok(()));
    assert_eq!(resolver.insert_group(0, 1), Err(ResolverError::AlreadyExistId(1)));
    assert_eq!(resolver.insert_group(1, 2), Ok(()));
    assert_eq!(resolver.get_ancestor_ids(2), Some(vec![1, 0]));
    assert_eq!(resolver.get_ancestor_ids(0), Some(vec![]));
    assert_eq!(resolver.get_ancestor_ids(7), None);
    assert!(resolver.contains_group(2));
    assert_eq!(resolver.get_belong_group(None), Ok(0));
    assert_eq!(
        resolver.get_belong_group(Some("g")),
        Err(Either::Left(NameIdError::NotExist(GraphItemKind::Group, "g".to_string())))
    );
}

#[test]
fn layout_and_attribute_names() {
    let mut resolver = Resolver::new();
    assert_eq!(
        resolver.push_graph_item_layout_value(
            GraphItemKind::Node,
            WithItemLayoutKind::Style,
            "bold".to_string(),
            4
        ),
        Ok(())
    );
    assert_eq!(resolver.push_attribute_value(AttributeKind::Style, "bold".to_string(), 5), Ok(()));
    assert_eq!(
        resolver.get_graph_item_layout_id(GraphItemKind::Node, WithItemLayoutKind::Style, "bold"),
        Ok(4)
    );
    assert_eq!(resolver.get_attribute_item_id(AttributeKind::Style, "bold"), Ok(5));
    assert!(resolver.get_graph_item_layout_id(GraphItemKind::Edge, WithItemLayoutKind::Style, "bold").is_err());
    assert_eq!(
        resolver.get_graph_item_layout_name_by(GraphItemKind::Node, WithItemLayoutKind::Style, 4),
        Some(&"bold".to_string())
    );
    assert_eq!(resolver.get_attribute_name_by(AttributeKind::Style, 5), Some(&"bold".to_string()));
    assert!(resolver.is_usable_attribute_name(AttributeKind::Style, "bold"));
    assert!(resolver.is_usable_graph_item_layout_name(GraphItemKind::Node, WithItemLayoutKind::Style, "bold"));
    assert!(resolver.has_registered_attribute_name(AttributeKind::Style, 5));
    assert!(resolver.has_registered_graph_item_layout_name(GraphItemKind::Node, WithItemLayoutKind::Style, 4));
    assert_eq!(resolver.count_usable_whole_layout_item_names(), 2);
    assert_eq!(resolver.count_registered_whole_layout_names(), 2);
    assert_eq!(resolver.count_usable_graph_item_layout_names(), 1);
    assert_eq!(resolver.count_registered_graph_item_layout_names(), 1);
    assert_eq!(resolver.count_usable_whole_attribute_names(), 1);
    assert_eq!(resolver.count_registered_whole_attribute_names(), 1);
    assert_eq!(resolver.count_usable_attribute_names_by(AttributeKind::Style), 1);
    assert_eq!(resolver.count_registered_attribute_names_by(AttributeKind::Style), 1);
    assert_eq!(
        resolver.count_usable_graph_item_layout_names_by(GraphItemKind::Edge, WithItemLayoutKind::Label),
        0
    );
    assert_eq!(
        resolver.count_registered_graph_item_layout_names_by(GraphItemKind::Node, WithItemLayoutKind::Style),
        1
    );
    assert_eq!(
        resolver.push_attribute_value(AttributeKind::Style, "bold".to_string(), 6),
        Err(NameIdError::Override(
            grafo::kind::LayoutItemKind::IsolateAttribute(AttributeKind::Style),
            "bold".to_string()
        ))
    );
}

/// root group 0 holds group "g1" (id 1), which holds group "g2" (id 2)
fn nested_groups() -> (Resolver, ItemArena<GroupItem>, ItemArena<NodeItem>) {
    let mut resolver = Resolver::new();
    let _ = resolver.set_root_group_id(0);
    let mut groups = ItemArena::<GroupItem>::new();
    let mut g1 = GroupItemBuilder::new();
    g1.set_name("g1");
    assert_eq!(groups.push(&mut resolver, g1, strict()), (true, vec![]));
    let mut g2 = GroupItemBuilder::new();
    g2.set_name("g2");
    g2.set_belong_group("g1");
    assert_eq!(groups.push(&mut resolver, g2, strict()), (true, vec![]));
    (resolver, groups, ItemArena::<NodeItem>::new())
}

#[test]
fn groups_enter_the_hierarchy() {
    let (resolver, groups, _) = nested_groups();
    assert_eq!(resolver.get_ancestor_ids(2), Some(vec![1, 0]));
    assert_eq!(resolver.get_graph_item_id_pair(GraphItemKind::Group, "g2"), Ok((1, 2)));
    assert_eq!(resolver.get_belong_group(Some("g2")), Ok(2));
    assert_eq!(groups.get(1, 2), Some(&GroupItem { belong_group_id: 1, item_id: 2 }));
    assert_eq!(resolver.get_graph_item_name_by(GraphItemKind::Group, 0, 1), Some(&"g1".to_string()));
    assert!(resolver.has_registered_graph_item_name(GraphItemKind::Group, 1, 2));
    assert!(resolver.is_usable_graph_item_name(GraphItemKind::Group, "g1"));
    assert_eq!(resolver.count_usable_graph_item_names(), 2);
    assert_eq!(resolver.count_registered_graph_item_names(), 2);
    assert_eq!(resolver.count_registered_graph_item_names_by(GraphItemKind::Node), 0);
}

#[test]
fn edge_between_nodes_of_nested_groups() {
    let (mut resolver, _, mut nodes) = nested_groups();
    let mut a = NodeItemBuilder::new();
    a.set_name("a");
    a.set_belong_group("g1");
    assert!(nodes.push(&mut resolver, a, strict()).0);
    let mut b = NodeItemBuilder::new();
    b.set_name("b");
    b.set_belong_group("g2");
    assert!(nodes.push(&mut resolver, b, strict()).0);

    let mut edge = EdgeItemBuilder::new();
    edge.set_belong_group("g1");
    edge.set_name("e");
    edge.set_label("a to b");
    edge.set_start_endpoint(GraphItemKind::Node, "a");
    edge.set_end_endpoint(GraphItemKind::Node, "b");
    let (item, errors) = edge.build(9, &resolver);
    assert!(errors.is_empty());
    let (item, option) = item.unwrap();
    assert_eq!(
        item,
        EdgeItem {
            belong_group_id: 1,
            item_id: 9,
            start: Endpoint::new(GraphItemKind::Node, 1, 1),
            end: Endpoint::new(GraphItemKind::Node, 2, 2),
            label: Some("a to b".to_string()),
            style: EdgeItemStyle::Line,
        }
    );
    assert_eq!(option.name, Some("e".to_string()));

    // an edge in g2 cannot reach the node of g1
    let mut low = EdgeItemBuilder::new();
    low.set_belong_group("g2");
    low.set_start_endpoint(GraphItemKind::Node, "a");
    low.set_end_endpoint(GraphItemKind::Node, "b");
    let (item, errors) = low.build(10, &resolver);
    assert!(item.is_none());
    assert_eq!(
        errors,
        vec![GrafoError::EdgeItemError(EdgeItemError::InappropriateGroup(
            10,
            None,
            Some("g2".to_string())
        ))]
    );
}

#[test]
fn edge_cannot_use_own_or_ancestor_group() {
    let (mut resolver, _, mut nodes) = nested_groups();
    let mut b = NodeItemBuilder::new();
    b.set_name("b");
    b.set_belong_group("g2");
    assert!(nodes.push(&mut resolver, b, strict()).0);
    for group in ["g2", "g1"] {
        let mut edge = EdgeItemBuilder::new();
        edge.set_belong_group("g2");
        edge.set_name("e");
        edge.set_start_endpoint(GraphItemKind::Group, group);
        edge.set_end_endpoint(GraphItemKind::Node, "b");
        let mut edges = ItemArena::<EdgeItem>::new();
        let (ok, errors) = edges.push(&mut resolver, edge, strict());
        assert!(!ok);
        assert!(edges.is_empty());
        assert!(errors.contains(&GrafoError::EdgeItemError(
            EdgeItemError::CannotSpecifyBelongGroupAsEndpoint(1, Some("e".to_string()), group.to_string())
        )));
    }
    // a group below the edge's group may be an endpoint
    let mut edge = EdgeItemBuilder::new();
    edge.set_belong_group("g1");
    edge.set_start_endpoint(GraphItemKind::Group, "g2");
    edge.set_end_endpoint(GraphItemKind::Node, "b");
    let (item, errors) = edge.build(3, &resolver);
    assert!(errors.is_empty());
    assert_eq!(item.unwrap().0.start, Endpoint::new(GraphItemKind::Group, 1, 2));
}

#[test]
fn edge_reports_every_failure() {
    let (mut resolver, _, mut nodes) = nested_groups();
    let mut a = NodeItemBuilder::new();
    a.set_name("a");
    assert!(nodes.push(&mut resolver, a, strict()).0);
    let mut taken = EdgeItemBuilder::new();
    taken.set_name("e");
    taken.set_start_endpoint(GraphItemKind::Node, "a");
    taken.set_end_endpoint(GraphItemKind::Node, "a");
    let mut edges = ItemArena::<EdgeItem>::new();
    assert!(edges.push(&mut resolver, taken, strict()).0);

    let mut edge = EdgeItemBuilder::new();
    edge.set_name("e");
    edge.set_item_style(EdgeItemStyle::Dotted);
    let (item, errors) = edge.build(5, &resolver);
    assert!(item.is_none());
    assert_eq!(
        errors,
        vec![
            GrafoError::EdgeItemError(EdgeItemError::NotSpecifyStartEndpoint(5, Some("e".to_string()), None)),
            GrafoError::EdgeItemError(EdgeItemError::NotSpecifyEndEndpoint(5, Some("e".to_string()), None)),
            GrafoError::EdgeItemError(EdgeItemError::FailResolveStartEndpoint(5, Some("e".to_string()), None)),
            GrafoError::EdgeItemError(EdgeItemError::FailResolveEndEndpoint(5, Some("e".to_string()), None)),
            GrafoError::EdgeItemError(EdgeItemError::NameIdError(
                5,
                Some("e".to_string()),
                NameIdError::AlreadyExist(GraphItemKind::Edge, "e".to_string())
            )),
        ]
    );

    let mut lost = EdgeItemBuilder::new();
    lost.set_belong_group("nowhere");
    let (item, errors) = lost.build(6, &resolver);
    assert!(item.is_none());
    assert_eq!(
        errors,
        vec![
            GrafoError::EdgeItemError(EdgeItemError::NameIdError(
                6,
                None,
                NameIdError::NotExist(GraphItemKind::Group, "nowhere".to_string())
            )),
            GrafoError::EdgeItemError(EdgeItemError::FailResolveBelongGroup(6, None, Some("nowhere".to_string()))),
        ]
    );
}

#[test]
fn node_without_root() {
    let resolver = Resolver::new();
    let (item, errors) = NodeItemBuilder::new().build(1, &resolver);
    assert!(item.is_none());
    assert_eq!(
        errors,
        vec![
            GrafoError::ResolverError(ResolverError::NotInitialized),
            GrafoError::NodeItemError(NodeItemError::FailResolveBelongGroup(1)),
        ]
    );
}

#[test]
fn attribute_name_by_item() {
    let mut resolver = Resolver::new();
    assert_eq!(resolver.push_attribute_value(AttributeKind::Style, "thin".to_string(), 3), Ok(()));
    let item = grafo::item::AttributeItem { kind: AttributeKind::Style, item_id: 3 };
    assert_eq!(resolver.get_attribute_name_by_item(&item), Some(&"thin".to_string()));
    let other = grafo::item::AttributeItem { kind: AttributeKind::Style, item_id: 4 };
    assert_eq!(resolver.get_attribute_name_by_item(&other), None);
}

#[test]
fn names_by_item() {
    let (mut resolver, _, mut nodes) = nested_groups();
    let mut a = NodeItemBuilder::new();
    a.set_name("a");
    assert!(nodes.push(&mut resolver, a, strict()).0);
    let item = NodeItem { belong_group_id: 0, item_id: 1 };
    assert_eq!(resolver.get_graph_item_name_by_item(&item), Some(&"a".to_string()));
    assert_eq!(
        resolver.push_graph_item_layout_value(GraphItemKind::Node, WithItemLayoutKind::Label, "l".to_string(), 1),
        Ok(())
    );
    assert_eq!(
        resolver.get_graph_item_layout_name_by_item(WithItemLayoutKind::Label, &item),
        Some(&"l".to_string())
    );
    assert_eq!(
        resolver.count_usable_graph_item_names(),
        resolver.count_usable_graph_item_names_by(GraphItemKind::Node)
            + resolver.count_usable_graph_item_names_by(GraphItemKind::Edge)
            + resolver.count_usable_graph_item_names_by(GraphItemKind::Group)
    );
}

#[test]
fn edge_without_root_reports_no_endpoint_error() {
    let resolver = Resolver::new();
    let mut edge = EdgeItemBuilder::new();
    edge.set_start_endpoint(GraphItemKind::Node, "a");
    let (item, errors) = edge.build(1, &resolver);
    assert!(item.is_none());
    assert_eq!(
        errors,
        vec![
            GrafoError::EdgeItemError(EdgeItemError::ResolverError(1, None, ResolverError::NotInitialized)),
            GrafoError::EdgeItemError(EdgeItemError::FailResolveBelongGroup(1, None, None)),
        ]
    );
}
