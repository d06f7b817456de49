use grafo::arena::{IdBound, ItemArena};
use grafo::builder::{NameRegistration, NodeItemBuilder};
use grafo::error::GrafoError;
use grafo::item::NodeItem;
use grafo::kind::GraphItemKind;
use grafo::name_ref::NameIdError;
use grafo::resolver::Resolver;

const ITERATE_COUNT: usize = 10;
const TARGET_KIND: GraphItemKind = GraphItemKind::Node;

fn graph_item_check_list() -> Vec<GraphItemKind> {
    vec![GraphItemKind::Node, GraphItemKind::Edge, GraphItemKind::Group]
}

fn strict() -> NameRegistration {
    NameRegistration { accept_override: false }
}

#[test]
fn is_empty() {
    assert!(ItemArena::<NodeItem>::new().is_empty());
}

#[test]
fn with_name_count() {
    let mut arena_mut = ItemArena::<NodeItem>::new();
    let mut resolver = Resolver::new();
    let _ = resolver.set_root_group_id(0);
    for i in 0..ITERATE_COUNT {
        let mut builder = NodeItemBuilder::new();
        builder.set_name(&format!("{}", i));
        let (result, errors) = arena_mut.push(&mut resolver, builder, strict());
        assert_eq!(Vec::<GrafoError>::new(), errors);
        assert!(result);
    }
    let arena = arena_mut;
    assert_eq!(arena.count(), ITERATE_COUNT);
    for target in graph_item_check_list() {
        assert_eq!(
            resolver.count_usable_graph_item_names_by(target),
            if target == TARGET_KIND { ITERATE_COUNT } else { 0 }
        );
    }
}

#[test]
fn with_name_each_eq() {
    let mut arena_mut = ItemArena::<NodeItem>::new();
    let mut resolver = Resolver::new();
    let _ = resolver.set_root_group_id(0);
    for i in 1..=ITERATE_COUNT {
        let mut builder = NodeItemBuilder::new();
        builder.set_name(&format!("{}", i));
        let (result, errors) = arena_mut.push(&mut resolver, builder, strict());
        assert_eq!(Vec::<GrafoError>::new(), errors);
        assert!(result);
    }
    let arena = arena_mut;
    for index in arena.iter() {
        for kind in graph_item_check_list() {
            let name = format!("{}", index.1);
            let ref_result = resolver.get_graph_item_id_pair(kind, &name);
            if let Ok(success) = ref_result {
                assert_eq!(success, index);
            } else {
                assert_eq!(ref_result, Err(NameIdError::NotExist(kind, format!("{}", index.1))));
            }
        }
    }
}

#[test]
fn mixed_count() {
    let mut arena_mut = ItemArena::<NodeItem>::new();
    let mut resolver = Resolver::new();
    let _ = resolver.set_root_group_id(0);
    for i in 1..=2 * ITERATE_COUNT {
        let mut builder = NodeItemBuilder::new();
        if i <= ITERATE_COUNT {
            builder.set_name(&format!("{}", i));
        }
        let (result, errors) = arena_mut.push(&mut resolver, builder, strict());
        assert_eq!(Vec::<GrafoError>::new(), errors);
        assert!(result)
    }
    let arena = arena_mut;
    assert_eq!(arena.count(), 2 * ITERATE_COUNT);
    for target in graph_item_check_list() {
        assert_eq!(
            resolver.count_usable_graph_item_names_by(target),
            if target == TARGET_KIND { ITERATE_COUNT } else { 0 }
        );
    }
}

#[test]
fn mixed_each_eq() {
    let mut arena_mut = ItemArena::<NodeItem>::new();
    let mut resolver = Resolver::new();
    let _ = resolver.set_root_group_id(0);
    for i in 1..=2 * ITERATE_COUNT {
        let mut builder = NodeItemBuilder::new();
        if i <= ITERATE_COUNT {
            builder.set_name(&format!("{}", i));
        }
        let (result, errors) = arena_mut.push(&mut resolver, builder, strict());
        assert_eq!(Vec::<GrafoError>::new(), errors);
        assert!(result);
    }
    let arena = arena_mut;
    for index in arena.iter() {
        for kind in graph_item_check_list() {
            let name = format!("{}", index.1);
            let ref_result = resolver.get_graph_item_id_pair(kind, &name);
            if index.1 <= ITERATE_COUNT && kind == TARGET_KIND {
                if let Ok(success) = &ref_result {
                    assert_eq!(success, &index);
                } else {
                    unreachable!("over count and not exist the name \"{}\"", name)
                }
            } else {
                assert_eq!(ref_result, Err(NameIdError::NotExist(kind, format!("{}", index.1))));
            }
        }
    }
}

#[test]
fn ids_increase_across_groups_and_failed_pushes() {
    let mut arena = ItemArena::<NodeItem>::new();
    let mut resolver = Resolver::new();
    let _ = resolver.set_root_group_id(0);
    let (ok, _) = arena.push(&mut resolver, NodeItemBuilder::new(), strict());
    assert!(ok);
    // an unknown group: the build fails and id 2 is used up
    let mut lost = NodeItemBuilder::new();
    lost.set_belong_group("nowhere");
    let (ok, errors) = arena.push(&mut resolver, lost, strict());
    assert!(!ok);
    assert_eq!(errors.len(), 2);
    let (ok, _) = arena.push(&mut resolver, NodeItemBuilder::new(), strict());
    assert!(ok);
    assert_eq!(arena.iter(), vec![(0, 1), (0, 3)]);
    assert!(arena.get(0, 2).is_none());
    assert_eq!(arena.get(0, 3), Some(&NodeItem { belong_group_id: 0, item_id: 3 }));
}

#[test]
fn default_reservation() {
    let mut arena = ItemArena::<NodeItem>::new();
    let mut resolver = Resolver::new();
    let _ = resolver.set_root_group_id(0);
    let (ok, _) = arena.push(&mut resolver, NodeItemBuilder::new(), strict());
    assert!(ok);
    let (ok, errors) = arena.push_default(&mut resolver, 0, strict());
    assert!(ok);
    assert!(errors.is_empty());
    assert_eq!(arena.get(0, 0), Some(&NodeItem { belong_group_id: 0, item_id: 0 }));
    assert_eq!(arena.get_default(0), Some(&NodeItem { belong_group_id: 0, item_id: 0 }));
    let (ok, _) = arena.push(&mut resolver, NodeItemBuilder::new(), strict());
    assert!(ok);
    assert_eq!(arena.count(), 3);
    assert_eq!(arena.filter_by_group(0), vec![0, 1, 2]);
    assert_eq!(arena.range(0, IdBound::Included(1), IdBound::Excluded(3)), vec![1, 2]);
    assert_eq!(arena.range(0, IdBound::Excluded(0), IdBound::Included(2)), vec![1, 2]);
    assert_eq!(arena.range(0, IdBound::Unbounded, IdBound::Excluded(1)), vec![0]);
    assert_eq!(arena.range(0, IdBound::Included(2), IdBound::Unbounded), vec![2]);
    assert!(arena.range(1, IdBound::Unbounded, IdBound::Unbounded).is_empty());
}

#[test]
fn end_to_end_override() {
    let mut resolver = Resolver::new();
    assert_eq!(resolver.set_root_group_id(0), Ok(()));
    let mut arena = ItemArena::<NodeItem>::new();
    let lenient = NameRegistration { accept_override: true };
    for _ in 0..2 {
        let (ok, errors) = arena.push(&mut resolver, NodeItemBuilder::new(), lenient);
        assert!(ok);
        assert!(errors.is_empty());
    }
    let mut named = NodeItemBuilder::new();
    named.set_name("n1");
    let (ok, errors) = arena.push(&mut resolver, named, lenient);
    assert!(ok);
    assert!(errors.is_empty());
    assert_eq!(arena.count(), 3);
    assert_eq!(resolver.get_graph_item_id_pair(GraphItemKind::Node, "n1"), Ok((0, 3)));

    let mut again = NodeItemBuilder::new();
    again.set_name("n1");
    let (ok, errors) = arena.push(&mut resolver, again, lenient);
    assert!(ok);
    assert_eq!(arena.count(), 4);
    assert!(errors.contains(&GrafoError::NameIdError(NameIdError::Override(
        GraphItemKind::Node,
        "n1".to_string()
    ))));
    assert_eq!(resolver.get_graph_item_id_pair(GraphItemKind::Node, "n1"), Ok((0, 4)));
}

#[test]
fn strict_registration_refuses_override() {
    let mut resolver = Resolver::new();
    let _ = resolver.set_root_group_id(0);
    let mut arena = ItemArena::<NodeItem>::new();
    let mut named = NodeItemBuilder::new();
    named.set_name("n");
    assert!(arena.push(&mut resolver, named, strict()).0);
    let mut again = NodeItemBuilder::new();
    again.set_name("n");
    let (ok, errors) = arena.push(&mut resolver, again, strict());
    assert!(!ok);
    assert_eq!(arena.count(), 1);
    assert_eq!(
        errors,
        vec![
            GrafoError::NodeItemError(grafo::error::NodeItemError::NameIdError(
                2,
                NameIdError::AlreadyExist(GraphItemKind::Node, "n".to_string())
            )),
            GrafoError::NameIdError(NameIdError::Override(GraphItemKind::Node, "n".to_string())),
        ]
    );
}
