use grafo::kind::{GraphItemKind, ItemId};
use grafo::name_ref::{NameIdError, NameRefIndex};

#[test]
fn name_override() {
    let mut name_ref: NameRefIndex<GraphItemKind, ItemId> = NameRefIndex::new();
    assert_eq!(
        Ok(()),
        name_ref.insert_value_or_override(GraphItemKind::Node, Some("node".to_string()), 1)
    );
    assert_eq!(
        Err(NameIdError::Override(GraphItemKind::Node, "node".to_string())),
        name_ref.insert_value_or_override(GraphItemKind::Node, Some("node".to_string()), 2)
    );
    assert_eq!(Some(2), name_ref.get_value(GraphItemKind::Node, "node"));
}

#[test]
fn name_not_override() {
    let mut name_ref: NameRefIndex<GraphItemKind, ItemId> = NameRefIndex::new();
    assert_eq!(
        Ok(()),
        name_ref.insert_value_or_override(GraphItemKind::Node, Some("item".to_string()), 1)
    );
    assert_eq!(
        Ok(()),
        name_ref.insert_value_or_override(GraphItemKind::Edge, Some("item".to_string()), 2)
    );
    assert_eq!(Some(1), name_ref.get_value(GraphItemKind::Node, "item"));
    assert_eq!(Some(2), name_ref.get_value(GraphItemKind::Edge, "item"));
}

#[test]
fn rebinding_same_value_is_no_override() {
    let mut name_ref: NameRefIndex<GraphItemKind, ItemId> = NameRefIndex::new();
    assert_eq!(
        Ok(()),
        name_ref.insert_value_or_override(GraphItemKind::Node, Some("a".to_string()), 3)
    );
    assert_eq!(
        Ok(()),
        name_ref.insert_value_or_override(GraphItemKind::Node, Some("a".to_string()), 3)
    );
    assert_eq!(1, name_ref.count_usable_names_all());
}

#[test]
fn reverse_lookup_and_registration() {
    let mut name_ref: NameRefIndex<GraphItemKind, ItemId> = NameRefIndex::new();
    assert_eq!(Ok(()), name_ref.insert_value_or_override(GraphItemKind::Node, None::<String>, 7));
    assert!(name_ref.is_already_registered(GraphItemKind::Node, 7));
    assert!(!name_ref.has_registered_name(GraphItemKind::Node, 7));
    assert_eq!(None, name_ref.get_name(GraphItemKind::Node, 7));
    assert_eq!(
        Ok(()),
        name_ref.insert_value_or_override(GraphItemKind::Edge, Some("e".to_string()), 7)
    );
    assert_eq!(Some(&"e".to_string()), name_ref.get_name(GraphItemKind::Edge, 7));
    assert!(name_ref.is_usable_name(GraphItemKind::Edge, "e"));
    assert!(!name_ref.is_usable_name(GraphItemKind::Node, "e"));
    assert!(!name_ref.is_already_registered(GraphItemKind::Group, 7));
}

#[test]
fn usable_and_registered_counts_differ_after_override() {
    let mut name_ref: NameRefIndex<GraphItemKind, ItemId> = NameRefIndex::new();
    let _ = name_ref.insert_value_or_override(GraphItemKind::Node, Some("a".to_string()), 1);
    let _ = name_ref.insert_value_or_override(GraphItemKind::Node, Some("a".to_string()), 2);
    let _ = name_ref.insert_value_or_override(GraphItemKind::Edge, Some("b".to_string()), 1);
    let _ = name_ref.insert_value_or_override(GraphItemKind::Node, None::<String>, 9);
    assert_eq!(2, name_ref.count_usable_names_all());
    assert_eq!(1, name_ref.count_usable_names_by(GraphItemKind::Node));
    assert_eq!(0, name_ref.count_usable_names_by(GraphItemKind::Group));
    // value 1 keeps the name "a" under Node although "a" now refers to 2
    assert_eq!(3, name_ref.count_registered_names_all());
    assert_eq!(2, name_ref.count_registered_names_by(GraphItemKind::Node));
    assert_eq!(Some(&"a".to_string()), name_ref.get_name(GraphItemKind::Node, 1));
    assert_eq!(3, name_ref.iter().len());
}
