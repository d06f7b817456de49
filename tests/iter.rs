use grafo::iter::{DoubleEndedPeekable, GroupedItems, IterGroupByAll, IterGroupById, IterGroupByList};

const ITEM_COUNT: usize = 5;

fn tester_vec() -> Vec<usize> {
    (0..ITEM_COUNT).map(|i| 2 * i).collect()
}

#[test]
fn incremental() {
    let vec = tester_vec();
    let mut iter = DoubleEndedPeekable::from_iter(vec.clone());
    for i in 0..ITEM_COUNT {
        assert_eq!(iter.peek(), Some(2_usize * i));
        assert_eq!(iter.next(), Some(2_usize * i));
    }
    assert_eq!(iter.peek(), None);
    assert_eq!(iter.peek_back(), None);
    assert_eq!(iter.next(), None);
    assert_eq!(iter.next_back(), None);
}

#[test]
fn first() {
    let vec = tester_vec();
    let mut iter = DoubleEndedPeekable::from_iter(vec.clone());
    assert_eq!(iter.nth(0), tester_vec().first().copied());
}

#[test]
fn third() {
    let vec = tester_vec();
    let mut iter = DoubleEndedPeekable::from_iter(vec.clone());
    assert_eq!(iter.nth(2), tester_vec().iter().nth(2).copied());
}

#[test]
fn decremental() {
    let vec = tester_vec();
    let mut iter = DoubleEndedPeekable::from_iter(vec.clone());
    for i in (0..ITEM_COUNT).rev() {
        assert_eq!(iter.peek_back(), Some(2_usize * i));
        assert_eq!(iter.next_back(), Some(2_usize * i));
    }
    assert_eq!(iter.peek(), None);
    assert_eq!(iter.peek_back(), None);
    assert_eq!(iter.next_back(), None);
    assert_eq!(iter.next(), None);
}

#[test]
fn last() {
    let vec = tester_vec();
    let mut iter = DoubleEndedPeekable::from_iter(vec.clone());
    let last_index = iter.len() - 1;
    assert_eq!(iter.nth(last_index), tester_vec().last().copied());
}

#[test]
fn third_back() {
    let vec = tester_vec();
    let mut iter = DoubleEndedPeekable::from_iter(vec.clone());
    assert_eq!(iter.nth_back(2), tester_vec().iter().nth_back(2).copied());
}

#[test]
fn collect() {
    let vec = tester_vec();
    let iter = DoubleEndedPeekable::from_iter(vec.clone());
    assert_eq!(iter.collect(), vec);
}

#[test]
fn peek_from_both_ends_keeps_length() {
    let mut iter = DoubleEndedPeekable::from_iter(vec![1_usize, 2, 3]);
    assert_eq!(iter.peek(), Some(1));
    assert_eq!(iter.peek_back(), Some(3));
    assert_eq!(iter.len(), 3);
    assert_eq!(iter.next_back(), Some(3));
    assert_eq!(iter.next(), Some(1));
    assert_eq!(iter.len(), 1);
    assert_eq!(iter.nth(5), None);
    assert_eq!(iter.len(), 0);
    assert_eq!(DoubleEndedPeekable::from_iter(vec![4_usize, 5]).last(), Some(5));
    assert_eq!(DoubleEndedPeekable::<usize>::from_iter(vec![]).last(), None);
}

const MAP_ITEM_COUNT: usize = 20;
const GROUP_COUNT: usize = 5;

fn tester_map() -> GroupedItems<usize> {
    let mut map = GroupedItems::new();
    for i in 0..MAP_ITEM_COUNT {
        map.insert(i % GROUP_COUNT, i, 2 * i);
    }
    map
}

#[test]
fn iter_incremental() {
    let map = tester_map();
    let mut iter = IterGroupByAll::from_btree_map(&map);
    for i in 0..MAP_ITEM_COUNT {
        assert_eq!(iter.next().map(|(k, _)| k), Some(i));
    }
    assert_eq!(iter.next(), None);
    assert_eq!(iter.next_back(), None);
}

#[test]
fn iter_decremental() {
    let map = tester_map();
    let mut iter = IterGroupByAll::from_btree_map(&map);
    for i in (0..MAP_ITEM_COUNT).rev() {
        assert_eq!(iter.next_back().map(|(k, _)| k), Some(i));
    }
    assert_eq!(iter.next_back(), None);
    assert_eq!(iter.next(), None);
}

fn tester_group_list() -> Vec<usize> {
    (0..GROUP_COUNT).filter(|i| i % 2 == 0).collect()
}

#[test]
fn list_incremental() {
    let map = tester_map();
    let mut creator_group_list = tester_group_list();
    creator_group_list.push(GROUP_COUNT * 10);
    let mut iter = IterGroupByList::from_btree_map(&creator_group_list, &map);
    assert!(iter
        .using_groups()
        .iter()
        .zip(tester_group_list())
        .all(|(u, t)| u == &t));
    for i in (0..MAP_ITEM_COUNT).filter(|i| (i % GROUP_COUNT) % 2 == 0) {
        if iter.using_groups().contains(&(i % GROUP_COUNT)) {
            assert_eq!(iter.next().map(|(k, _)| k), Some(i));
        } else {
            unreachable!("occurred error when index {}", i);
        }
    }
    assert_eq!(iter.next(), None);
}

#[test]
fn list_decremental() {
    let map = tester_map();
    let mut creator_group_list = tester_group_list();
    creator_group_list.push(GROUP_COUNT * 10);
    let mut iter = IterGroupByList::from_btree_map(&creator_group_list, &map);
    assert!(iter
        .using_groups()
        .iter()
        .zip(tester_group_list())
        .all(|(u, t)| u == &t));
    for i in (0..MAP_ITEM_COUNT).filter(|i| (i % GROUP_COUNT) % 2 == 0).rev() {
        if iter.using_groups().contains(&(i % GROUP_COUNT)) {
            assert_eq!(iter.next_back().map(|(k, _)| k), Some(i));
        } else {
            unreachable!("occurred error when index {}", i);
        }
    }
    assert_eq!(iter.next_back(), None);
}

const EXIST_GROUP_ID: usize = 3;
const NOT_EXIST_GROUP_ID: usize = 30;

#[test]
fn exist_incremental() {
    let map = tester_map();
    let mut iter = IterGroupById::from_btree_map(&EXIST_GROUP_ID, &map);
    assert_eq!(iter.get_group_id(), EXIST_GROUP_ID);
    for i in 0..MAP_ITEM_COUNT {
        if iter.get_group_id() == i % GROUP_COUNT {
            assert_eq!(iter.next().map(|(k, _)| k), Some(i));
        }
    }
    assert_eq!(iter.next(), None);
}

#[test]
fn not_exist_incremental() {
    let map = tester_map();
    let mut iter = IterGroupById::from_btree_map(&NOT_EXIST_GROUP_ID, &map);
    assert_eq!(iter.get_group_id(), NOT_EXIST_GROUP_ID);
    assert!(!iter.has_iter());
    assert_eq!(iter.len(), 0);
    assert_eq!(iter.next(), None);
}

#[test]
fn exist_decremental() {
    let map = tester_map();
    let mut iter = IterGroupById::from_btree_map(&EXIST_GROUP_ID, &map);
    assert_eq!(iter.get_group_id(), EXIST_GROUP_ID);
    for i in (0..MAP_ITEM_COUNT).rev() {
        if iter.get_group_id() == i % GROUP_COUNT {
            assert_eq!(iter.next_back().map(|(k, _)| k), Some(i));
        }
    }
    assert_eq!(iter.next_back(), None);
}

#[test]
fn not_exist_decremental() {
    let map = tester_map();
    let mut iter = IterGroupById::from_btree_map(&NOT_EXIST_GROUP_ID, &map);
    assert_eq!(iter.get_group_id(), NOT_EXIST_GROUP_ID);
    assert!(!iter.has_iter());
    assert_eq!(iter.len(), 0);
    assert_eq!(iter.next_back(), None);
}

#[test]
fn merge_orders_uneven_partitions() {
    let mut map = GroupedItems::new();
    // group 7 holds 1, 4, 9; group 2 holds 3, 5; group 5 holds 2, 6, 7, 8
    for (g, i) in [(7, 1), (5, 2), (2, 3), (7, 4), (2, 5), (5, 6), (5, 7), (5, 8), (7, 9)] {
        map.insert(g, i, i * 10);
    }
    let mut up = IterGroupByAll::from_btree_map(&map);
    assert_eq!(up.len(), 9);
    let ascending = up.collect_ascending();
    assert_eq!(ascending.iter().map(|(k, _)| *k).collect::<Vec<_>>(), (1..=9).collect::<Vec<_>>());
    assert!(ascending.iter().all(|(k, v)| *v == k * 10));
    assert_eq!(up.len(), 0);
    let mut down = IterGroupByAll::from_btree_map(&map);
    let descending = down.collect_descending();
    assert_eq!(descending.iter().map(|(k, _)| *k).collect::<Vec<_>>(), (1..=9).rev().collect::<Vec<_>>());
    let mut some = IterGroupByList::from_btree_map(&[7, 2, 100], &map);
    assert_eq!(some.using_groups(), &vec![2, 7]);
    let picked = some.collect_ascending();
    assert_eq!(picked.iter().map(|(k, _)| *k).collect::<Vec<_>>(), vec![1, 3, 4, 5, 9]);
}

#[test]
fn grouped_insert_replaces_value() {
    let mut map = GroupedItems::new();
    map.insert(1, 1, 10_usize);
    map.insert(1, 1, 11_usize);
    map.insert(0, 2, 20_usize);
    let mut all = IterGroupByAll::from_btree_map(&map);
    assert_eq!(all.len(), 2);
    assert_eq!(all.next(), Some((1, 11)));
    assert_eq!(all.next(), Some((2, 20)));
    assert_eq!(all.next(), None);
}
