//! Arena of graph items keyed by (group id, item id), with a counter that
//! hands out item ids in increasing order.

use vstd::prelude::*;
use crate::assoc::{
    map_of,
    keys_unique,
    lemma_map_of_contains,
    lemma_map_of_value,
    lemma_map_of_push,
    lemma_keys_unique_push,
    lemma_map_of_update,
    lemma_map_of_prepend,
    lemma_len_is_dom_len,
    lemma_map_of_finite,
};
use crate::builder::{CommitAction, HasItemBuilderMethod};
use crate::error::GrafoError;
use crate::item::{GraphItemBase, HasDefaultItem, ItemOption};
use crate::kind::{GroupId, ItemId, DEFAULT_ITEM_ID};
use crate::resolver::Resolver;

verus! {

/// one end of a range of item ids
#[derive(Debug, Clone, Copy, PartialEq, Eq, Structural)]
pub enum IdBound {
    Included(ItemId),
    Excluded(ItemId),
    Unbounded,
}

/// `id` is not below the start bound
pub open spec fn above_start(id: ItemId, start: IdBound) -> bool {
    match start {
        IdBound::Included(s) => s <= id,
        IdBound::Excluded(s) => s < id,
        IdBound::Unbounded => true,
    }
}

/// `id` is not above the end bound
pub open spec fn below_end(id: ItemId, end: IdBound) -> bool {
    match end {
        IdBound::Included(e) => id <= e,
        IdBound::Excluded(e) => id < e,
        IdBound::Unbounded => true,
    }
}

fn within(id: ItemId, start: IdBound, end: IdBound) -> (r: bool)
    ensures
        r == (above_start(id, start) && below_end(id, end)),
{
    let lo = match start {
        IdBound::Included(s) => s <= id,
        IdBound::Excluded(s) => s < id,
        IdBound::Unbounded => true,
    };
    let hi = match end {
        IdBound::Included(e) => id <= e,
        IdBound::Excluded(e) => id < e,
        IdBound::Unbounded => true,
    };
    lo && hi
}

spec fn entries<I>(s: Seq<(GroupId, ItemId, I)>) -> Seq<((GroupId, ItemId), I)> {
    s.map_values(|e: (GroupId, ItemId, I)| ((e.0, e.1), e.2))
}

/// Store of items. Item ids are handed out by a counter of the arena; an id
/// that was handed out is never handed out again, even when its item was not
/// committed.
#[derive(Debug, Clone)]
pub struct ItemArena<I> {
    pushed_index: ItemId,
    /// (group id, item id, item), ordered by item id
    arena: Vec<(GroupId, ItemId, I)>,
}

impl<I> ItemArena<I> {
    /// the stored items by (group id, item id)
    pub closed spec fn items(&self) -> Map<(GroupId, ItemId), I> {
        map_of(entries(self.arena@))
    }

    /// the last item id handed out
    pub closed spec fn last_id(&self) -> ItemId {
        self.pushed_index
    }

    pub closed spec fn wf(&self) -> bool {
        &&& keys_unique(entries(self.arena@))
        &&& forall|i: int| 0 <= i < self.arena@.len() ==> #[trigger] self.arena@[i].1 <= self.pushed_index
        &&& forall|i: int, j: int|
            0 <= i < j < self.arena@.len() ==> self.arena@[i].1 <= self.arena@[j].1
    }

    /// initialize
    pub fn new() -> (r: Self)
        ensures
            r.wf(),
            r.items() == Map::<(GroupId, ItemId), I>::empty(),
            r.last_id() == DEFAULT_ITEM_ID,
    {
        let r = ItemArena { pushed_index: DEFAULT_ITEM_ID, arena: Vec::new() };
        proof {
            assert(entries(r.arena@) =~= Seq::empty());
        }
        r
    }

    /// hands out the next item id
    fn get_push_index(&mut self) -> (r: ItemId)
        requires
            old(self).wf(),
            old(self).last_id() < usize::MAX,
        ensures
            final(self).wf(),
            r == old(self).last_id() + 1,
            final(self).last_id() == r,
            final(self).items() == old(self).items(),
    {
        self.pushed_index = self.pushed_index + 1;
        self.pushed_index
    }

    /// position of the key
    fn find(&self, group_id: GroupId, item_id: ItemId) -> (r: Option<usize>)
        requires
            self.wf(),
        ensures
            match r {
                Some(i) => i < self.arena@.len() && self.arena@[i as int].0 == group_id
                    && self.arena@[i as int].1 == item_id && self.items().contains_key(
                    (group_id, item_id),
                ) && self.items()[(group_id, item_id)] == self.arena@[i as int].2,
                None => !self.items().contains_key((group_id, item_id)),
            },
    {
        let ghost f = entries(self.arena@);
        let mut i: usize = 0;
        while i < self.arena.len()
            invariant
                self.wf(),
                i <= self.arena@.len(),
                f == entries(self.arena@),
                forall|j: int| 0 <= j < i ==> f[j].0 != (group_id, item_id),
            decreases self.arena@.len() - i,
        {
            if self.arena[i].0 == group_id && self.arena[i].1 == item_id {
                proof {
                    lemma_map_of_value(f, i as int);
                }
                return Some(i);
            }
            i += 1;
        }
        proof {
            lemma_map_of_contains(f, (group_id, item_id));
        }
        None
    }

    /// stores the item at (group_id, item_id), for an id above all stored ids
    fn insert_last(&mut self, group_id: GroupId, item_id: ItemId, item: I)
        requires
            old(self).wf(),
            old(self).last_id() == item_id,
            forall|k: (GroupId, ItemId)| old(self).items().contains_key(k) ==> k.1 < item_id,
        ensures
            final(self).wf(),
            final(self).last_id() == old(self).last_id(),
            final(self).items() == old(self).items().insert((group_id, item_id), item),
    {
        let ghost f = entries(self.arena@);
        proof {
            lemma_map_of_contains(f, (group_id, item_id));
            assert(!old(self).items().contains_key((group_id, item_id)));
            lemma_map_of_push(f, (group_id, item_id), item);
            lemma_keys_unique_push(f, (group_id, item_id), item);
        }
        self.arena.push((group_id, item_id, item));
        proof {
            assert(entries(self.arena@) =~= f.push(((group_id, item_id), item)));
        }
    }

    /// stores the item at (group_id, 0), replacing an item stored there
    fn insert_default(&mut self, group_id: GroupId, item: I)
        requires
            old(self).wf(),
        ensures
            final(self).wf(),
            final(self).last_id() == old(self).last_id(),
            final(self).items() == old(self).items().insert((group_id, DEFAULT_ITEM_ID), item),
    {
        let ghost f = entries(self.arena@);
        match self.find(group_id, DEFAULT_ITEM_ID) {
            Some(i) => {
                proof {
                    lemma_map_of_update(f, i as int, item);
                }
                self.arena.set(i, (group_id, DEFAULT_ITEM_ID, item));
                proof {
                    assert(entries(self.arena@) =~= f.update(i as int, (f[i as int].0, item)));
                }
            },
            None => {
                proof {
                    lemma_map_of_prepend(f, (group_id, DEFAULT_ITEM_ID), item);
                }
                self.arena.insert(0, (group_id, DEFAULT_ITEM_ID, item));
                proof {
                    assert(entries(self.arena@) =~= seq![((group_id, DEFAULT_ITEM_ID), item)].add(f));
                }
            },
        }
    }

    /// the item at (group_id, index)
    pub fn get(&self, group_id: GroupId, index: ItemId) -> (r: Option<&I>)
        requires
            self.wf(),
        ensures
            match r {
                Some(x) => self.items().contains_key((group_id, index)) && self.items()[(
                    group_id,
                    index,
                )] == *x,
                None => !self.items().contains_key((group_id, index)),
            },
    {
        match self.find(group_id, index) {
            Some(i) => Some(&self.arena[i].2),
            None => None,
        }
    }

    /// the default item of the group
    pub fn get_default(&self, group_id: GroupId) -> (r: Option<&I>)
        requires
            self.wf(),
        ensures
            match r {
                Some(x) => self.items().contains_key((group_id, DEFAULT_ITEM_ID)) && self.items()[(
                    group_id,
                    DEFAULT_ITEM_ID,
                )] == *x,
                None => !self.items().contains_key((group_id, DEFAULT_ITEM_ID)),
            },
    {
        self.get(group_id, DEFAULT_ITEM_ID)
    }

    /// ids of the group's items within the bounds, ascending
    fn collect_ids(&self, group_id: GroupId, start: IdBound, end: IdBound) -> (r: Vec<ItemId>)
        requires
            self.wf(),
        ensures
            forall|i: int, j: int| 0 <= i < j < r@.len() ==> r@[i] < r@[j],
            forall|id: ItemId|
                #[trigger] r@.contains(id) <==> (self.items().contains_key((group_id, id))
                    && above_start(id, start) && below_end(id, end)),
    {
        let ghost f = entries(self.arena@);
        let mut out: Vec<ItemId> = Vec::new();
        let ghost mut idx: Seq<int> = Seq::empty();
        let mut i: usize = 0;
        while i < self.arena.len()
            invariant
                self.wf(),
                i <= self.arena@.len(),
                f == entries(self.arena@),
                idx.len() == out@.len(),
                forall|a: int, b: int| 0 <= a < b < out@.len() ==> out@[a] < out@[b],
                forall|a: int|
                    0 <= a < out@.len() ==> 0 <= #[trigger] idx[a] < i && self.arena@[idx[a]].0
                        == group_id && self.arena@[idx[a]].1 == out@[a] && (above_start(out@[a], start) && below_end(out@[a], end)),
                forall|j: int|
                    0 <= j < i && self.arena@[j].0 == group_id && (above_start(self.arena@[j].1, start) && below_end(self.arena@[j].1, end)) ==> out@.contains(#[trigger] self.arena@[j].1),
            decreases self.arena@.len() - i,
        {
            let e = &self.arena[i];
            let ghost old_out = out@;
            if e.0 == group_id && within(e.1, start, end) {
                proof {
                    assert forall|a: int| 0 <= a < out@.len() implies out@[a] < self.arena@[i as int].1 by {
                        let j = idx[a];
                        assert(f[j].0 != f[i as int].0);
                    }
                }
                out.push(e.1);
                proof {
                    idx = idx.push(i as int);
                }
            }
            proof {
                assert forall|j: int|
                    0 <= j <= i && self.arena@[j].0 == group_id && (above_start(self.arena@[j].1, start) && below_end(self.arena@[j].1, end)) implies out@.contains(#[trigger] self.arena@[j].1) by {
                    if j == i {
                        assert(out@[out@.len() - 1] == self.arena@[i as int].1);
                    } else {
                        assert(old_out.contains(self.arena@[j].1));
                        let a = choose|a: int| 0 <= a < old_out.len() && old_out[a] == self.arena@[j].1;
                        assert(out@[a] == old_out[a]);
                    }
                }
            }
            i += 1;
        }
        proof {
            assert forall|id: ItemId|
                #[trigger] out@.contains(id) <==> (self.items().contains_key((group_id, id))
                    && above_start(id, start) && below_end(id, end)) by {
                lemma_map_of_contains(f, (group_id, id));
                if out@.contains(id) {
                    let a = choose|a: int| 0 <= a < out@.len() && out@[a] == id;
                    let j = idx[a];
                    assert(f[j].0 == (group_id, id));
                }
                if self.items().contains_key((group_id, id)) && (above_start(id, start) && below_end(id, end)) {
                    let j = choose|j: int| 0 <= j < f.len() && f[j].0 == (group_id, id);
                    assert(self.arena@[j].0 == group_id && self.arena@[j].1 == id);
                }
            }
        }
        out
    }

    /// ids of the group's items within the bounds, ascending
    pub fn range(&self, group_id: GroupId, start: IdBound, end: IdBound) -> (r: Vec<ItemId>)
        requires
            self.wf(),
        ensures
            forall|i: int, j: int| 0 <= i < j < r@.len() ==> r@[i] < r@[j],
            forall|id: ItemId|
                #[trigger] r@.contains(id) <==> (self.items().contains_key((group_id, id))
                    && above_start(id, start) && below_end(id, end)),
    {
        self.collect_ids(group_id, start, end)
    }

    /// ids of the group's items, ascending
    pub fn filter_by_group(&self, group_id: GroupId) -> (r: Vec<ItemId>)
        requires
            self.wf(),
        ensures
            forall|i: int, j: int| 0 <= i < j < r@.len() ==> r@[i] < r@[j],
            forall|id: ItemId| #[trigger] r@.contains(id) <==> self.items().contains_key((group_id, id)),
    {
        self.collect_ids(group_id, IdBound::Unbounded, IdBound::Unbounded)
    }

    /// number of items
    pub fn count(&self) -> (r: usize)
        requires
            self.wf(),
        ensures
            r == self.items().dom().len(),
    {
        proof {
            lemma_len_is_dom_len(entries(self.arena@));
        }
        self.arena.len()
    }

    /// no item is stored
    pub fn is_empty(&self) -> (r: bool)
        requires
            self.wf(),
        ensures
            r == (self.items().dom().len() == 0),
    {
        self.count() == 0
    }

    /// the keys of the stored items, each once, ordered by item id
    pub fn iter(&self) -> (r: Vec<(GroupId, ItemId)>)
        requires
            self.wf(),
        ensures
            r@.len() == self.items().dom().len(),
            forall|i: int, j: int| 0 <= i < j < r@.len() ==> r@[i].1 <= r@[j].1 && r@[i] != r@[j],
            forall|k: (GroupId, ItemId)| r@.contains(k) <==> self.items().contains_key(k),
    {
        let ghost f = entries(self.arena@);
        let mut out: Vec<(GroupId, ItemId)> = Vec::new();
        let mut i: usize = 0;
        while i < self.arena.len()
            invariant
                self.wf(),
                i <= self.arena@.len(),
                f == entries(self.arena@),
                out@.len() == i,
                forall|j: int| 0 <= j < i ==> out@[j] == f[j].0,
            decreases self.arena@.len() - i,
        {
            out.push((self.arena[i].0, self.arena[i].1));
            i += 1;
        }
        proof {
            lemma_len_is_dom_len(f);
            assert forall|k: (GroupId, ItemId)| out@.contains(k) <==> self.items().contains_key(k) by {
                lemma_map_of_contains(f, k);
                if self.items().contains_key(k) {
                    let j = choose|j: int| 0 <= j < f.len() && f[j].0 == k;
                    assert(out@[j] == k);
                }
            }
        }
        out
    }

    /// the item map has a finite domain
    pub proof fn lemma_items_finite(&self)
        requires
            self.wf(),
        ensures
            self.items().dom().finite(),
    {
        lemma_map_of_finite(entries(self.arena@));
    }

    /// every stored item has an id at most the last id handed out
    pub proof fn lemma_ids_bounded(&self)
        requires
            self.wf(),
        ensures
            forall|k: (GroupId, ItemId)| #[trigger] self.items().contains_key(k) ==> k.1 <= self.last_id(),
    {
        assert forall|k: (GroupId, ItemId)| #[trigger] self.items().contains_key(k) implies k.1 <= self.last_id() by {
            lemma_map_of_contains(entries(self.arena@), k);
            let j = choose|j: int| 0 <= j < self.arena@.len() && entries(self.arena@)[j].0 == k;
            assert(self.arena@[j].1 <= self.pushed_index);
        }
    }
}

impl<I: GraphItemBase> ItemArena<I> {
    /// Builds an item with the next item id and commits it. A build that
    /// yields no item returns false with the builder's errors and leaves the
    /// resolver alone. Otherwise the action gets the item's kind and group,
    /// the id and the builder's option; the item is stored if and only if the
    /// action reports success, and the errors are the builder's followed by
    /// the action's. The id is used up either way.
    pub fn push<B: HasItemBuilderMethod<Item = I>, A: CommitAction>(
        &mut self,
        resolver: &mut Resolver,
        item_builder: B,
        action: A,
    ) -> (r: (bool, Vec<GrafoError>))
        requires
            old(self).wf(),
            old(resolver).wf(),
            old(self).last_id() < usize::MAX,
        ensures
            final(self).wf(),
            final(resolver).wf(),
            final(self).last_id() == old(self).last_id() + 1,
            final(self).last_id() != DEFAULT_ITEM_ID,
            forall|k: (GroupId, ItemId)| #[trigger]
                old(self).items().contains_key(k) ==> k.1 < final(self).last_id(),
            r.0 ==> final(self).items().dom().len() == old(self).items().dom().len() + 1,
            ({
                let id = final(self).last_id();
                let built = item_builder.spec_build(id, *old(resolver));
                match built.0 {
                    None => {
                        &&& !r.0
                        &&& r.1@ == built.1
                        &&& final(self).items() == old(self).items()
                        &&& *final(resolver) == *old(resolver)
                    },
                    Some(p) => {
                        let verdict = action.spec_commit(
                            *old(resolver),
                            p.0.spec_kind(),
                            p.0.spec_group(),
                            id,
                            p.1,
                        );
                        &&& r.0 == verdict.0
                        &&& r.1@ == built.1.add(verdict.1)
                        &&& action.spec_effect(
                            *old(resolver),
                            *final(resolver),
                            p.0.spec_kind(),
                            p.0.spec_group(),
                            id,
                            p.1,
                        )
                        &&& r.0 ==> final(self).items() == old(self).items().insert(
                            (p.0.spec_group(), id),
                            p.0,
                        )
                        &&& !r.0 ==> final(self).items() == old(self).items()
                    },
                }
            }),
    {
        proof {
            self.lemma_ids_bounded();
            self.lemma_items_finite();
        }
        let push_index = self.get_push_index();
        let (item_option, mut errors) = item_builder.build_item(push_index, &*resolver);
        match item_option {
            None => (false, errors),
            Some((item, option)) => {
                let group_id = item.get_belong_group_id();
                let kind = item.get_kind();
                let (result, mut action_errors) = action.commit(
                    resolver,
                    kind,
                    group_id,
                    push_index,
                    option,
                );
                errors.append(&mut action_errors);
                if result {
                    proof {
                        assert(!old(self).items().contains_key((group_id, push_index)));
                    }
                    self.insert_last(group_id, push_index, item);
                }
                (result, errors)
            },
        }
    }

    /// Builds an item from the builder as the default item, id 0, of its
    /// group, and commits it as `push` does; the item counter is not used.
    pub fn push_user_item_as_default<B: HasItemBuilderMethod<Item = I>, A: CommitAction>(
        &mut self,
        resolver: &mut Resolver,
        item_builder: B,
        action: A,
    ) -> (r: (bool, Vec<GrafoError>))
        requires
            old(self).wf(),
            old(resolver).wf(),
        ensures
            final(self).wf(),
            final(resolver).wf(),
            final(self).last_id() == old(self).last_id(),
            ({
                let built = item_builder.spec_build(DEFAULT_ITEM_ID, *old(resolver));
                match built.0 {
                    None => {
                        &&& !r.0
                        &&& r.1@ == built.1
                        &&& final(self).items() == old(self).items()
                        &&& *final(resolver) == *old(resolver)
                    },
                    Some(p) => {
                        let verdict = action.spec_commit(
                            *old(resolver),
                            p.0.spec_kind(),
                            p.0.spec_group(),
                            DEFAULT_ITEM_ID,
                            p.1,
                        );
                        &&& r.0 == verdict.0
                        &&& r.1@ == built.1.add(verdict.1)
                        &&& action.spec_effect(
                            *old(resolver),
                            *final(resolver),
                            p.0.spec_kind(),
                            p.0.spec_group(),
                            DEFAULT_ITEM_ID,
                            p.1,
                        )
                        &&& r.0 ==> final(self).items() == old(self).items().insert(
                            (p.0.spec_group(), DEFAULT_ITEM_ID),
                            p.0,
                        )
                        &&& !r.0 ==> final(self).items() == old(self).items()
                    },
                }
            }),
    {
        let (item_option, mut errors) = item_builder.build_item(DEFAULT_ITEM_ID, &*resolver);
        match item_option {
            None => (false, errors),
            Some((item, option)) => {
                let group_id = item.get_belong_group_id();
                let kind = item.get_kind();
                let (result, mut action_errors) = action.commit(
                    resolver,
                    kind,
                    group_id,
                    DEFAULT_ITEM_ID,
                    option,
                );
                errors.append(&mut action_errors);
                if result {
                    self.insert_default(group_id, item);
                }
                (result, errors)
            },
        }
    }
}

impl<I: HasDefaultItem> ItemArena<I> {
    /// Installs the default item, id 0, of the group: the action gets the
    /// default item's kind, `group_id`, id 0 and an option without a name.
    /// The item is stored only if the action reports success and no error;
    /// otherwise nothing is stored and the caller learns of it from the
    /// result, as an internal failure.
    pub fn push_default<A: CommitAction>(
        &mut self,
        resolver: &mut Resolver,
        group_id: GroupId,
        action: A,
    ) -> (r: (bool, Vec<GrafoError>))
        requires
            old(self).wf(),
            old(resolver).wf(),
        ensures
            final(self).wf(),
            final(resolver).wf(),
            final(self).last_id() == old(self).last_id(),
            ({
                let d = I::spec_default_of(group_id);
                let verdict = action.spec_commit(
                    *old(resolver),
                    d.spec_kind(),
                    group_id,
                    DEFAULT_ITEM_ID,
                    ItemOption { name: None },
                );
                &&& r.0 == (verdict.0 && verdict.1.len() == 0)
                &&& r.1@ == verdict.1
                &&& action.spec_effect(
                    *old(resolver),
                    *final(resolver),
                    d.spec_kind(),
                    group_id,
                    DEFAULT_ITEM_ID,
                    ItemOption { name: None },
                )
                &&& r.0 ==> final(self).items() == old(self).items().insert(
                    (group_id, DEFAULT_ITEM_ID),
                    d,
                )
                &&& !r.0 ==> final(self).items() == old(self).items()
            }),
    {
        let item = I::default_of(group_id);
        let kind = item.get_kind();
        let (result, errors) = action.commit(
            resolver,
            kind,
            group_id,
            DEFAULT_ITEM_ID,
            ItemOption { name: None },
        );
        if result && errors.len() == 0 {
            self.insert_default(group_id, item);
            (true, errors)
        } else {
            (false, errors)
        }
    }
}

} // verus!
