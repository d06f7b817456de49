//! Ordered iteration over items partitioned by group: a sequence that can be
//! peeked and taken from both ends, and merges of several such sequences in
//! the order of item ids.

use vstd::prelude::*;
use vstd::multiset::Multiset;
use crate::kind::{GroupId, ItemId};

verus! {

/// A sequence that is taken from the front and from the back, and whose next
/// element at either end can be looked at without taking it.
#[derive(Debug, Clone)]
pub struct DoubleEndedPeekable<T> {
    items: Vec<T>,
    front: usize,
    back: usize,
}

impl<T: Copy> DoubleEndedPeekable<T> {
    /// the elements not taken yet, in order
    pub closed spec fn view(&self) -> Seq<T> {
        self.items@.subrange(self.front as int, self.back as int)
    }

    pub closed spec fn wf(&self) -> bool {
        self.front <= self.back <= self.items@.len()
    }

    /// initializer for this iterator from the elements in order
    pub fn from_iter(iter: Vec<T>) -> (r: Self)
        ensures
            r.wf(),
            r.view() == iter@,
    {
        let n = iter.len();
        let r = DoubleEndedPeekable { items: iter, front: 0, back: n };
        proof {
            assert(r.items@.subrange(0, n as int) =~= r.items@);
        }
        r
    }

    /// number of elements left
    pub fn len(&self) -> (r: usize)
        requires
            self.wf(),
        ensures
            r == self.view().len(),
    {
        self.back - self.front
    }

    /// the element that `next` returns, without taking it
    pub fn peek(&self) -> (r: Option<T>)
        requires
            self.wf(),
        ensures
            r == if self.view().len() == 0 {
                None
            } else {
                Some(self.view()[0])
            },
    {
        if self.front < self.back {
            Some(self.items[self.front])
        } else {
            None
        }
    }

    /// the element that `next_back` returns, without taking it
    pub fn peek_back(&self) -> (r: Option<T>)
        requires
            self.wf(),
        ensures
            r == if self.view().len() == 0 {
                None
            } else {
                Some(self.view().last())
            },
    {
        if self.front < self.back {
            Some(self.items[self.back - 1])
        } else {
            None
        }
    }

    /// takes the first element
    pub fn next(&mut self) -> (r: Option<T>)
        requires
            old(self).wf(),
        ensures
            final(self).wf(),
            old(self).view().len() == 0 ==> r is None && final(self).view() == old(self).view(),
            old(self).view().len() > 0 ==> r == Some(old(self).view()[0]) && final(self).view()
                == old(self).view().drop_first(),
    {
        if self.front < self.back {
            let x = self.items[self.front];
            self.front = self.front + 1;
            proof {
                assert(self.view() =~= old(self).view().drop_first());
            }
            Some(x)
        } else {
            None
        }
    }

    /// takes the last element
    pub fn next_back(&mut self) -> (r: Option<T>)
        requires
            old(self).wf(),
        ensures
            final(self).wf(),
            old(self).view().len() == 0 ==> r is None && final(self).view() == old(self).view(),
            old(self).view().len() > 0 ==> r == Some(old(self).view().last()) && final(self).view()
                == old(self).view().drop_last(),
    {
        if self.front < self.back {
            self.back = self.back - 1;
            proof {
                assert(self.view() =~= old(self).view().drop_last());
            }
            Some(self.items[self.back])
        } else {
            None
        }
    }

    /// takes the last element, and with it all the others
    pub fn last(self) -> (r: Option<T>)
        requires
            self.wf(),
        ensures
            r == if self.view().len() == 0 {
                None
            } else {
                Some(self.view().last())
            },
    {
        self.peek_back()
    }

    /// skips `n` elements from the front and takes the next one
    pub fn nth(&mut self, n: usize) -> (r: Option<T>)
        requires
            old(self).wf(),
        ensures
            final(self).wf(),
            n < old(self).view().len() ==> r == Some(old(self).view()[n as int]) && final(self).view() == old(self).view().skip(n + 1),
            n >= old(self).view().len() ==> r is None && final(self).view().len() == 0,
    {
        if n < self.back - self.front {
            let x = self.items[self.front + n];
            self.front = self.front + n + 1;
            proof {
                assert(self.view() =~= old(self).view().skip(n + 1));
            }
            Some(x)
        } else {
            self.front = self.back;
            None
        }
    }

    /// skips `n` elements from the back and takes the next one from the back
    pub fn nth_back(&mut self, n: usize) -> (r: Option<T>)
        requires
            old(self).wf(),
        ensures
            final(self).wf(),
            n < old(self).view().len() ==> r == Some(
                old(self).view()[old(self).view().len() - 1 - n],
            ) && final(self).view() == old(self).view().take(old(self).view().len() - 1 - n),
            n >= old(self).view().len() ==> r is None && final(self).view().len() == 0,
    {
        if n < self.back - self.front {
            self.back = self.back - n - 1;
            proof {
                assert(self.view() =~= old(self).view().take(old(self).view().len() - 1 - n));
            }
            Some(self.items[self.back])
        } else {
            self.back = self.front;
            None
        }
    }

    /// the elements left, in order
    pub fn collect(&self) -> (r: Vec<T>)
        requires
            self.wf(),
        ensures
            r@ == self.view(),
    {
        let mut out: Vec<T> = Vec::new();
        let mut i: usize = self.front;
        while i < self.back
            invariant
                self.wf(),
                self.front <= i <= self.back,
                out@ == self.items@.subrange(self.front as int, i as int),
            decreases self.back - i,
        {
            out.push(self.items[i]);
            proof {
                assert(out@ =~= self.items@.subrange(self.front as int, i + 1));
            }
            i += 1;
        }
        out
    }
}

/// (group id, item id) comes strictly before (group id, item id)
pub open spec fn key_lt(a: (GroupId, ItemId), b: (GroupId, ItemId)) -> bool {
    a.0 < b.0 || (a.0 == b.0 && a.1 < b.1)
}

/// Items partitioned by group: ordered by group id, then by item id.
#[derive(Debug, Clone)]
pub struct GroupedItems<V> {
    entries: Vec<(GroupId, ItemId, V)>,
}

impl<V: Copy> GroupedItems<V> {
    pub closed spec fn view(&self) -> Seq<(GroupId, ItemId, V)> {
        self.entries@
    }

    /// the items by (group id, item id)
    pub open spec fn items(&self) -> Map<(GroupId, ItemId), V> {
        Map::new(
            |k: (GroupId, ItemId)|
                exists|i: int| 0 <= i < self.view().len() && (self.view()[i].0, self.view()[i].1) == k,
            |k: (GroupId, ItemId)|
                self.view()[choose|i: int|
                    0 <= i < self.view().len() && (self.view()[i].0, self.view()[i].1) == k].2,
        )
    }

    /// strictly ordered by (group id, item id)
    pub open spec fn wf(&self) -> bool {
        forall|i: int, j: int|
            0 <= i < j < self.view().len() ==> key_lt(
                (self.view()[i].0, self.view()[i].1),
                (self.view()[j].0, self.view()[j].1),
            )
    }

    pub fn new() -> (r: Self)
        ensures
            r.wf(),
            r.view().len() == 0,
    {
        GroupedItems { entries: Vec::new() }
    }

    /// stores `value` at (group_id, item_id), replacing what was there
    pub fn insert(&mut self, group_id: GroupId, item_id: ItemId, value: V)
        requires
            old(self).wf(),
        ensures
            final(self).wf(),
            final(self).items() == old(self).items().insert((group_id, item_id), value),
    {
        let ghost s = self.entries@;
        let key = (group_id, item_id);
        proof {
            assert(s == old(self).view());
            assert(forall|i: int, j: int|
                0 <= i < j < s.len() ==> key_lt((s[i].0, s[i].1), (s[j].0, s[j].1)));
        }
        let mut p: usize = 0;
        while p < self.entries.len() && key_lt_exec(
            (self.entries[p].0, self.entries[p].1),
            key,
        )
            invariant
                self.entries@ == s,
                p <= s.len(),
                forall|i: int, j: int|
                    0 <= i < j < s.len() ==> key_lt((s[i].0, s[i].1), (s[j].0, s[j].1)),
                forall|i: int| 0 <= i < p ==> key_lt((s[i].0, s[i].1), key),
            decreases s.len() - p,
        {
            p += 1;
        }
        if p < self.entries.len() && self.entries[p].0 == group_id && self.entries[p].1 == item_id {
            self.entries.set(p, (group_id, item_id, value));
            proof {
                assert(self.items() =~= old(self).items().insert(key, value)) by {
                    assert forall|k: (GroupId, ItemId)| #[trigger] self.items().contains_key(k)
                        == old(self).items().insert(key, value).contains_key(k) by {
                        if old(self).items().contains_key(k) {
                            let i = choose|i: int| 0 <= i < s.len() && (s[i].0, s[i].1) == k;
                            assert((self.entries@[i].0, self.entries@[i].1) == k);
                        }
                        if k == key {
                            assert((self.entries@[p as int].0, self.entries@[p as int].1) == k);
                        }
                    }
                    assert forall|k: (GroupId, ItemId)| #[trigger] self.items().contains_key(k)
                        implies self.items()[k] == old(self).items().insert(key, value)[k] by {
                        let i = choose|i: int|
                            0 <= i < self.entries@.len() && (self.entries@[i].0, self.entries@[i].1)
                                == k;
                        if k == key {
                            assert(i == p);
                        } else {
                            let i0 = choose|i: int| 0 <= i < s.len() && (s[i].0, s[i].1) == k;
                            assert(i != p);
                            assert(s[i] == self.entries@[i]);
                            if i0 < i {
                                assert(key_lt((s[i0].0, s[i0].1), (s[i].0, s[i].1)));
                            } else if i < i0 {
                                assert(key_lt((s[i].0, s[i].1), (s[i0].0, s[i0].1)));
                            }
                        }
                    }
                }
            }
        } else {
            self.entries.insert(p, (group_id, item_id, value));
            proof {
                let u = self.entries@;
                assert(u =~= s.insert(p as int, (group_id, item_id, value)));
                assert forall|i: int| p < i < u.len() implies key_lt(key, (u[i].0, u[i].1)) by {
                    assert(u[i] == s[i - 1]);
                    if i - 1 > p {
                        assert(key_lt((s[p as int].0, s[p as int].1), (s[i - 1].0, s[i - 1].1)));
                    }
                }
                assert forall|i: int, j: int| 0 <= i < j < u.len() implies key_lt(
                    (u[i].0, u[i].1),
                    (u[j].0, u[j].1),
                ) by {
                    if j < p {
                        assert(u[i] == s[i] && u[j] == s[j]);
                    } else if j == p {
                        assert(u[i] == s[i]);
                    } else if i < p {
                        assert(u[i] == s[i]);
                        assert(key_lt(key, (u[j].0, u[j].1)));
                    } else if i == p {
                        assert(key_lt(key, (u[j].0, u[j].1)));
                    } else {
                        assert(u[i] == s[i - 1] && u[j] == s[j - 1]);
                    }
                }
                assert(self.items() =~= old(self).items().insert(key, value)) by {
                    assert forall|k: (GroupId, ItemId)| #[trigger] self.items().contains_key(k)
                        == old(self).items().insert(key, value).contains_key(k) by {
                        if old(self).items().contains_key(k) {
                            let i = choose|i: int| 0 <= i < s.len() && (s[i].0, s[i].1) == k;
                            if i < p {
                                assert((u[i].0, u[i].1) == k);
                            } else {
                                assert((u[i + 1].0, u[i + 1].1) == k);
                            }
                        }
                        if k == key {
                            assert((u[p as int].0, u[p as int].1) == k);
                        }
                        if self.items().contains_key(k) {
                            let i = choose|i: int| 0 <= i < u.len() && (u[i].0, u[i].1) == k;
                            if i < p {
                                assert((s[i].0, s[i].1) == k);
                            } else if i > p {
                                assert((s[i - 1].0, s[i - 1].1) == k);
                            }
                        }
                    }
                    assert forall|k: (GroupId, ItemId)| #[trigger] self.items().contains_key(k)
                        implies self.items()[k] == old(self).items().insert(key, value)[k] by {
                        let i = choose|i: int| 0 <= i < u.len() && (u[i].0, u[i].1) == k;
                        if k == key {
                            assert(i == p);
                        } else {
                            let i0 = choose|i: int| 0 <= i < s.len() && (s[i].0, s[i].1) == k;
                            let i1 = if i0 < p {
                                i0
                            } else {
                                i0 + 1
                            };
                            assert(u[i1] == s[i0]);
                            if i1 < i {
                                assert(key_lt((u[i1].0, u[i1].1), (u[i].0, u[i].1)));
                            } else if i < i1 {
                                assert(key_lt((u[i].0, u[i].1), (u[i1].0, u[i1].1)));
                            }
                        }
                    }
                }
            }
        }
    }
}

/// (group id, item id) comes strictly before (group id, item id)
fn key_lt_exec(a: (GroupId, ItemId), b: (GroupId, ItemId)) -> (r: bool)
    ensures
        r == key_lt(a, b),
{
    a.0 < b.0 || (a.0 == b.0 && a.1 < b.1)
}

/// the remaining elements of each partition
pub open spec fn part_views<V: Copy>(iters: Seq<DoubleEndedPeekable<(ItemId, V)>>) -> Seq<
    Seq<(ItemId, V)>,
> {
    iters.map_values(|p: DoubleEndedPeekable<(ItemId, V)>| p.view())
}

/// item ids strictly increase along the partition
pub open spec fn ascending<V>(p: Seq<(ItemId, V)>) -> bool {
    forall|i: int, j: int| 0 <= i < j < p.len() ==> p[i].0 < p[j].0
}

/// the partitions one after another
pub open spec fn flatten<V>(parts: Seq<Seq<(ItemId, V)>>) -> Seq<(ItemId, V)>
    decreases parts.len(),
{
    if parts.len() == 0 {
        Seq::empty()
    } else {
        flatten(parts.drop_last()).add(parts.last())
    }
}

/// every partition is well formed and ascending
pub open spec fn parts_wf<V: Copy>(iters: Seq<DoubleEndedPeekable<(ItemId, V)>>) -> bool {
    &&& forall|j: int| 0 <= j < iters.len() ==> #[trigger] iters[j].wf()
    &&& forall|j: int| 0 <= j < iters.len() ==> ascending(#[trigger] iters[j].view())
    &&& flatten(part_views(iters)).len() <= usize::MAX
}

/// no element of the partitions has an id below `x`
pub open spec fn all_at_least<V>(parts: Seq<Seq<(ItemId, V)>>, x: ItemId) -> bool {
    forall|j: int, k: int| 0 <= j < parts.len() && 0 <= k < parts[j].len() ==> x <= #[trigger] parts[j][k].0
}

/// no element of the partitions has an id above `x`
pub open spec fn all_at_most<V>(parts: Seq<Seq<(ItemId, V)>>, x: ItemId) -> bool {
    forall|j: int, k: int| 0 <= j < parts.len() && 0 <= k < parts[j].len() ==> #[trigger] parts[j][k].0 <= x
}

proof fn lemma_flatten_push<V>(parts: Seq<Seq<(ItemId, V)>>, q: Seq<(ItemId, V)>)
    ensures
        flatten(parts.push(q)) == flatten(parts).add(q),
{
    assert(parts.push(q).drop_last() =~= parts);
}

proof fn lemma_flatten_update<V>(parts: Seq<Seq<(ItemId, V)>>, j: int, q: Seq<(ItemId, V)>)
    requires
        0 <= j < parts.len(),
    ensures
        flatten(parts.update(j, q)).len() == flatten(parts).len() - parts[j].len() + q.len(),
    decreases parts.len(),
{
    let u = parts.update(j, q);
    if j == parts.len() - 1 {
        assert(u.drop_last() =~= parts.drop_last());
    } else {
        assert(u.drop_last() =~= parts.drop_last().update(j, q));
        lemma_flatten_update(parts.drop_last(), j, q);
    }
}

proof fn lemma_flatten_empty<V>(parts: Seq<Seq<(ItemId, V)>>)
    ensures
        flatten(parts).len() == 0 <==> forall|j: int| 0 <= j < parts.len() ==> #[trigger] parts[j].len() == 0,
    decreases parts.len(),
{
    if parts.len() > 0 {
        lemma_flatten_empty(parts.drop_last());
        if flatten(parts).len() == 0 {
            assert forall|j: int| 0 <= j < parts.len() implies #[trigger] parts[j].len() == 0 by {
                if j < parts.len() - 1 {
                    assert(parts.drop_last()[j] == parts[j]);
                }
            }
        }
        if forall|j: int| 0 <= j < parts.len() ==> #[trigger] parts[j].len() == 0 {
            assert(parts.last().len() == 0);
            assert forall|j: int| 0 <= j < parts.drop_last().len() implies #[trigger] parts.drop_last()[j].len() == 0 by {
                assert(parts.drop_last()[j] == parts[j]);
            }
        }
    }
}

/// Takes the element with the least item id among the heads of the
/// partitions; of equal ids the one of the later partition.
fn merge_next<V: Copy>(iters: &mut Vec<DoubleEndedPeekable<(ItemId, V)>>) -> (r: Option<(ItemId, V)>)
    requires
        parts_wf(old(iters)@),
    ensures
        parts_wf(final(iters)@),
        final(iters)@.len() == old(iters)@.len(),
        r is None <==> flatten(part_views(old(iters)@)).len() == 0,
        r is None ==> part_views(final(iters)@) == part_views(old(iters)@),
        r matches Some(x) ==> {
            &&& all_at_least(part_views(old(iters)@), x.0)
            &&& flatten(part_views(final(iters)@)).len() == flatten(part_views(old(iters)@)).len() - 1
            &&& exists|j: int|
                0 <= j < old(iters)@.len() && old(iters)@[j].view().len() > 0 && x == old(
                    iters,
                )@[j].view()[0] && part_views(final(iters)@) == part_views(old(iters)@).update(
                    j,
                    old(iters)@[j].view().drop_first(),
                )
        },
{
    let ghost parts = part_views(iters@);
    let mut target: Option<usize> = None;
    let mut min_item_id: ItemId = 0;
    let mut index: usize = 0;
    while index < iters.len()
        invariant
            parts_wf(iters@),
            parts == part_views(iters@),
            index <= iters@.len(),
            match target {
                None => forall|j: int| 0 <= j < index ==> #[trigger] parts[j].len() == 0,
                Some(t) => t < index && parts[t as int].len() > 0 && parts[t as int][0].0
                    == min_item_id && forall|j: int|
                    0 <= j < index && #[trigger] parts[j].len() > 0 ==> min_item_id <= parts[j][0].0,
            },
        decreases iters@.len() - index,
    {
        if let Some((item_id, _)) = iters[index].peek() {
            match target {
                None => {
                    target = Some(index);
                    min_item_id = item_id;
                },
                Some(_) => {
                    if min_item_id >= item_id {
                        target = Some(index);
                        min_item_id = item_id;
                    }
                },
            }
        }
        index += 1;
    }
    match target {
        None => {
            proof {
                lemma_flatten_empty(parts);
            }
            None
        },
        Some(t) => {
            proof {
                assert(forall|j: int| 0 <= j < parts.len() && #[trigger] parts[j].len() > 0 ==> min_item_id <= parts[j][0].0);
                assert forall|j: int, k: int| 0 <= j < parts.len() && 0 <= k < parts[j].len() implies min_item_id <= #[trigger] parts[j][k].0 by {
                    assert(iters@[j].view() == parts[j]);
                    assert(ascending(iters@[j].view()));
                    if k > 0 {
                        assert(parts[j][0].0 < parts[j][k].0);
                    }
                }
                lemma_flatten_empty(parts);
                assert(parts[t as int].len() > 0);
            }
            let mut it = iters.remove(t);
            let x = it.next();
            iters.insert(t, it);
            proof {
                assert(part_views(iters@) =~= parts.update(t as int, parts[t as int].drop_first()));
                lemma_flatten_update(parts, t as int, parts[t as int].drop_first());
                assert forall|j: int| 0 <= j < iters@.len() implies ascending(#[trigger] iters@[j].view()) by {
                    if j != t {
                        assert(iters@[j] == old(iters)@[j]);
                    }
                }
                assert forall|j: int| 0 <= j < iters@.len() implies #[trigger] iters@[j].wf() by {
                    if j != t {
                        assert(iters@[j] == old(iters)@[j]);
                    }
                }
            }
            x
        },
    }
}

/// Takes the element with the greatest item id among the tails of the
/// partitions; of equal ids the one of the later partition.
fn merge_next_back<V: Copy>(iters: &mut Vec<DoubleEndedPeekable<(ItemId, V)>>) -> (r: Option<(ItemId, V)>)
    requires
        parts_wf(old(iters)@),
    ensures
        parts_wf(final(iters)@),
        final(iters)@.len() == old(iters)@.len(),
        r is None <==> flatten(part_views(old(iters)@)).len() == 0,
        r is None ==> part_views(final(iters)@) == part_views(old(iters)@),
        r matches Some(x) ==> {
            &&& all_at_most(part_views(old(iters)@), x.0)
            &&& flatten(part_views(final(iters)@)).len() == flatten(part_views(old(iters)@)).len() - 1
            &&& exists|j: int|
                0 <= j < old(iters)@.len() && old(iters)@[j].view().len() > 0 && x == old(
                    iters,
                )@[j].view().last() && part_views(final(iters)@) == part_views(old(iters)@).update(
                    j,
                    old(iters)@[j].view().drop_last(),
                )
        },
{
    let ghost parts = part_views(iters@);
    let mut target: Option<usize> = None;
    let mut max_item_id: ItemId = 0;
    let mut index: usize = 0;
    while index < iters.len()
        invariant
            parts_wf(iters@),
            parts == part_views(iters@),
            index <= iters@.len(),
            match target {
                None => forall|j: int| 0 <= j < index ==> #[trigger] parts[j].len() == 0,
                Some(t) => t < index && parts[t as int].len() > 0 && parts[t as int].last().0
                    == max_item_id && forall|j: int|
                    0 <= j < index && #[trigger] parts[j].len() > 0 ==> parts[j].last().0 <= max_item_id,
            },
        decreases iters@.len() - index,
    {
        if let Some((item_id, _)) = iters[index].peek_back() {
            match target {
                None => {
                    target = Some(index);
                    max_item_id = item_id;
                },
                Some(_) => {
                    if max_item_id <= item_id {
                        target = Some(index);
                        max_item_id = item_id;
                    }
                },
            }
        }
        index += 1;
    }
    match target {
        None => {
            proof {
                lemma_flatten_empty(parts);
            }
            None
        },
        Some(t) => {
            proof {
                assert forall|j: int, k: int| 0 <= j < parts.len() && 0 <= k < parts[j].len() implies #[trigger] parts[j][k].0 <= max_item_id by {
                    assert(iters@[j].view() == parts[j]);
                    assert(ascending(iters@[j].view()));
                    assert(parts[j].len() > 0);
                    if k < parts[j].len() - 1 {
                        assert(parts[j][k].0 < parts[j][parts[j].len() - 1].0);
                    }
                }
                lemma_flatten_empty(parts);
                assert(parts[t as int].len() > 0);
            }
            let mut it = iters.remove(t);
            let x = it.next_back();
            iters.insert(t, it);
            proof {
                assert(part_views(iters@) =~= parts.update(t as int, parts[t as int].drop_last()));
                lemma_flatten_update(parts, t as int, parts[t as int].drop_last());
                assert forall|j: int| 0 <= j < iters@.len() implies ascending(#[trigger] iters@[j].view()) by {
                    if j != t {
                        assert(iters@[j] == old(iters)@[j]);
                    }
                }
                assert forall|j: int| 0 <= j < iters@.len() implies #[trigger] iters@[j].wf() by {
                    if j != t {
                        assert(iters@[j] == old(iters)@[j]);
                    }
                }
            }
            x
        },
    }
}

/// the group is selected: every group without a list, else those in the list
pub open spec fn admitted(list: Option<Seq<GroupId>>, g: GroupId) -> bool {
    match list {
        None => true,
        Some(l) => l.contains(g),
    }
}

/// (item id, value) of the entries of the selected groups, in order
pub open spec fn select<V>(s: Seq<(GroupId, ItemId, V)>, list: Option<Seq<GroupId>>) -> Seq<
    (ItemId, V),
>
    decreases s.len(),
{
    if s.len() == 0 {
        Seq::empty()
    } else {
        select(s.drop_last(), list).add(
            if admitted(list, s.last().0) {
                seq![(s.last().1, s.last().2)]
            } else {
                Seq::empty()
            },
        )
    }
}

proof fn lemma_select_len<V>(s: Seq<(GroupId, ItemId, V)>, list: Option<Seq<GroupId>>)
    ensures
        select(s, list).len() <= s.len(),
    decreases s.len(),
{
    if s.len() > 0 {
        lemma_select_len(s.drop_last(), list);
    }
}

proof fn lemma_seen_before<V>(s: Seq<(GroupId, ItemId, V)>, i: int, g: GroupId)
    requires
        0 <= i < s.len(),
        s[i].0 != g,
    ensures
        (exists|j: int| 0 <= j < i + 1 && #[trigger] s[j].0 == g) <==> (exists|j: int|
            0 <= j < i && #[trigger] s[j].0 == g),
{
    if exists|j: int| 0 <= j < i + 1 && #[trigger] s[j].0 == g {
        let j = choose|j: int| 0 <= j < i + 1 && #[trigger] s[j].0 == g;
        assert(0 <= j < i && s[j].0 == g);
    }
    if exists|j: int| 0 <= j < i && #[trigger] s[j].0 == g {
        let j = choose|j: int| 0 <= j < i && #[trigger] s[j].0 == g;
        assert(0 <= j < i + 1 && s[j].0 == g);
    }
}

fn slice_contains(v: &[GroupId], x: GroupId) -> (r: bool)
    ensures
        r == v@.contains(x),
{
    let mut i: usize = 0;
    while i < v.len()
        invariant
            i <= v@.len(),
            forall|j: int| 0 <= j < i ==> v@[j] != x,
        decreases v@.len() - i,
    {
        if v[i] == x {
            proof {
                assert(v@[i as int] == x);
            }
            return true;
        }
        i += 1;
    }
    false
}

/// the list as a sequence, if any
pub open spec fn list_view(list: Option<&[GroupId]>) -> Option<Seq<GroupId>> {
    match list {
        Some(l) => Some(l@),
        None => None,
    }
}

/// Splits the entries of the selected groups into one ascending partition per
/// group, in the order of groups; also returns those groups.
fn partition<V: Copy>(map: &GroupedItems<V>, list: Option<&[GroupId]>) -> (r: (
    Vec<GroupId>,
    Vec<DoubleEndedPeekable<(ItemId, V)>>,
))
    requires
        map.wf(),
    ensures
        parts_wf(r.1@),
        flatten(part_views(r.1@)) == select(map.view(), list_view(list)),
        forall|a: int, b: int| 0 <= a < b < r.0@.len() ==> r.0@[a] < r.0@[b],
        forall|g: GroupId|
            #[trigger] r.0@.contains(g) <==> (admitted(list_view(list), g) && exists|j: int|
                0 <= j < map.view().len() && #[trigger] map.view()[j].0 == g),
{
    let ghost s = map.view();
    let ghost lv = list_view(list);
    let mut built: Vec<DoubleEndedPeekable<(ItemId, V)>> = Vec::new();
    let mut groups: Vec<GroupId> = Vec::new();
    let mut cur: Vec<(ItemId, V)> = Vec::new();
    let mut cur_group: GroupId = 0;
    let mut cur_selected: bool = false;
    let mut i: usize = 0;
    proof {
        assert(s.take(0) =~= Seq::<(GroupId, ItemId, V)>::empty());
        assert(flatten(part_views(built@)) =~= Seq::<(ItemId, V)>::empty());
    }
    while i < map.entries.len()
        invariant
            map.wf(),
            s == map.view(),
            s == map.entries@,
            lv == list_view(list),
            i <= s.len(),
            forall|j: int| 0 <= j < built@.len() ==> #[trigger] built@[j].wf(),
            forall|j: int| 0 <= j < built@.len() ==> ascending(#[trigger] built@[j].view()),
            flatten(part_views(built@)).add(cur@) == select(s.take(i as int), lv),
            i > 0 ==> cur_group == s[i - 1].0 && cur_selected == admitted(lv, cur_group),
            i == 0 ==> cur@.len() == 0,
            ascending(cur@),
            cur@.len() > 0 ==> i > 0 && cur@.last().0 == s[i - 1].1 && cur_selected,
            forall|a: int, b: int| 0 <= a < b < groups@.len() ==> groups@[a] < groups@[b],
            groups@.len() > 0 ==> i > 0 && groups@.last() <= s[i - 1].0,
            forall|g: GroupId|
                #[trigger] groups@.contains(g) <==> (admitted(lv, g) && exists|j: int|
                    0 <= j < i && #[trigger] s[j].0 == g),
        decreases s.len() - i,
    {
        let e = map.entries[i];
        proof {
            assert(s.take(i + 1) =~= s.take(i as int).push(s[i as int]));
            assert(s.take(i + 1).drop_last() =~= s.take(i as int));
            if i > 0 {
                assert(key_lt((s[i - 1].0, s[i - 1].1), (s[i as int].0, s[i as int].1)));
            }
        }
        if i == 0 || e.0 != cur_group {
            if cur.len() > 0 {
                let ghost old_built = built@;
                let ghost cv = cur@;
                let part = DoubleEndedPeekable::from_iter(cur);
                built.push(part);
                proof {
                    assert(part_views(built@) =~= part_views(old_built).push(cv));
                    lemma_flatten_push(part_views(old_built), cv);
                    assert forall|j: int| 0 <= j < built@.len() implies ascending(#[trigger] built@[j].view()) by {
                        if j < old_built.len() {
                            assert(built@[j] == old_built[j]);
                        }
                    }
                    assert forall|j: int| 0 <= j < built@.len() implies #[trigger] built@[j].wf() by {
                        if j < old_built.len() {
                            assert(built@[j] == old_built[j]);
                        }
                    }
                }
                cur = Vec::new();
                proof {
                    assert(flatten(part_views(built@)).add(cur@) =~= flatten(part_views(old_built)).add(cv));
                }
            } else {
                proof {
                    assert(flatten(part_views(built@)).add(cur@) =~= flatten(part_views(built@)));
                }
                cur = Vec::new();
                proof {
                    assert(flatten(part_views(built@)).add(cur@) =~= flatten(part_views(built@)));
                }
            }
            cur_group = e.0;
            cur_selected = match list {
                None => true,
                Some(l) => slice_contains(l, e.0),
            };
            proof {
                assert(cur_selected == admitted(lv, e.0));
                assert(e.0 == s[i as int].0);
            }
            if cur_selected {
                proof {
                    if groups@.len() > 0 {
                        assert(groups@.last() <= s[i - 1].0);
                        assert(s[i - 1].0 < s[i as int].0);
                    }
                }
                let ghost old_groups = groups@;
                proof {
                    assert(forall|g: GroupId|
                        #[trigger] old_groups.contains(g) <==> (admitted(lv, g) && exists|j: int|
                            0 <= j < i && #[trigger] s[j].0 == g));
                }
                groups.push(e.0);
                proof {
                    assert forall|g: GroupId|
                        #[trigger] groups@.contains(g) <==> (admitted(lv, g) && exists|j: int|
                            0 <= j < i + 1 && #[trigger] s[j].0 == g) by {
                        if g == e.0 {
                            assert(groups@[groups@.len() - 1] == g);
                            assert(groups@.contains(g));
                            assert(s[i as int].0 == g);
                            assert(exists|j: int| 0 <= j < i + 1 && #[trigger] s[j].0 == g);
                            assert(admitted(lv, g));
                        } else {
                            assert(groups@.contains(g) <==> old_groups.contains(g)) by {
                                if groups@.contains(g) {
                                    let a = choose|a: int| 0 <= a < groups@.len() && groups@[a] == g;
                                    assert(old_groups[a] == g);
                                }
                                if old_groups.contains(g) {
                                    let a = choose|a: int| 0 <= a < old_groups.len() && old_groups[a] == g;
                                    assert(groups@[a] == g);
                                }
                            }
                            lemma_seen_before(s, i as int, g);
                        }
                    }
                }
            } else {
                proof {
                    assert forall|g: GroupId|
                        #[trigger] groups@.contains(g) <==> (admitted(lv, g) && exists|j: int|
                            0 <= j < i + 1 && #[trigger] s[j].0 == g) by {
                        if g == e.0 {
                            assert(s[i as int].0 == g);
                            assert(!admitted(lv, g));
                            assert(!groups@.contains(g));
                        } else {
                            lemma_seen_before(s, i as int, g);
                        }
                    }
                }
            }
        } else {
            proof {
                assert forall|g: GroupId|
                    #[trigger] groups@.contains(g) <==> (admitted(lv, g) && exists|j: int|
                        0 <= j < i + 1 && #[trigger] s[j].0 == g) by {
                    if g == e.0 {
                        let k: int = i - 1;
                        assert(s[k].0 == g);
                        assert(exists|j: int| 0 <= j < i && #[trigger] s[j].0 == g);
                        assert(s[i as int].0 == g);
                        assert(exists|j: int| 0 <= j < i + 1 && #[trigger] s[j].0 == g);
                        assert(groups@.contains(g) <==> admitted(lv, g));
                    } else {
                        lemma_seen_before(s, i as int, g);
                    }
                }
            }
        }
        if cur_selected {
            let ghost cv = cur@;
            cur.push((e.1, e.2));
            proof {
                assert forall|a: int, b: int| 0 <= a < b < cur@.len() implies cur@[a].0 < cur@[b].0 by {
                    if b == cur@.len() - 1 && a < b {
                        assert(cv[a].0 <= cv.last().0);
                    }
                }
            }
        }
        proof {
            assert(select(s.take(i + 1), lv) =~= select(s.take(i as int), lv).add(
                if admitted(lv, s[i as int].0) {
                    seq![(s[i as int].1, s[i as int].2)]
                } else {
                    Seq::empty()
                },
            ));
        }
        i += 1;
    }
    if cur.len() > 0 {
        let ghost old_built = built@;
        let ghost cv = cur@;
        built.push(DoubleEndedPeekable::from_iter(cur));
        proof {
            assert(part_views(built@) =~= part_views(old_built).push(cv));
            lemma_flatten_push(part_views(old_built), cv);
            assert forall|j: int| 0 <= j < built@.len() implies ascending(#[trigger] built@[j].view()) by {
                if j < old_built.len() {
                    assert(built@[j] == old_built[j]);
                }
            }
            assert forall|j: int| 0 <= j < built@.len() implies #[trigger] built@[j].wf() by {
                if j < old_built.len() {
                    assert(built@[j] == old_built[j]);
                }
            }
        }
    } else {
        proof {
            assert(flatten(part_views(built@)).add(cur@) =~= flatten(part_views(built@)));
        }
    }
    proof {
        assert(s.take(s.len() as int) =~= s);
        lemma_select_len(s, lv);
    }
    (groups, built)
}

proof fn lemma_flatten_take<V>(parts: Seq<Seq<(ItemId, V)>>, k: int)
    requires
        0 <= k < parts.len(),
    ensures
        flatten(parts.take(k + 1)) == flatten(parts.take(k)).add(parts[k]),
        flatten(parts.take(k + 1)).len() <= flatten(parts).len(),
    decreases parts.len(),
{
    assert(parts.take(k + 1).drop_last() =~= parts.take(k));
    if k + 1 < parts.len() {
        lemma_flatten_take(parts.drop_last(), k);
        assert(parts.drop_last().take(k + 1) =~= parts.take(k + 1));
        assert(parts.drop_last().take(k) =~= parts.take(k));
    } else {
        assert(parts.take(k + 1) =~= parts);
    }
}

/// number of elements left in the partitions
fn total_len<V: Copy>(iters: &Vec<DoubleEndedPeekable<(ItemId, V)>>) -> (r: usize)
    requires
        parts_wf(iters@),
    ensures
        r == flatten(part_views(iters@)).len(),
{
    let ghost parts = part_views(iters@);
    let mut sum: usize = 0;
    let mut k: usize = 0;
    proof {
        assert(parts.take(0) =~= Seq::<Seq<(ItemId, V)>>::empty());
    }
    while k < iters.len()
        invariant
            parts_wf(iters@),
            parts == part_views(iters@),
            k <= iters@.len(),
            sum == flatten(parts.take(k as int)).len(),
        decreases iters@.len() - k,
    {
        proof {
            lemma_flatten_take(parts, k as int);
            assert(iters@[k as int].view() == parts[k as int]);
        }
        sum = sum + iters[k].len();
        k += 1;
    }
    proof {
        assert(parts.take(iters@.len() as int) =~= parts);
    }
    sum
}

/// the elements of the partitions after one of them lost its first element
/// are elements of the partitions before
proof fn lemma_update_bounds<V>(parts: Seq<Seq<(ItemId, V)>>, j: int, front: bool, x: ItemId, up: bool)
    requires
        0 <= j < parts.len(),
        parts[j].len() > 0,
        up ==> all_at_least(parts, x),
        !up ==> all_at_most(parts, x),
    ensures
        up ==> all_at_least(
            parts.update(j, if front { parts[j].drop_first() } else { parts[j].drop_last() }),
            x,
        ),
        !up ==> all_at_most(
            parts.update(j, if front { parts[j].drop_first() } else { parts[j].drop_last() }),
            x,
        ),
{
    let u = parts.update(j, if front { parts[j].drop_first() } else { parts[j].drop_last() });
    assert forall|a: int, b: int| 0 <= a < u.len() && 0 <= b < u[a].len() implies (up ==> x
        <= #[trigger] u[a][b].0) && (!up ==> u[a][b].0 <= x) by {
        if a == j {
            if front {
                assert(u[a][b] == parts[j][b + 1]);
            } else {
                assert(u[a][b] == parts[j][b]);
            }
        } else {
            assert(u[a] == parts[a]);
        }
    }
}

proof fn lemma_flatten_update_multiset<V>(parts: Seq<Seq<(ItemId, V)>>, j: int, q: Seq<(ItemId, V)>)
    requires
        0 <= j < parts.len(),
    ensures
        flatten(parts.update(j, q)).to_multiset().add(parts[j].to_multiset()) =~= flatten(
            parts,
        ).to_multiset().add(q.to_multiset()),
    decreases parts.len(),
{
    broadcast use vstd::seq_lib::lemma_multiset_commutative;
    broadcast use vstd::multiset::group_multiset_axioms;

    let u = parts.update(j, q);
    let t = parts.drop_last();
    if j == parts.len() - 1 {
        assert(u.drop_last() =~= t);
        assert(flatten(u) == flatten(t).add(q));
        assert(flatten(parts) == flatten(t).add(parts.last()));
        vstd::seq_lib::lemma_multiset_commutative(flatten(t), q);
        vstd::seq_lib::lemma_multiset_commutative(flatten(t), parts.last());
        let a = flatten(t).to_multiset();
        let lhs = flatten(u).to_multiset().add(parts[j].to_multiset());
        let rhs = flatten(parts).to_multiset().add(q.to_multiset());
        assert forall|y: (ItemId, V)| #[trigger] lhs.count(y) == rhs.count(y) by {
        }
    } else {
        assert(u.drop_last() =~= t.update(j, q));
        lemma_flatten_update_multiset(t, j, q);
        assert(t[j] == parts[j]);
        assert(u.last() == parts.last());
        assert(flatten(u) == flatten(t.update(j, q)).add(parts.last()));
        assert(flatten(parts) == flatten(t).add(parts.last()));
        vstd::seq_lib::lemma_multiset_commutative(flatten(t.update(j, q)), parts.last());
        vstd::seq_lib::lemma_multiset_commutative(flatten(t), parts.last());
        let lhs = flatten(u).to_multiset().add(parts[j].to_multiset());
        let rhs = flatten(parts).to_multiset().add(q.to_multiset());
        let l0 = flatten(t.update(j, q)).to_multiset().add(t[j].to_multiset());
        let r0 = flatten(t).to_multiset().add(q.to_multiset());
        assert forall|y: (ItemId, V)| #[trigger] lhs.count(y) == rhs.count(y) by {
            assert(l0.count(y) == r0.count(y));
        }
    }
}

/// taking the first or the last element of a partition takes it out of the
/// multiset of all elements
proof fn lemma_take_one<V>(parts: Seq<Seq<(ItemId, V)>>, j: int, front: bool)
    requires
        0 <= j < parts.len(),
        parts[j].len() > 0,
    ensures
        flatten(
            parts.update(j, if front { parts[j].drop_first() } else { parts[j].drop_last() }),
        ).to_multiset().insert(if front { parts[j][0] } else { parts[j].last() }) =~= flatten(
            parts,
        ).to_multiset(),
{
    broadcast use vstd::seq_lib::lemma_multiset_commutative;
    broadcast use vstd::multiset::group_multiset_axioms;

    let p = parts[j];
    let q = if front { p.drop_first() } else { p.drop_last() };
    let x = if front { p[0] } else { p.last() };
    lemma_flatten_update_multiset(parts, j, q);
    if front {
        assert(p =~= seq![x].add(q));
    } else {
        assert(p =~= q.add(seq![x]));
    }
    assert(seq![x].to_multiset() =~= Multiset::empty().insert(x)) by {
        assert(Seq::<(ItemId, V)>::empty().push(x) =~= seq![x]);
        vstd::seq_lib::to_multiset_build(Seq::<(ItemId, V)>::empty(), x);
        Seq::<(ItemId, V)>::empty().to_multiset_ensures();
    }
    let a = flatten(parts.update(j, q)).to_multiset();
    let b = flatten(parts).to_multiset();
    assert(a.add(p.to_multiset()) =~= b.add(q.to_multiset()));
    assert(p.to_multiset() =~= q.to_multiset().insert(x));
    assert forall|y: (ItemId, V)| #[trigger] a.insert(x).count(y) == b.count(y) by {
        assert(a.add(p.to_multiset()).count(y) == b.add(q.to_multiset()).count(y));
    }
}

/// Takes every element left in ascending order of item ids.
fn collect_up<V: Copy>(iters: &mut Vec<DoubleEndedPeekable<(ItemId, V)>>) -> (r: Vec<(ItemId, V)>)
    requires
        parts_wf(old(iters)@),
    ensures
        parts_wf(final(iters)@),
        r@.len() == flatten(part_views(old(iters)@)).len(),
        flatten(part_views(final(iters)@)).len() == 0,
        r@.to_multiset() == flatten(part_views(old(iters)@)).to_multiset(),
        forall|a: int, b: int| 0 <= a < b < r@.len() ==> r@[a].0 <= r@[b].0,
{
    let n = total_len(iters);
    proof {
        broadcast use vstd::multiset::group_multiset_axioms;

        Seq::<(ItemId, V)>::empty().to_multiset_ensures();
        assert(Seq::<(ItemId, V)>::empty().to_multiset().add(flatten(part_views(iters@)).to_multiset()) =~= flatten(part_views(iters@)).to_multiset());
    }
    let mut out: Vec<(ItemId, V)> = Vec::new();
    let mut k: usize = 0;
    while k < n
        invariant
            parts_wf(iters@),
            k <= n,
            n == flatten(part_views(old(iters)@)).len(),
            out@.len() == k,
            out@.to_multiset().add(flatten(part_views(iters@)).to_multiset())
                == flatten(part_views(old(iters)@)).to_multiset(),
            flatten(part_views(iters@)).len() == n - k,
            forall|a: int, b: int| 0 <= a < b < out@.len() ==> out@[a].0 <= out@[b].0,
            out@.len() > 0 ==> all_at_least(part_views(iters@), out@.last().0),
        decreases n - k,
    {
        let ghost before = part_views(iters@);
        let ghost old_iters = iters@;
        let x = merge_next(iters);
        match x {
            Some(x) => {
                proof {
                    let j = choose|j: int|
                        0 <= j < old_iters.len() && old_iters[j].view().len() > 0 && x == old_iters[j].view()[0]
                            && part_views(iters@) == part_views(old_iters).update(j, old_iters[j].view().drop_first());
                    assert(before[j] == old_iters[j].view());
                    if out@.len() > 0 {
                        assert(out@.last().0 <= before[j][0].0);
                    }
                    lemma_update_bounds(before, j, true, x.0, true);
                }
                let ghost before_out = out@;
                out.push(x);
                proof {
                    broadcast use vstd::multiset::group_multiset_axioms;

                    let j = choose|j: int|
                        0 <= j < old_iters.len() && old_iters[j].view().len() > 0 && x == old_iters[j].view()[0]
                            && part_views(iters@) == part_views(old_iters).update(j, old_iters[j].view().drop_first());
                    assert(before[j] == old_iters[j].view());
                    lemma_take_one(before, j, true);
                    before_out.to_multiset_ensures();
                    assert(out@ == before_out.push(x));
                    assert(out@.to_multiset().add(flatten(part_views(iters@)).to_multiset()) =~= before_out.to_multiset().add(flatten(before).to_multiset()));
                }
            },
            None => {},
        }
        k += 1;
    }
    proof {
        broadcast use vstd::multiset::group_multiset_axioms;

        let rest = flatten(part_views(iters@));
        rest.to_multiset_ensures();
        assert forall|y: (ItemId, V)| #[trigger] out@.to_multiset().add(rest.to_multiset()).count(y)
            == out@.to_multiset().count(y) by {
            assert(!rest.contains(y));
        }
        assert(out@.to_multiset().add(rest.to_multiset()) =~= out@.to_multiset());
    }
    out
}

/// Takes every element left in descending order of item ids.
fn collect_down<V: Copy>(iters: &mut Vec<DoubleEndedPeekable<(ItemId, V)>>) -> (r: Vec<(ItemId, V)>)
    requires
        parts_wf(old(iters)@),
    ensures
        parts_wf(final(iters)@),
        r@.len() == flatten(part_views(old(iters)@)).len(),
        flatten(part_views(final(iters)@)).len() == 0,
        r@.to_multiset() == flatten(part_views(old(iters)@)).to_multiset(),
        forall|a: int, b: int| 0 <= a < b < r@.len() ==> r@[a].0 >= r@[b].0,
{
    let n = total_len(iters);
    proof {
        broadcast use vstd::multiset::group_multiset_axioms;

        Seq::<(ItemId, V)>::empty().to_multiset_ensures();
        assert(Seq::<(ItemId, V)>::empty().to_multiset().add(flatten(part_views(iters@)).to_multiset()) =~= flatten(part_views(iters@)).to_multiset());
    }
    let mut out: Vec<(ItemId, V)> = Vec::new();
    let mut k: usize = 0;
    while k < n
        invariant
            parts_wf(iters@),
            k <= n,
            n == flatten(part_views(old(iters)@)).len(),
            out@.len() == k,
            out@.to_multiset().add(flatten(part_views(iters@)).to_multiset())
                == flatten(part_views(old(iters)@)).to_multiset(),
            flatten(part_views(iters@)).len() == n - k,
            forall|a: int, b: int| 0 <= a < b < out@.len() ==> out@[a].0 >= out@[b].0,
            out@.len() > 0 ==> all_at_most(part_views(iters@), out@.last().0),
        decreases n - k,
    {
        let ghost before = part_views(iters@);
        let ghost old_iters = iters@;
        let x = merge_next_back(iters);
        match x {
            Some(x) => {
                proof {
                    let j = choose|j: int|
                        0 <= j < old_iters.len() && old_iters[j].view().len() > 0 && x == old_iters[j].view().last()
                            && part_views(iters@) == part_views(old_iters).update(j, old_iters[j].view().drop_last());
                    assert(before[j] == old_iters[j].view());
                    if out@.len() > 0 {
                        assert(before[j].last().0 <= out@.last().0);
                    }
                    lemma_update_bounds(before, j, false, x.0, false);
                }
                let ghost before_out = out@;
                out.push(x);
                proof {
                    broadcast use vstd::multiset::group_multiset_axioms;

                    let j = choose|j: int|
                        0 <= j < old_iters.len() && old_iters[j].view().len() > 0 && x == old_iters[j].view().last()
                            && part_views(iters@) == part_views(old_iters).update(j, old_iters[j].view().drop_last());
                    assert(before[j] == old_iters[j].view());
                    lemma_take_one(before, j, false);
                    before_out.to_multiset_ensures();
                    assert(out@ == before_out.push(x));
                    assert(out@.to_multiset().add(flatten(part_views(iters@)).to_multiset()) =~= before_out.to_multiset().add(flatten(before).to_multiset()));
                }
            },
            None => {},
        }
        k += 1;
    }
    proof {
        broadcast use vstd::multiset::group_multiset_axioms;

        let rest = flatten(part_views(iters@));
        rest.to_multiset_ensures();
        assert forall|y: (ItemId, V)| #[trigger] out@.to_multiset().add(rest.to_multiset()).count(y)
            == out@.to_multiset().count(y) by {
            assert(!rest.contains(y));
        }
        assert(out@.to_multiset().add(rest.to_multiset()) =~= out@.to_multiset());
    }
    out
}

/// Iterator over the items of all groups in the order of item ids.
#[derive(Debug, Clone)]
pub struct IterGroupByAll<V> {
    iters: Vec<DoubleEndedPeekable<(ItemId, V)>>,
}

impl<V: Copy> IterGroupByAll<V> {

    /// the elements left in each partition
    pub closed spec fn parts(&self) -> Seq<Seq<(ItemId, V)>> {
        part_views(self.iters@)
    }

    pub closed spec fn wf(&self) -> bool {
        parts_wf(self.iters@)
    }

    /// the elements left, partition after partition
    pub open spec fn remaining(&self) -> Seq<(ItemId, V)> {
        flatten(self.parts())
    }

    /// Takes the element with the least item id left.
    pub fn next(&mut self) -> (r: Option<(ItemId, V)>)
        requires
            old(self).wf(),
        ensures
            final(self).wf(),
            r is None <==> old(self).remaining().len() == 0,
            r is None ==> final(self).parts() == old(self).parts(),
            r matches Some(x) ==> {
                &&& all_at_least(old(self).parts(), x.0)
                &&& final(self).remaining().to_multiset().insert(x) == old(self).remaining().to_multiset()
                &&& final(self).remaining().len() == old(self).remaining().len() - 1
                &&& exists|j: int|
                    0 <= j < old(self).parts().len() && old(self).parts()[j].len() > 0 && x == old(self).parts()[j][0] && final(self).parts() == old(self).parts().update(
                        j,
                        old(self).parts()[j].drop_first(),
                    )
            },
    {
        let ghost before = self.iters@;
        let r = merge_next(&mut self.iters);
        proof {
            if let Some(x) = r {
                let j = choose|j: int|
                    0 <= j < before.len() && before[j].view().len() > 0 && x == before[j].view()[0]
                        && part_views(self.iters@) == part_views(before).update(
                        j,
                        before[j].view().drop_first(),
                    );
                assert(part_views(before)[j] == before[j].view());
                assert(old(self).parts() == part_views(before));
                lemma_take_one(part_views(before), j, true);
                assert(0 <= j < old(self).parts().len() && old(self).parts()[j].len() > 0 && x == old(self).parts()[j][0] && self.parts() == old(self).parts().update(j, old(self).parts()[j].drop_first()));
            }
        }
        r
    }

    /// Takes the element with the greatest item id left.
    pub fn next_back(&mut self) -> (r: Option<(ItemId, V)>)
        requires
            old(self).wf(),
        ensures
            final(self).wf(),
            r is None <==> old(self).remaining().len() == 0,
            r is None ==> final(self).parts() == old(self).parts(),
            r matches Some(x) ==> {
                &&& all_at_most(old(self).parts(), x.0)
                &&& final(self).remaining().to_multiset().insert(x) == old(self).remaining().to_multiset()
                &&& final(self).remaining().len() == old(self).remaining().len() - 1
                &&& exists|j: int|
                    0 <= j < old(self).parts().len() && old(self).parts()[j].len() > 0 && x == old(self).parts()[j].last() && final(self).parts() == old(self).parts().update(
                        j,
                        old(self).parts()[j].drop_last(),
                    )
            },
    {
        let ghost before = self.iters@;
        let r = merge_next_back(&mut self.iters);
        proof {
            if let Some(x) = r {
                let j = choose|j: int|
                    0 <= j < before.len() && before[j].view().len() > 0 && x == before[j].view().last()
                        && part_views(self.iters@) == part_views(before).update(
                        j,
                        before[j].view().drop_last(),
                    );
                assert(part_views(before)[j] == before[j].view());
                assert(old(self).parts() == part_views(before));
                lemma_take_one(part_views(before), j, false);
                assert(0 <= j < old(self).parts().len() && old(self).parts()[j].len() > 0 && x == old(self).parts()[j].last() && self.parts() == old(self).parts().update(j, old(self).parts()[j].drop_last()));
            }
        }
        r
    }

    /// number of elements left
    pub fn len(&self) -> (r: usize)
        requires
            self.wf(),
        ensures
            r == self.remaining().len(),
    {
        total_len(&self.iters)
    }

    /// Takes every element left, in ascending order of item ids.
    pub fn collect_ascending(&mut self) -> (r: Vec<(ItemId, V)>)
        requires
            old(self).wf(),
        ensures
            final(self).wf(),
            r@.len() == old(self).remaining().len(),
            r@.to_multiset() == old(self).remaining().to_multiset(),
            final(self).remaining().len() == 0,
            forall|a: int, b: int| 0 <= a < b < r@.len() ==> r@[a].0 <= r@[b].0,
    {
        collect_up(&mut self.iters)
    }

    /// Takes every element left, in descending order of item ids.
    pub fn collect_descending(&mut self) -> (r: Vec<(ItemId, V)>)
        requires
            old(self).wf(),
        ensures
            final(self).wf(),
            r@.len() == old(self).remaining().len(),
            r@.to_multiset() == old(self).remaining().to_multiset(),
            final(self).remaining().len() == 0,
            forall|a: int, b: int| 0 <= a < b < r@.len() ==> r@[a].0 >= r@[b].0,
    {
        collect_down(&mut self.iters)
    }

    /// initializer for this iterator over every group of `map`
    pub fn from_btree_map(map: &GroupedItems<V>) -> (r: Self)
        requires
            map.wf(),
        ensures
            r.wf(),
            r.remaining() == select(map.view(), None),
    {
        let (_, iters) = partition(map, None);
        IterGroupByAll { iters }
    }
}

/// Iterator over the items of the listed groups in the order of item ids.
#[derive(Debug, Clone)]
pub struct IterGroupByList<V> {
    groups: Vec<GroupId>,
    iters: Vec<DoubleEndedPeekable<(ItemId, V)>>,
}

impl<V: Copy> IterGroupByList<V> {

    /// the elements left in each partition
    pub closed spec fn parts(&self) -> Seq<Seq<(ItemId, V)>> {
        part_views(self.iters@)
    }

    pub closed spec fn wf(&self) -> bool {
        parts_wf(self.iters@)
    }

    /// the elements left, partition after partition
    pub open spec fn remaining(&self) -> Seq<(ItemId, V)> {
        flatten(self.parts())
    }

    /// Takes the element with the least item id left.
    pub fn next(&mut self) -> (r: Option<(ItemId, V)>)
        requires
            old(self).wf(),
        ensures
            final(self).wf(),
            r is None <==> old(self).remaining().len() == 0,
            r is None ==> final(self).parts() == old(self).parts(),
            r matches Some(x) ==> {
                &&& all_at_least(old(self).parts(), x.0)
                &&& final(self).remaining().to_multiset().insert(x) == old(self).remaining().to_multiset()
                &&& final(self).remaining().len() == old(self).remaining().len() - 1
                &&& exists|j: int|
                    0 <= j < old(self).parts().len() && old(self).parts()[j].len() > 0 && x == old(self).parts()[j][0] && final(self).parts() == old(self).parts().update(
                        j,
                        old(self).parts()[j].drop_first(),
                    )
            },
    {
        let ghost before = self.iters@;
        let r = merge_next(&mut self.iters);
        proof {
            if let Some(x) = r {
                let j = choose|j: int|
                    0 <= j < before.len() && before[j].view().len() > 0 && x == before[j].view()[0]
                        && part_views(self.iters@) == part_views(before).update(
                        j,
                        before[j].view().drop_first(),
                    );
                assert(part_views(before)[j] == before[j].view());
                assert(old(self).parts() == part_views(before));
                lemma_take_one(part_views(before), j, true);
                assert(0 <= j < old(self).parts().len() && old(self).parts()[j].len() > 0 && x == old(self).parts()[j][0] && self.parts() == old(self).parts().update(j, old(self).parts()[j].drop_first()));
            }
        }
        r
    }

    /// Takes the element with the greatest item id left.
    pub fn next_back(&mut self) -> (r: Option<(ItemId, V)>)
        requires
            old(self).wf(),
        ensures
            final(self).wf(),
            r is None <==> old(self).remaining().len() == 0,
            r is None ==> final(self).parts() == old(self).parts(),
            r matches Some(x) ==> {
                &&& all_at_most(old(self).parts(), x.0)
                &&& final(self).remaining().to_multiset().insert(x) == old(self).remaining().to_multiset()
                &&& final(self).remaining().len() == old(self).remaining().len() - 1
                &&& exists|j: int|
                    0 <= j < old(self).parts().len() && old(self).parts()[j].len() > 0 && x == old(self).parts()[j].last() && final(self).parts() == old(self).parts().update(
                        j,
                        old(self).parts()[j].drop_last(),
                    )
            },
    {
        let ghost before = self.iters@;
        let r = merge_next_back(&mut self.iters);
        proof {
            if let Some(x) = r {
                let j = choose|j: int|
                    0 <= j < before.len() && before[j].view().len() > 0 && x == before[j].view().last()
                        && part_views(self.iters@) == part_views(before).update(
                        j,
                        before[j].view().drop_last(),
                    );
                assert(part_views(before)[j] == before[j].view());
                assert(old(self).parts() == part_views(before));
                lemma_take_one(part_views(before), j, false);
                assert(0 <= j < old(self).parts().len() && old(self).parts()[j].len() > 0 && x == old(self).parts()[j].last() && self.parts() == old(self).parts().update(j, old(self).parts()[j].drop_last()));
            }
        }
        r
    }

    /// number of elements left
    pub fn len(&self) -> (r: usize)
        requires
            self.wf(),
        ensures
            r == self.remaining().len(),
    {
        total_len(&self.iters)
    }

    /// Takes every element left, in ascending order of item ids.
    pub fn collect_ascending(&mut self) -> (r: Vec<(ItemId, V)>)
        requires
            old(self).wf(),
        ensures
            final(self).wf(),
            r@.len() == old(self).remaining().len(),
            r@.to_multiset() == old(self).remaining().to_multiset(),
            final(self).remaining().len() == 0,
            forall|a: int, b: int| 0 <= a < b < r@.len() ==> r@[a].0 <= r@[b].0,
    {
        collect_up(&mut self.iters)
    }

    /// Takes every element left, in descending order of item ids.
    pub fn collect_descending(&mut self) -> (r: Vec<(ItemId, V)>)
        requires
            old(self).wf(),
        ensures
            final(self).wf(),
            r@.len() == old(self).remaining().len(),
            r@.to_multiset() == old(self).remaining().to_multiset(),
            final(self).remaining().len() == 0,
            forall|a: int, b: int| 0 <= a < b < r@.len() ==> r@[a].0 >= r@[b].0,
    {
        collect_down(&mut self.iters)
    }

    /// the listed groups that have items, ascending
    pub closed spec fn groups_used(&self) -> Seq<GroupId> {
        self.groups@
    }

    /// initializer for this iterator over the groups of `map` that are
    /// listed; a listed group without items is left out
    pub fn from_btree_map(groups: &[GroupId], map: &GroupedItems<V>) -> (r: Self)
        requires
            map.wf(),
        ensures
            r.wf(),
            r.remaining() == select(map.view(), Some(groups@)),
            forall|a: int, b: int|
                0 <= a < b < r.groups_used().len() ==> r.groups_used()[a] < r.groups_used()[b],
            forall|g: GroupId|
                #[trigger] r.groups_used().contains(g) <==> (groups@.contains(g) && exists|j: int|
                    0 <= j < map.view().len() && #[trigger] map.view()[j].0 == g),
    {
        let (list, iters) = partition(map, Some(groups));
        proof {
            assert forall|g: GroupId| #[trigger] list@.contains(g) <==> (groups@.contains(g) && exists|j: int|
                0 <= j < map.view().len() && #[trigger] map.view()[j].0 == g) by {
                assert(admitted(list_view(Some(groups)), g) == groups@.contains(g));
            }
        }
        IterGroupByList { groups: list, iters }
    }

    /// the listed groups that have items, ascending
    pub fn using_groups(&self) -> (r: &Vec<GroupId>)
        ensures
            r@ == self.groups_used(),
    {
        &self.groups
    }
}

/// Iterator over the items of one group in the order of item ids.
#[derive(Debug, Clone)]
pub struct IterGroupById<V> {
    group_id: GroupId,
    inner_iter: Option<DoubleEndedPeekable<(ItemId, V)>>,
}

impl<V: Copy> IterGroupById<V> {
    /// the elements left
    pub closed spec fn remaining(&self) -> Seq<(ItemId, V)> {
        match self.inner_iter {
            Some(it) => it.view(),
            None => Seq::empty(),
        }
    }

    pub closed spec fn group(&self) -> GroupId {
        self.group_id
    }

    /// the group has items in the map the iterator was made from
    pub closed spec fn found(&self) -> bool {
        self.inner_iter is Some
    }

    pub closed spec fn wf(&self) -> bool {
        match self.inner_iter {
            Some(it) => it.wf(),
            None => true,
        }
    }

    /// initializer for this iterator over the group `group_id` of `map`
    pub fn from_btree_map(group_id: &GroupId, map: &GroupedItems<V>) -> (r: Self)
        requires
            map.wf(),
        ensures
            r.wf(),
            r.group() == *group_id,
            r.remaining() == select(map.view(), Some(seq![*group_id])),
            r.found() <==> exists|j: int|
                0 <= j < map.view().len() && #[trigger] map.view()[j].0 == *group_id,
    {
        let g = *group_id;
        let ghost s = map.view();
        let ghost lv = Some(seq![g]);
        let mut cur: Vec<(ItemId, V)> = Vec::new();
        let mut i: usize = 0;
        proof {
            assert(s.take(0) =~= Seq::<(GroupId, ItemId, V)>::empty());
        }
        while i < map.entries.len()
            invariant
                s == map.view(),
                s == map.entries@,
                lv == Some(seq![g]),
                i <= s.len(),
                cur@ == select(s.take(i as int), lv),
                cur@.len() > 0 <==> exists|j: int| 0 <= j < i && #[trigger] s[j].0 == g,
            decreases s.len() - i,
        {
            let e = map.entries[i];
            proof {
                assert(s.take(i + 1).drop_last() =~= s.take(i as int));
                assert(seq![g].contains(s[i as int].0) <==> s[i as int].0 == g) by {
                    if seq![g].contains(s[i as int].0) {
                        let a = choose|a: int| 0 <= a < 1 && seq![g][a] == s[i as int].0;
                    }
                    if s[i as int].0 == g {
                        assert(seq![g][0] == g);
                    }
                }
            }
            if e.0 == g {
                cur.push((e.1, e.2));
                proof {
                    assert(s[i as int].0 == g);
                }
            } else {
                proof {
                    if exists|j: int| 0 <= j < i + 1 && #[trigger] s[j].0 == g {
                        let j = choose|j: int| 0 <= j < i + 1 && #[trigger] s[j].0 == g;
                        assert(j < i);
                    }
                }
            }
            proof {
                assert(cur@ =~= select(s.take(i + 1), lv));
            }
            i += 1;
        }
        proof {
            assert(s.take(s.len() as int) =~= s);
        }
        if cur.len() > 0 {
            IterGroupById { group_id: g, inner_iter: Some(DoubleEndedPeekable::from_iter(cur)) }
        } else {
            proof {
                assert(cur@ =~= Seq::<(ItemId, V)>::empty());
            }
            IterGroupById { group_id: g, inner_iter: None }
        }
    }

    /// group id for grouping
    pub fn get_group_id(&self) -> (r: GroupId)
        ensures
            r == self.group(),
    {
        self.group_id
    }

    /// the group had items; not whether any are left
    pub fn has_iter(&self) -> (r: bool)
        ensures
            r == self.found(),
    {
        self.inner_iter.is_some()
    }

    /// number of elements left
    pub fn len(&self) -> (r: usize)
        requires
            self.wf(),
        ensures
            r == self.remaining().len(),
    {
        match &self.inner_iter {
            Some(it) => it.len(),
            None => 0,
        }
    }

    /// takes the element with the least item id left
    pub fn next(&mut self) -> (r: Option<(ItemId, V)>)
        requires
            old(self).wf(),
        ensures
            final(self).wf(),
            final(self).group() == old(self).group(),
            final(self).found() == old(self).found(),
            old(self).remaining().len() == 0 ==> r is None && final(self).remaining() == old(self).remaining(),
            old(self).remaining().len() > 0 ==> r == Some(old(self).remaining()[0]) && final(self).remaining() == old(self).remaining().drop_first(),
    {
        match self.inner_iter.take() {
            None => None,
            Some(mut it) => {
                let r = it.next();
                self.inner_iter = Some(it);
                r
            },
        }
    }

    /// takes the element with the greatest item id left
    pub fn next_back(&mut self) -> (r: Option<(ItemId, V)>)
        requires
            old(self).wf(),
        ensures
            final(self).wf(),
            final(self).group() == old(self).group(),
            final(self).found() == old(self).found(),
            old(self).remaining().len() == 0 ==> r is None && final(self).remaining() == old(self).remaining(),
            old(self).remaining().len() > 0 ==> r == Some(old(self).remaining().last()) && final(self).remaining() == old(self).remaining().drop_last(),
    {
        match self.inner_iter.take() {
            None => None,
            Some(mut it) => {
                let r = it.next_back();
                self.inner_iter = Some(it);
                r
            },
        }
    }

    /// skips `n` elements from the back and takes the next one from the back
    pub fn nth_back(&mut self, n: usize) -> (r: Option<(ItemId, V)>)
        requires
            old(self).wf(),
        ensures
            final(self).wf(),
            final(self).group() == old(self).group(),
            final(self).found() == old(self).found(),
            n < old(self).remaining().len() ==> r == Some(
                old(self).remaining()[old(self).remaining().len() - 1 - n],
            ),
            n >= old(self).remaining().len() ==> r is None && final(self).remaining().len() == 0,
    {
        match self.inner_iter.take() {
            None => None,
            Some(mut it) => {
                let r = it.nth_back(n);
                self.inner_iter = Some(it);
                r
            },
        }
    }
}

/// Without a list every entry is selected: the merge over all groups holds
/// exactly the items of the map, in the map's order.
pub proof fn lemma_select_all<V>(s: Seq<(GroupId, ItemId, V)>)
    ensures
        select(s, None) == s.map_values(|e: (GroupId, ItemId, V)| (e.1, e.2)),
    decreases s.len(),
{
    if s.len() > 0 {
        lemma_select_all(s.drop_last());
        assert(s.map_values(|e: (GroupId, ItemId, V)| (e.1, e.2)) =~= s.drop_last().map_values(
            |e: (GroupId, ItemId, V)| (e.1, e.2),
        ).push((s.last().1, s.last().2)));
    } else {
        assert(s.map_values(|e: (GroupId, ItemId, V)| (e.1, e.2)) =~= Seq::empty());
    }
}

/// With a list the entries selected are exactly those whose group is listed.
pub proof fn lemma_select_listed<V>(s: Seq<(GroupId, ItemId, V)>, list: Seq<GroupId>)
    ensures
        select(s, Some(list)).len() <= s.len(),
        forall|x: (ItemId, V)|
            select(s, Some(list)).contains(x) <==> exists|j: int|
                0 <= j < s.len() && list.contains(s[j].0) && #[trigger] s[j] == (
                    s[j].0,
                    x.0,
                    x.1,
                ),
    decreases s.len(),
{
    lemma_select_len(s, Some(list));
    if s.len() > 0 {
        let t = s.drop_last();
        lemma_select_listed(t, list);
        let tail: Seq<(ItemId, V)> = if list.contains(s.last().0) {
            seq![(s.last().1, s.last().2)]
        } else {
            Seq::empty()
        };
        assert forall|x: (ItemId, V)|
            select(s, Some(list)).contains(x) <==> exists|j: int|
                0 <= j < s.len() && list.contains(s[j].0) && #[trigger] s[j] == (
                    s[j].0,
                    x.0,
                    x.1,
                ) by {
            let u = select(t, Some(list));
            assert(select(s, Some(list)) == u.add(tail));
            if select(s, Some(list)).contains(x) {
                let a = choose|a: int| 0 <= a < u.add(tail).len() && u.add(tail)[a] == x;
                if a < u.len() {
                    assert(u.contains(x));
                    let j = choose|j: int|
                        0 <= j < t.len() && list.contains(t[j].0) && #[trigger] t[j] == (
                            t[j].0,
                            x.0,
                            x.1,
                        );
                    assert(s[j] == t[j]);
                } else {
                    assert(s[s.len() - 1] == (s[s.len() - 1].0, x.0, x.1));
                }
            }
            if exists|j: int|
                0 <= j < s.len() && list.contains(s[j].0) && #[trigger] s[j] == (s[j].0, x.0, x.1) {
                let j = choose|j: int|
                    0 <= j < s.len() && list.contains(s[j].0) && #[trigger] s[j] == (
                        s[j].0,
                        x.0,
                        x.1,
                    );
                if j < s.len() - 1 {
                    assert(t[j] == s[j]);
                    assert(u.contains(x));
                    let a = choose|a: int| 0 <= a < u.len() && u[a] == x;
                    assert(u.add(tail)[a] == x);
                } else {
                    assert(u.add(tail)[u.len() as int] == x);
                }
            }
        }
    }
}

} // verus!
