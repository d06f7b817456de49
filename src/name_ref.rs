//! Bidirectional index between names and values, separated by kind.
//!
//! A name is bound to a value under a kind; the value keeps the name that was
//! last bound to it. A value may also be registered without a name.

use vstd::prelude::*;
use crate::assoc::{
    map_of,
    keys_unique,
    count_keys,
    lemma_map_of_contains,
    lemma_map_of_value,
    lemma_map_of_push,
    lemma_keys_unique_push,
    lemma_map_of_update,
    lemma_count_keys,
    lemma_count_keys_push,
    lemma_len_is_dom_len,
    lemma_map_of_finite,
};
use crate::kind::{NameRefKeyTrait, same_name, GraphItemKind, LayoutItemKind};

verus! {

/// error for a name's reference
#[derive(Debug, Clone, PartialEq, Eq)]
pub enum NameIdError<Kind> {
    /// the name is already bound under the kind
    AlreadyExist(Kind, String),
    /// the name was bound to another value and now refers to the new one
    Override(Kind, String),
    /// the name is not bound under the kind
    NotExist(Kind, String),
}

/// A test on kinds that selects what a count takes in.
pub trait KindPredicate<K> {
    /// the kinds that the test admits
    spec fn admits(&self, k: K) -> bool;

    /// runs the test
    fn test(&self, k: &K) -> (r: bool)
        ensures
            r == self.admits(*k),
    ;
}

/// admits every kind
pub struct AnyKind;

impl<K> KindPredicate<K> for AnyKind {
    open spec fn admits(&self, k: K) -> bool {
        true
    }

    fn test(&self, k: &K) -> (r: bool) {
        true
    }
}

/// admits one kind
pub struct SameKind<K> {
    pub kind: K,
}

impl<K: NameRefKeyTrait> KindPredicate<K> for SameKind<K> {
    open spec fn admits(&self, k: K) -> bool {
        k == self.kind
    }

    fn test(&self, k: &K) -> (r: bool) {
        k.same_key(&self.kind)
    }
}

/// admits the layout kinds that belong to a graph item
pub struct GraphItemLayoutKinds;

impl KindPredicate<LayoutItemKind> for GraphItemLayoutKinds {
    open spec fn admits(&self, k: LayoutItemKind) -> bool {
        k is WithItemAttribute
    }

    fn test(&self, k: &LayoutItemKind) -> (r: bool) {
        k.need_graph_item()
    }
}

/// admits the layout kinds that stand alone
pub struct AttributeKinds;

impl KindPredicate<LayoutItemKind> for AttributeKinds {
    open spec fn admits(&self, k: LayoutItemKind) -> bool {
        k is IsolateAttribute
    }

    fn test(&self, k: &LayoutItemKind) -> (r: bool) {
        k.is_attribute()
    }
}

/// keys of `m` whose kind is admitted
pub open spec fn admitted_keys<K, X, V, P: KindPredicate<K>>(m: Map<(K, X), V>, predicate: P) -> Set<
    (K, X),
> {
    m.dom().filter(|key: (K, X)| predicate.admits(key.0))
}

/// keys of `m` of one kind
pub open spec fn keys_of_kind<K, X, V>(m: Map<(K, X), V>, kind: K) -> Set<(K, X)> {
    m.dom().filter(|key: (K, X)| key.0 == kind)
}

/// the value bound to `key` in `m`, if any
pub open spec fn lookup<A, B>(m: Map<A, B>, key: A) -> Option<B> {
    if m.contains_key(key) {
        Some(m[key])
    } else {
        None
    }
}

spec fn forward_view<K, V>(s: Seq<((K, String), V)>) -> Seq<((K, Seq<char>), V)> {
    s.map_values(|e: ((K, String), V)| ((e.0.0, e.0.1@), e.1))
}

spec fn reverse_view<K, V>(s: Seq<((K, V), String)>) -> Seq<((K, V), Seq<char>)> {
    s.map_values(|e: ((K, V), String)| (e.0, e.1@))
}

/// Index from (kind, name) to value and back from (kind, value) to name.
#[derive(Debug, Clone)]
pub struct NameRefIndex<Kind, Value> {
    reference_index: Vec<((Kind, String), Value)>,
    rev_reference_index: Vec<((Kind, Value), String)>,
    no_name_reference: Vec<(Kind, Value)>,
}

impl<Kind: NameRefKeyTrait, Value: NameRefKeyTrait> NameRefIndex<Kind, Value> {
    /// the names in use: (kind, name) to value
    pub closed spec fn names(&self) -> Map<(Kind, Seq<char>), Value> {
        map_of(forward_view(self.reference_index@))
    }

    /// the registered names: (kind, value) to the name last bound to it
    pub closed spec fn registered(&self) -> Map<(Kind, Value), Seq<char>> {
        map_of(reverse_view(self.rev_reference_index@))
    }

    /// values registered without a name
    pub closed spec fn unnamed(&self) -> Set<(Kind, Value)> {
        self.no_name_reference@.to_set()
    }

    /// the stored sequences hold each key once
    pub closed spec fn wf(&self) -> bool {
        &&& keys_unique(forward_view(self.reference_index@))
        &&& keys_unique(reverse_view(self.rev_reference_index@))
    }

    /// `after` is `self` with `name` bound to `value` under `kind`, as a
    /// named `insert_value_or_override` leaves it
    pub open spec fn binds(&self, after: &Self, kind: Kind, name: Seq<char>, value: Value) -> bool {
        &&& after.names() == self.names().insert((kind, name), value)
        &&& after.registered() == self.registered().insert((kind, value), name)
        &&& after.unnamed() == self.unnamed()
    }

    /// the names in use and the registered names are finitely many
    pub proof fn lemma_finite(&self)
        requires
            self.wf(),
        ensures
            self.names().dom().finite(),
            self.registered().dom().finite(),
    {
        lemma_map_of_finite(forward_view(self.reference_index@));
        lemma_map_of_finite(reverse_view(self.rev_reference_index@));
    }

    /// Binding a name to one value and then to another under the same kind
    /// leaves the name bound to the second value, and the second binding finds
    /// the name bound to a different value: `insert_value_or_override` then
    /// reports `Override`.
    pub proof fn lemma_override_keeps_last(
        i0: Self,
        i1: Self,
        i2: Self,
        kind: Kind,
        name: Seq<char>,
        v1: Value,
        v2: Value,
    )
        requires
            i0.binds(&i1, kind, name, v1),
            i1.binds(&i2, kind, name, v2),
            v1 != v2,
        ensures
            lookup(i2.names(), (kind, name)) == Some(v2),
            i1.names().contains_key((kind, name)) && i1.names()[(kind, name)] != v2,
    {
    }

    /// The same name bound under two different kinds resolves under each kind
    /// to the value bound under it.
    pub proof fn lemma_kinds_are_separate(
        i0: Self,
        i1: Self,
        i2: Self,
        k1: Kind,
        k2: Kind,
        name: Seq<char>,
        v1: Value,
        v2: Value,
    )
        requires
            i0.binds(&i1, k1, name, v1),
            i1.binds(&i2, k2, name, v2),
            k1 != k2,
        ensures
            lookup(i2.names(), (k1, name)) == Some(v1),
            lookup(i2.names(), (k2, name)) == Some(v2),
    {
    }

    /// initialize
    pub fn new() -> (r: Self)
        ensures
            r.wf(),
            r.names() == Map::<(Kind, Seq<char>), Value>::empty(),
            r.registered() == Map::<(Kind, Value), Seq<char>>::empty(),
            r.unnamed() == Set::<(Kind, Value)>::empty(),
    {
        let r = NameRefIndex {
            reference_index: Vec::new(),
            rev_reference_index: Vec::new(),
            no_name_reference: Vec::new(),
        };
        proof {
            assert(forward_view(r.reference_index@) =~= Seq::empty());
            assert(reverse_view(r.rev_reference_index@) =~= Seq::empty());
            assert(r.unnamed() =~= Set::empty());
        }
        r
    }

    /// position of (kind, name) among the names
    fn find_name(&self, kind: &Kind, name: &str) -> (r: Option<usize>)
        requires
            self.wf(),
        ensures
            match r {
                Some(i) => i < self.reference_index@.len() && forward_view(
                    self.reference_index@,
                )[i as int].0 == (*kind, name@),
                None => !self.names().contains_key((*kind, name@)),
            },
    {
        let ghost f = forward_view(self.reference_index@);
        let mut i: usize = 0;
        while i < self.reference_index.len()
            invariant
                i <= self.reference_index@.len(),
                f == forward_view(self.reference_index@),
                forall|j: int| 0 <= j < i ==> f[j].0 != (*kind, name@),
            decreases self.reference_index@.len() - i,
        {
            let entry = &self.reference_index[i];
            if entry.0.0.same_key(kind) && same_name(&entry.0.1, name) {
                return Some(i);
            }
            i += 1;
        }
        proof {
            lemma_map_of_contains(f, (*kind, name@));
        }
        None
    }

    /// position of (kind, value) among the registered names
    fn find_value(&self, kind: &Kind, value: &Value) -> (r: Option<usize>)
        requires
            self.wf(),
        ensures
            match r {
                Some(i) => i < self.rev_reference_index@.len() && reverse_view(
                    self.rev_reference_index@,
                )[i as int].0 == (*kind, *value),
                None => !self.registered().contains_key((*kind, *value)),
            },
    {
        let ghost f = reverse_view(self.rev_reference_index@);
        let mut i: usize = 0;
        while i < self.rev_reference_index.len()
            invariant
                i <= self.rev_reference_index@.len(),
                f == reverse_view(self.rev_reference_index@),
                forall|j: int| 0 <= j < i ==> f[j].0 != (*kind, *value),
            decreases self.rev_reference_index@.len() - i,
        {
            let entry = &self.rev_reference_index[i];
            if entry.0.0.same_key(kind) && entry.0.1.same_key(value) {
                return Some(i);
            }
            i += 1;
        }
        proof {
            lemma_map_of_contains(f, (*kind, *value));
        }
        None
    }

    /// Binds `name` to `value` under `kind`, replacing an earlier binding of the
    /// name; without a name the value is registered as unnamed. Reports
    /// `Override` when the name was bound to another value before.
    pub fn insert_value_or_override(&mut self, kind: Kind, name: Option<String>, value: Value) -> (r:
        Result<(), NameIdError<Kind>>)
        requires
            old(self).wf(),
        ensures
            final(self).wf(),
            match name {
                None => {
                    &&& r is Ok
                    &&& final(self).names() == old(self).names()
                    &&& final(self).registered() == old(self).registered()
                    &&& final(self).unnamed() == old(self).unnamed().insert((kind, value))
                },
                Some(n) => {
                    &&& old(self).binds(final(self), kind, n@, value)
                    &&& final(self).names().dom().len() == old(self).names().dom().len() + if old(self).names().contains_key((kind, n@)) {
                        0int
                    } else {
                        1int
                    }
                    &&& forall|k: Kind|
                        #[trigger] keys_of_kind(final(self).names(), k).len() == keys_of_kind(
                            old(self).names(),
                            k,
                        ).len() + if k == kind && !old(self).names().contains_key((kind, n@)) {
                            1int
                        } else {
                            0int
                        }
                    &&& r == if old(self).names().contains_key((kind, n@)) && old(self).names()[(
                        kind,
                        n@,
                    )] != value {
                        Err(NameIdError::Override(kind, n))
                    } else {
                        Ok(())
                    }
                },
            },
    {
        match name {
            None => {
                let ghost before = self.no_name_reference@;
                self.no_name_reference.push((kind, value));
                proof {
                    assert(self.no_name_reference@.to_set() =~= before.to_set().insert(
                        (kind, value),
                    )) by {
                        assert forall|x: (Kind, Value)| #[trigger]
                            self.no_name_reference@.contains(x) <==> before.contains(x) || x == (
                                kind,
                                value,
                            ) by {
                            if self.no_name_reference@.contains(x) {
                                let i = choose|i: int|
                                    0 <= i < self.no_name_reference@.len()
                                        && self.no_name_reference@[i] == x;
                                if i < before.len() {
                                    assert(before[i] == x);
                                }
                            }
                            if before.contains(x) {
                                let i = choose|i: int| 0 <= i < before.len() && before[i] == x;
                                assert(self.no_name_reference@[i] == x);
                            }
                            if x == (kind, value) {
                                assert(self.no_name_reference@[before.len() as int] == x);
                            }
                        }
                    }
                }
                Ok(())
            },
            Some(item_name) => {
                let ghost bound_name = item_name@;
                let ghost f0 = forward_view(self.reference_index@);
                let ghost r0 = reverse_view(self.rev_reference_index@);
                let result = match self.find_name(&kind, item_name.as_str()) {
                    Some(i) => {
                        let differs = !self.reference_index[i].1.same_key(&value);
                        proof {
                            lemma_map_of_value(f0, i as int);
                        }
                        let entry_key = (kind.copy_key(), item_name.clone());
                        self.reference_index.set(i, (entry_key, value.copy_key()));
                        proof {
                            assert(forward_view(self.reference_index@) =~= f0.update(
                                i as int,
                                (f0[i as int].0, value),
                            ));
                            lemma_map_of_update(f0, i as int, value);
                        }
                        if differs {
                            Err(NameIdError::Override(kind.copy_key(), item_name.clone()))
                        } else {
                            Ok(())
                        }
                    },
                    None => {
                        let entry_key = (kind.copy_key(), item_name.clone());
                        self.reference_index.push((entry_key, value.copy_key()));
                        proof {
                            assert(forward_view(self.reference_index@) =~= f0.push(
                                ((kind, item_name@), value),
                            ));
                            lemma_map_of_push(f0, (kind, item_name@), value);
                            lemma_keys_unique_push(f0, (kind, item_name@), value);
                        }
                        Ok(())
                    },
                };
                match self.find_value(&kind, &value) {
                    Some(j) => {
                        let rev_key = (kind.copy_key(), value.copy_key());
                        self.rev_reference_index.set(j, (rev_key, item_name));
                        proof {
                            assert(reverse_view(self.rev_reference_index@) =~= r0.update(
                                j as int,
                                (r0[j as int].0, item_name@),
                            ));
                            lemma_map_of_update(r0, j as int, item_name@);
                        }
                    },
                    None => {
                        let ghost n = item_name@;
                        let rev_key = (kind.copy_key(), value.copy_key());
                        self.rev_reference_index.push((rev_key, item_name));
                        proof {
                            assert(reverse_view(self.rev_reference_index@) =~= r0.push(
                                ((kind, value), n),
                            ));
                            lemma_map_of_push(r0, (kind, value), n);
                            lemma_keys_unique_push(r0, (kind, value), n);
                        }
                    },
                }
                proof {
                    self.lemma_finite();
                    old(self).lemma_finite();
                    assert forall|k: Kind|
                        #[trigger] keys_of_kind(self.names(), k).len() == keys_of_kind(
                            old(self).names(),
                            k,
                        ).len() + if k == kind && !old(self).names().contains_key((kind, bound_name)) {
                            1int
                        } else {
                            0int
                        } by {
                        lemma_kind_count_after_insert(old(self).names(), (kind, bound_name), value, k);
                    }
                }
                result
            },
        }
    }

    /// the value bound to the name under the kind
    pub fn get_value(&self, kind: Kind, name: &str) -> (r: Option<Value>)
        requires
            self.wf(),
        ensures
            r == lookup(self.names(), (kind, name@)),
    {
        match self.find_name(&kind, name) {
            Some(i) => {
                proof {
                    lemma_map_of_value(forward_view(self.reference_index@), i as int);
                }
                Some(self.reference_index[i].1.copy_key())
            },
            None => None,
        }
    }

    /// the name last bound to the value under the kind
    pub fn get_name(&self, kind: Kind, value: Value) -> (r: Option<&String>)
        requires
            self.wf(),
        ensures
            match r {
                Some(n) => self.registered().contains_key((kind, value)) && self.registered()[(
                    kind,
                    value,
                )] == n@,
                None => !self.registered().contains_key((kind, value)),
            },
    {
        match self.find_value(&kind, &value) {
            Some(j) => {
                proof {
                    lemma_map_of_value(reverse_view(self.rev_reference_index@), j as int);
                }
                Some(&self.rev_reference_index[j].1)
            },
            None => None,
        }
    }

    /// the value is registered under the kind, with a name or without
    pub fn is_already_registered(&self, kind: Kind, value: Value) -> (r: bool)
        requires
            self.wf(),
        ensures
            r == (self.unnamed().contains((kind, value)) || self.registered().contains_key(
                (kind, value),
            )),
    {
        let mut i: usize = 0;
        while i < self.no_name_reference.len()
            invariant
                i <= self.no_name_reference@.len(),
                forall|j: int| 0 <= j < i ==> self.no_name_reference@[j] != (kind, value),
            decreases self.no_name_reference@.len() - i,
        {
            let entry = &self.no_name_reference[i];
            if entry.0.same_key(&kind) && entry.1.same_key(&value) {
                proof {
                    assert(self.no_name_reference@.contains((kind, value)));
                }
                return true;
            }
            i += 1;
        }
        self.has_registered_name(kind, value)
    }

    /// the name is bound under the kind
    pub fn is_usable_name(&self, kind: Kind, name: &str) -> (r: bool)
        requires
            self.wf(),
        ensures
            r == self.names().contains_key((kind, name@)),
    {
        match self.find_name(&kind, name) {
            Some(i) => {
                proof {
                    lemma_map_of_value(forward_view(self.reference_index@), i as int);
                }
                true
            },
            None => false,
        }
    }

    /// the value has a name under the kind
    pub fn has_registered_name(&self, kind: Kind, value: Value) -> (r: bool)
        requires
            self.wf(),
        ensures
            r == self.registered().contains_key((kind, value)),
    {
        match self.find_value(&kind, &value) {
            Some(j) => {
                proof {
                    lemma_map_of_value(reverse_view(self.rev_reference_index@), j as int);
                }
                true
            },
            None => false,
        }
    }

    /// number of names in use whose kind the predicate admits
    pub fn count_usable_names_filtered_by<P: KindPredicate<Kind>>(&self, predicate: &P) -> (r:
        usize)
        requires
            self.wf(),
        ensures
            r == admitted_keys(self.names(), *predicate).len(),
    {
        let ghost f = forward_view(self.reference_index@);
        let ghost pr: P = *predicate;
        let ghost p: spec_fn((Kind, Seq<char>)) -> bool = |key: (Kind, Seq<char>)| pr.admits(key.0);
        assert(forall|key| #[trigger] p(key) == pr.admits(key.0));
        let mut count: usize = 0;
        let mut i: usize = 0;
        while i < self.reference_index.len()
            invariant
                i <= self.reference_index@.len(),
                f == forward_view(self.reference_index@),
                f.len() == self.reference_index@.len(),
                count == count_keys(f.take(i as int), p),
                pr == *predicate,
                forall|key| #[trigger] p(key) == pr.admits(key.0),
                count <= i,
            decreases self.reference_index@.len() - i,
        {
            let admitted = predicate.test(&self.reference_index[i].0.0);
            proof {
                assert(f[i as int].0.0 == self.reference_index@[i as int].0.0);
                assert(admitted == predicate.admits(f[i as int].0.0));
                assert(p(f[i as int].0) == admitted);
                assert(f.take(i + 1) =~= f.take(i as int).push(f[i as int]));
                lemma_count_keys_push(f.take(i as int), f[i as int], p);
            }
            if admitted {
                count += 1;
            }
            i += 1;
        }
        proof {
            assert(f.take(f.len() as int) =~= f);
            lemma_count_keys(f, p);
            assert(map_of(f).dom().filter(p) =~= admitted_keys(map_of(f), *predicate));
        }
        count
    }

    /// number of names in use under the kind
    pub fn count_usable_names_by(&self, kind: Kind) -> (r: usize)
        requires
            self.wf(),
        ensures
            r == keys_of_kind(self.names(), kind).len(),
    {
        let predicate = SameKind { kind };
        let r = self.count_usable_names_filtered_by(&predicate);
        proof {
            assert(admitted_keys(self.names(), predicate) =~= keys_of_kind(self.names(), kind));
        }
        r
    }

    /// number of names in use
    pub fn count_usable_names_all(&self) -> (r: usize)
        requires
            self.wf(),
        ensures
            r == self.names().dom().len(),
    {
        let r = self.count_usable_names_filtered_by(&AnyKind);
        proof {
            assert(admitted_keys(self.names(), AnyKind) =~= self.names().dom());
        }
        r
    }

    /// number of registered names whose kind the predicate admits
    pub fn count_registered_names_filtered_by<P: KindPredicate<Kind>>(&self, predicate: &P) -> (r:
        usize)
        requires
            self.wf(),
        ensures
            r == admitted_keys(self.registered(), *predicate).len(),
    {
        let ghost f = reverse_view(self.rev_reference_index@);
        let ghost pr: P = *predicate;
        let ghost p: spec_fn((Kind, Value)) -> bool = |key: (Kind, Value)| pr.admits(key.0);
        assert(forall|key| #[trigger] p(key) == pr.admits(key.0));
        let mut count: usize = 0;
        let mut i: usize = 0;
        while i < self.rev_reference_index.len()
            invariant
                i <= self.rev_reference_index@.len(),
                f == reverse_view(self.rev_reference_index@),
                f.len() == self.rev_reference_index@.len(),
                count == count_keys(f.take(i as int), p),
                pr == *predicate,
                forall|key| #[trigger] p(key) == pr.admits(key.0),
                count <= i,
            decreases self.rev_reference_index@.len() - i,
        {
            let admitted = predicate.test(&self.rev_reference_index[i].0.0);
            proof {
                assert(f[i as int].0.0 == self.rev_reference_index@[i as int].0.0);
                assert(admitted == predicate.admits(f[i as int].0.0));
                assert(p(f[i as int].0) == admitted);
                assert(f.take(i + 1) =~= f.take(i as int).push(f[i as int]));
                lemma_count_keys_push(f.take(i as int), f[i as int], p);
            }
            if admitted {
                count += 1;
            }
            i += 1;
        }
        proof {
            assert(f.take(f.len() as int) =~= f);
            lemma_count_keys(f, p);
            assert(map_of(f).dom().filter(p) =~= admitted_keys(map_of(f), *predicate));
        }
        count
    }

    /// number of registered names under the kind
    pub fn count_registered_names_by(&self, kind: Kind) -> (r: usize)
        requires
            self.wf(),
        ensures
            r == keys_of_kind(self.registered(), kind).len(),
    {
        let predicate = SameKind { kind };
        let r = self.count_registered_names_filtered_by(&predicate);
        proof {
            assert(admitted_keys(self.registered(), predicate) =~= keys_of_kind(
                self.registered(),
                kind,
            ));
        }
        r
    }

    /// number of registered names
    pub fn count_registered_names_all(&self) -> (r: usize)
        requires
            self.wf(),
        ensures
            r == self.registered().dom().len(),
    {
        let r = self.count_registered_names_filtered_by(&AnyKind);
        proof {
            assert(admitted_keys(self.registered(), AnyKind) =~= self.registered().dom());
        }
        r
    }

    /// the registered names as (kind, value, name), each key once
    pub fn iter(&self) -> (r: Vec<(Kind, Value, String)>)
        requires
            self.wf(),
        ensures
            r@.len() == self.registered().dom().len(),
            forall|i: int|
                0 <= i < r@.len() ==> self.registered().contains_key((r@[i].0, r@[i].1))
                    && self.registered()[(r@[i].0, r@[i].1)] == r@[i].2@,
            forall|key: (Kind, Value)| #[trigger]
                self.registered().contains_key(key) ==> exists|i: int|
                    0 <= i < r@.len() && (r@[i].0, r@[i].1) == key,
    {
        let ghost f = reverse_view(self.rev_reference_index@);
        let mut out: Vec<(Kind, Value, String)> = Vec::new();
        let mut i: usize = 0;
        while i < self.rev_reference_index.len()
            invariant
                i <= self.rev_reference_index@.len(),
                f == reverse_view(self.rev_reference_index@),
                f.len() == self.rev_reference_index@.len(),
                keys_unique(f),
                out@.len() == i,
                forall|j: int|
                    0 <= j < i ==> (out@[j].0, out@[j].1) == f[j].0 && out@[j].2@ == f[j].1,
            decreases self.rev_reference_index@.len() - i,
        {
            let entry = &self.rev_reference_index[i];
            out.push((entry.0.0.copy_key(), entry.0.1.copy_key(), entry.1.clone()));
            i += 1;
        }
        proof {
            assert forall|j: int| 0 <= j < out@.len() implies self.registered().contains_key(
                (out@[j].0, out@[j].1),
            ) && self.registered()[(out@[j].0, out@[j].1)] == out@[j].2@ by {
                lemma_map_of_value(f, j);
            }
            assert forall|key: (Kind, Value)| #[trigger]
                self.registered().contains_key(key) implies exists|j: int|
                0 <= j < out@.len() && (out@[j].0, out@[j].1) == key by {
                lemma_map_of_contains(f, key);
            }
            lemma_len_is_dom_len(f);
        }
        out
    }
}

/// Binding `key` adds one name to the count of its kind if the name was not
/// bound yet, and leaves the count of every other kind as it was.
pub proof fn lemma_kind_count_after_insert<K, X, V>(m: Map<(K, X), V>, key: (K, X), value: V, k: K)
    requires
        m.dom().finite(),
    ensures
        keys_of_kind(m.insert(key, value), k).len() == keys_of_kind(m, k).len() + if key.0 == k
            && !m.contains_key(key) {
            1int
        } else {
            0int
        },
{
    let a = keys_of_kind(m, k);
    vstd::set_lib::lemma_len_subset(a, m.dom());
    if key.0 == k && !m.contains_key(key) {
        assert(keys_of_kind(m.insert(key, value), k) =~= a.insert(key));
    } else {
        assert(keys_of_kind(m.insert(key, value), k) =~= a);
    }
}

/// The names of a finite map of graph item names are those of nodes, edges
/// and groups.
pub proof fn lemma_graph_kinds_partition<X, V>(m: Map<(GraphItemKind, X), V>)
    requires
        m.dom().finite(),
    ensures
        m.dom().len() == keys_of_kind(m, GraphItemKind::Node).len() + keys_of_kind(
            m,
            GraphItemKind::Edge,
        ).len() + keys_of_kind(m, GraphItemKind::Group).len(),
{
    let a = keys_of_kind(m, GraphItemKind::Node);
    let b = keys_of_kind(m, GraphItemKind::Edge);
    let c = keys_of_kind(m, GraphItemKind::Group);
    vstd::set_lib::lemma_len_subset(a, m.dom());
    vstd::set_lib::lemma_len_subset(b, m.dom());
    vstd::set_lib::lemma_len_subset(c, m.dom());
    assert(a.disjoint(b));
    vstd::set_lib::lemma_set_disjoint_lens(a, b);
    assert((a + b).disjoint(c));
    vstd::set_lib::lemma_set_disjoint_lens(a + b, c);
    assert(a + b + c =~= m.dom());
}

/// The names of a finite map of layout names are those that belong to graph
/// items and those of standalone attributes.
pub proof fn lemma_layout_kinds_partition<X, V>(m: Map<(LayoutItemKind, X), V>)
    requires
        m.dom().finite(),
    ensures
        m.dom().len() == admitted_keys(m, GraphItemLayoutKinds).len() + admitted_keys(
            m,
            AttributeKinds,
        ).len(),
{
    let a = admitted_keys(m, GraphItemLayoutKinds);
    let b = admitted_keys(m, AttributeKinds);
    vstd::set_lib::lemma_len_subset(a, m.dom());
    vstd::set_lib::lemma_len_subset(b, m.dom());
    assert(a.disjoint(b));
    vstd::set_lib::lemma_set_disjoint_lens(a, b);
    assert(a + b =~= m.dom());
}

} // verus!
