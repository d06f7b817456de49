//! Single rooted tree of group ids: the hierarchy that groups are nested in.

use vstd::prelude::*;
use crate::kind::GroupId;

verus! {

/// error of the group hierarchy
#[derive(Debug, Clone, Copy, PartialEq, Eq, Structural)]
pub enum IdTreeError {
    /// the tree has no root yet
    NotInitialized,
    /// the parent is not in the tree
    NotFindParentId(GroupId),
    /// the id is in the tree already
    AlreadyExistId(GroupId),
}

/// the ancestors of the node at position `i`, from its parent up to the root
pub open spec fn ancestors_at(s: Seq<(GroupId, usize)>, i: int) -> Seq<GroupId>
    decreases i,
{
    if 0 < i < s.len() && s[i].1 < i {
        seq![s[s[i].1 as int].0].add(ancestors_at(s, s[i].1 as int))
    } else {
        Seq::empty()
    }
}

proof fn lemma_ancestors_at_push(s: Seq<(GroupId, usize)>, e: (GroupId, usize), i: int)
    requires
        0 <= i < s.len(),
    ensures
        ancestors_at(s.push(e), i) == ancestors_at(s, i),
    decreases i,
{
    if 0 < i && s[i].1 < i {
        lemma_ancestors_at_push(s, e, s[i].1 as int);
    }
}

/// Tree of group ids. Each node is stored after its parent, with the
/// position of its parent; the root is stored first.
#[derive(Debug, Clone)]
pub struct GroupTree {
    nodes: Vec<(GroupId, usize)>,
}

impl GroupTree {
    /// the nodes, each after its parent
    pub closed spec fn wf(&self) -> bool {
        &&& forall|i: int| 0 < i < self.nodes@.len() ==> #[trigger] self.nodes@[i].1 < i
        &&& forall|i: int, j: int|
            0 <= i < self.nodes@.len() && 0 <= j < self.nodes@.len() && i != j
                ==> self.nodes@[i].0 != self.nodes@[j].0
    }

    /// the ids in the tree
    pub closed spec fn groups(&self) -> Set<GroupId> {
        Set::new(|g: GroupId| exists|i: int| 0 <= i < self.nodes@.len() && self.nodes@[i].0 == g)
    }

    /// the root, once it is set
    pub closed spec fn root(&self) -> Option<GroupId> {
        if self.nodes@.len() == 0 {
            None
        } else {
            Some(self.nodes@[0].0)
        }
    }

    closed spec fn position(&self, g: GroupId) -> int {
        choose|i: int| 0 <= i < self.nodes@.len() && self.nodes@[i].0 == g
    }

    /// the ancestors of `g`, from its parent up to the root
    pub closed spec fn ancestors(&self, g: GroupId) -> Seq<GroupId> {
        ancestors_at(self.nodes@, self.position(g))
    }

    /// empty tree
    pub fn new() -> (r: Self)
        ensures
            r.wf(),
            r.groups() == Set::<GroupId>::empty(),
            r.root() is None,
    {
        let r = GroupTree { nodes: Vec::new() };
        proof {
            assert(r.groups() =~= Set::empty());
        }
        r
    }

    /// the tree has a root
    pub fn is_initialized(&self) -> (r: bool)
        ensures
            r == self.root() is Some,
    {
        self.nodes.len() > 0
    }

    fn find(&self, g: GroupId) -> (r: Option<usize>)
        requires
            self.wf(),
        ensures
            match r {
                Some(i) => i < self.nodes@.len() && self.nodes@[i as int].0 == g && self.position(g)
                    == i && self.groups().contains(g),
                None => !self.groups().contains(g),
            },
    {
        let mut i: usize = 0;
        while i < self.nodes.len()
            invariant
                self.wf(),
                i <= self.nodes@.len(),
                forall|j: int| 0 <= j < i ==> self.nodes@[j].0 != g,
            decreases self.nodes@.len() - i,
        {
            if self.nodes[i].0 == g {
                proof {
                    assert(self.groups().contains(g));
                    let p = self.position(g);
                    assert(self.nodes@[p].0 == g);
                }
                return Some(i);
            }
            i += 1;
        }
        None
    }

    /// the id is in the tree
    pub fn contains(&self, g: GroupId) -> (r: bool)
        requires
            self.wf(),
        ensures
            r == self.groups().contains(g),
    {
        self.find(g).is_some()
    }

    /// makes `g` the root of an empty tree
    pub fn set_root(&mut self, g: GroupId) -> (r: bool)
        requires
            old(self).wf(),
        ensures
            final(self).wf(),
            r == old(self).root() is None,
            r ==> final(self).root() == Some(g) && final(self).groups() == set![g]
                && final(self).ancestors(g) == Seq::<GroupId>::empty(),
            !r ==> *final(self) == *old(self),
    {
        if self.nodes.len() > 0 {
            return false;
        }
        self.nodes.push((g, 0));
        proof {
            assert(self.groups() =~= set![g]) by {
                assert(self.nodes@[0].0 == g);
            }
            assert(self.position(g) == 0) by {
                assert(self.nodes@[0].0 == g);
            }
        }
        true
    }

    /// the root id
    pub fn get_root_id(&self) -> (r: Result<GroupId, IdTreeError>)
        ensures
            match self.root() {
                Some(g) => r == Ok::<GroupId, IdTreeError>(g),
                None => r == Err::<GroupId, IdTreeError>(IdTreeError::NotInitialized),
            },
    {
        if self.nodes.len() == 0 {
            Err(IdTreeError::NotInitialized)
        } else {
            Ok(self.nodes[0].0)
        }
    }

    /// adds `child` under `parent`
    pub fn insert_id(&mut self, parent: GroupId, child: GroupId) -> (r: Result<(), IdTreeError>)
        requires
            old(self).wf(),
        ensures
            final(self).wf(),
            r == if old(self).root() is None {
                Err::<(), IdTreeError>(IdTreeError::NotInitialized)
            } else if !old(self).groups().contains(parent) {
                Err(IdTreeError::NotFindParentId(parent))
            } else if old(self).groups().contains(child) {
                Err(IdTreeError::AlreadyExistId(child))
            } else {
                Ok(())
            },
            r is Ok ==> {
                &&& final(self).groups() == old(self).groups().insert(child)
                &&& final(self).root() == old(self).root()
                &&& final(self).ancestors(child) == seq![parent].add(old(self).ancestors(parent))
                &&& forall|g: GroupId|
                    old(self).groups().contains(g) ==> #[trigger] final(self).ancestors(g) == old(self).ancestors(g)
            },
            r is Err ==> *final(self) == *old(self),
    {
        if self.nodes.len() == 0 {
            return Err(IdTreeError::NotInitialized);
        }
        let p = match self.find(parent) {
            None => {
                return Err(IdTreeError::NotFindParentId(parent));
            },
            Some(p) => p,
        };
        if self.find(child).is_some() {
            return Err(IdTreeError::AlreadyExistId(child));
        }
        let ghost s = self.nodes@;
        let ghost before = *self;
        self.nodes.push((child, p));
        proof {
            let n = s.len() as int;
            assert(self.nodes@ == s.push((child, p)));
            assert(self.nodes@[n].0 == child);
            assert(self.groups() =~= before.groups().insert(child)) by {
                assert forall|g: GroupId| self.groups().contains(g) <==> before.groups().contains(g)
                    || g == child by {
                    if self.groups().contains(g) {
                        let i = choose|i: int| 0 <= i < self.nodes@.len() && self.nodes@[i].0 == g;
                        if i < n {
                            assert(s[i].0 == g);
                        }
                    }
                    if before.groups().contains(g) {
                        let i = choose|i: int| 0 <= i < s.len() && s[i].0 == g;
                        assert(self.nodes@[i].0 == g);
                    }
                }
            }
            assert(self.position(child) == n);
            lemma_ancestors_at_push(s, (child, p), p as int);
            assert forall|g: GroupId| before.groups().contains(g) implies #[trigger] self.ancestors(g)
                == before.ancestors(g) by {
                let i = before.position(g);
                assert(0 <= i < s.len() && s[i].0 == g);
                assert(self.nodes@[i].0 == g);
                assert(self.position(g) == i);
                lemma_ancestors_at_push(s, (child, p), i);
            }
            assert(ancestors_at(self.nodes@, n) =~= seq![s[p as int].0].add(
                ancestors_at(self.nodes@, p as int),
            ));
        }
        Ok(())
    }

    /// the ancestors of `g`, from its parent up to the root
    pub fn get_ancestor_ids(&self, g: GroupId) -> (r: Option<Vec<GroupId>>)
        requires
            self.wf(),
        ensures
            match r {
                Some(v) => self.groups().contains(g) && v@ == self.ancestors(g),
                None => !self.groups().contains(g),
            },
    {
        let start = match self.find(g) {
            None => {
                return None;
            },
            Some(i) => i,
        };
        let mut out: Vec<GroupId> = Vec::new();
        let mut pos: usize = start;
        while pos > 0
            invariant
                self.wf(),
                pos < self.nodes@.len(),
                start < self.nodes@.len(),
                out@.add(ancestors_at(self.nodes@, pos as int)) == ancestors_at(
                    self.nodes@,
                    start as int,
                ),
            decreases pos,
        {
            let p = self.nodes[pos].1;
            let ghost before = out@;
            out.push(self.nodes[p].0);
            proof {
                assert(before.add(ancestors_at(self.nodes@, pos as int)) =~= out@.add(
                    ancestors_at(self.nodes@, p as int),
                ));
            }
            pos = p;
        }
        proof {
            assert(out@.add(Seq::<GroupId>::empty()) =~= out@);
        }
        Some(out)
    }
}

} // verus!
