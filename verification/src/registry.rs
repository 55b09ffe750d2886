//! The subscription registry: the store of active subscriptions that the
//! control plane manages.
//!
//! The registry is modelled as a finite map from subscription identifier to
//! filter criteria. Identifiers are assigned by the registry itself, from a
//! counter that has never been handed out before, so every live identifier
//! is unique.

use vstd::prelude::*;
use crate::EventKind;
use crate::schema::{copy_kinds, Subscription};

verus! {

/// The store of active subscriptions.
pub struct Registry {
    subs: Vec<Subscription>,
    next_id: u128,
}

/// The map a list of subscription records denotes.
pub open spec fn map_of(subs: Seq<Subscription>) -> Map<u128, Seq<EventKind>>
    decreases subs.len(),
{
    if subs.len() == 0 {
        Map::empty()
    } else {
        map_of(subs.drop_last()).insert(subs.last().id, subs.last().kinds@)
    }
}

impl Registry {
    /// The registry as a map from identifier to filter criteria.
    pub closed spec fn view(&self) -> Map<u128, Seq<EventKind>> {
        map_of(self.subs@)
    }

    /// Well-formedness: identifiers are pairwise distinct, and all of them
    /// were assigned below the counter.
    pub closed spec fn wf(&self) -> bool {
        &&& forall|i: int, j: int|
            0 <= i < j < self.subs@.len() ==> #[trigger] self.subs@[i].id != #[trigger] self.subs@[j].id
        &&& forall|i: int| 0 <= i < self.subs@.len() ==> #[trigger] self.subs@[i].id < self.next_id
    }

    /// Whether the registry can still assign a fresh identifier.
    pub closed spec fn can_assign(&self) -> bool {
        self.next_id < u128::MAX
    }

    /// An empty registry.
    pub fn new() -> (r: Registry)
        ensures
            r.wf(),
            r.can_assign(),
            r@ == Map::<u128, Seq<EventKind>>::empty(),
    {
        Registry { subs: Vec::new(), next_id: 0 }
    }

    /// Looks one subscription up by its identifier.
    pub fn get(&self, id: u128) -> (r: Option<Subscription>)
        requires
            self.wf(),
        ensures
            match r {
                Some(s) => self@.contains_key(id) && s.id == id && s.kinds@ == self@[id],
                None => !self@.contains_key(id),
            },
    {
        let n = self.subs.len();
        let mut i: usize = 0;
        while i < n
            invariant
                0 <= i <= n,
                n == self.subs@.len(),
                self.wf(),
                forall|j: int| 0 <= j < i ==> #[trigger] self.subs@[j].id != id,
            decreases n - i,
        {
            if self.subs[i].id == id {
                proof {
                    lemma_map_of_found(self.subs@, i as int);
                }
                let kinds = copy_kinds(&self.subs[i].kinds);
                return Some(Subscription { id, kinds });
            }
            i = i + 1;
        }
        proof {
            lemma_map_of_absent(self.subs@, id);
        }
        None
    }

    /// All active subscriptions: one record per live identifier, each record
    /// carrying the criteria registered under its identifier.
    pub fn list(&self) -> (r: Vec<Subscription>)
        requires
            self.wf(),
        ensures
            forall|i: int|
                0 <= i < r@.len() ==> self@.contains_key(#[trigger] r@[i].id) && r@[i].kinds@
                    == self@[r@[i].id],
            forall|i: int, j: int| 0 <= i < j < r@.len() ==> r@[i].id != r@[j].id,
            forall|id: u128| self@.contains_key(id) ==> exists|i: int|
                0 <= i < r@.len() && #[trigger] r@[i].id == id,
    {
        let n = self.subs.len();
        let mut r: Vec<Subscription> = Vec::new();
        let mut i: usize = 0;
        while i < n
            invariant
                0 <= i <= n,
                n == self.subs@.len(),
                self.wf(),
                r@.len() == i,
                forall|j: int| 0 <= j < i ==> #[trigger] r@[j].id == self.subs@[j].id
                    && r@[j].kinds@ == self.subs@[j].kinds@,
            decreases n - i,
        {
            let kinds = copy_kinds(&self.subs[i].kinds);
            r.push(Subscription { id: self.subs[i].id, kinds });
            i = i + 1;
        }
        proof {
            assert forall|k: int| 0 <= k < r@.len() implies self@.contains_key(#[trigger] r@[k].id)
                && r@[k].kinds@ == self@[r@[k].id] by {
                lemma_map_of_found(self.subs@, k);
            }
            assert forall|id: u128| self@.contains_key(id) implies exists|k: int|
                0 <= k < r@.len() && #[trigger] r@[k].id == id by {
                lemma_map_of_contains(self.subs@, id);
                let k = choose|k: int| 0 <= k < self.subs@.len() && self.subs@[k].id == id;
                assert(r@[k].id == id);
            }
        }
        r
    }

    /// Registers a subscription under a fresh identifier and returns the
    /// created record. Returns nothing only when the identifier space is
    /// exhausted, in which case the registry is unchanged.
    pub fn insert_sub(&mut self, kinds: Vec<EventKind>) -> (r: Option<Subscription>)
        requires
            old(self).wf(),
        ensures
            final(self).wf(),
            old(self).can_assign() ==> match r {
                Some(s) => {
                    &&& !old(self)@.contains_key(s.id)
                    &&& s.kinds@ == kinds@
                    &&& final(self)@ == old(self)@.insert(s.id, kinds@)
                },
                None => false,
            },
            !old(self).can_assign() ==> r is None && final(self)@ == old(self)@,
    {
        if self.next_id == u128::MAX {
            return None;
        }
        let id = self.next_id;
        proof {
            lemma_map_of_absent(self.subs@, id);
        }
        let stored_kinds = copy_kinds(&kinds);
        self.subs.push(Subscription { id, kinds: stored_kinds });
        self.next_id = self.next_id + 1;
        proof {
            let subs2 = self.subs@;
            assert(subs2.drop_last() =~= old(self).subs@);
            assert forall|i: int, j: int| 0 <= i < j < subs2.len() implies #[trigger] subs2[i].id
                != #[trigger] subs2[j].id by {
                if j < subs2.len() - 1 {
                    assert(subs2[i] == old(self).subs@[i] && subs2[j] == old(self).subs@[j]);
                } else {
                    assert(subs2[i] == old(self).subs@[i]);
                }
            }
        }
        let kept = copy_kinds(&kinds);
        Some(Subscription { id, kinds: kept })
    }

    /// Removes the subscription with the given identifier, if it is there.
    /// Returns whether it was.
    pub fn remove_sub(&mut self, id: u128) -> (r: bool)
        requires
            old(self).wf(),
        ensures
            final(self).wf(),
            r == old(self)@.contains_key(id),
            final(self)@ == old(self)@.remove(id),
            final(self).can_assign() == old(self).can_assign(),
    {
        let n = self.subs.len();
        let mut i: usize = 0;
        while i < n
            invariant
                0 <= i <= n,
                n == self.subs@.len(),
                self.wf(),
                *self == *old(self),
                forall|j: int| 0 <= j < i ==> #[trigger] self.subs@[j].id != id,
            decreases n - i,
        {
            if self.subs[i].id == id {
                proof {
                    lemma_map_of_found(self.subs@, i as int);
                    lemma_map_of_remove(self.subs@, i as int);
                }
                self.subs.remove(i);
                proof {
                    let prev = old(self).subs@;
                    let cur = self.subs@;
                    assert forall|a: int, b: int| 0 <= a < b < cur.len() implies #[trigger] cur[a].id
                        != #[trigger] cur[b].id by {
                        let a2: int = if a < i { a } else { a + 1 };
                        let b2: int = if b < i { b } else { b + 1 };
                        assert(cur[a] == prev[a2] && cur[b] == prev[b2]);
                    }
                    assert forall|a: int| 0 <= a < cur.len() implies #[trigger] cur[a].id
                        < self.next_id by {
                        let a2: int = if a < i { a } else { a + 1 };
                        assert(cur[a] == prev[a2]);
                    }
                }
                return true;
            }
            i = i + 1;
        }
        proof {
            lemma_map_of_absent(self.subs@, id);
            assert(self@.remove(id) =~= self@);
        }
        false
    }
}

/// If no record carries an identifier, the denoted map has no key for it.
proof fn lemma_map_of_absent(subs: Seq<Subscription>, id: u128)
    requires
        forall|i: int| 0 <= i < subs.len() ==> #[trigger] subs[i].id != id,
    ensures
        !map_of(subs).contains_key(id),
    decreases subs.len(),
{
    if subs.len() > 0 {
        assert(forall|i: int|
            0 <= i < subs.len() - 1 ==> #[trigger] subs.drop_last()[i] == subs[i]);
        lemma_map_of_absent(subs.drop_last(), id);
    }
}

/// If the denoted map has a key, some record carries that identifier.
proof fn lemma_map_of_contains(subs: Seq<Subscription>, id: u128)
    requires
        map_of(subs).contains_key(id),
    ensures
        exists|i: int| 0 <= i < subs.len() && #[trigger] subs[i].id == id,
    decreases subs.len(),
{
    if subs.len() > 0 {
        if subs.last().id == id {
            assert(subs[subs.len() - 1].id == id);
        } else {
            lemma_map_of_contains(subs.drop_last(), id);
            let i = choose|i: int| 0 <= i < subs.drop_last().len() && subs.drop_last()[i].id == id;
            assert(subs[i].id == id);
        }
    }
}

/// With pairwise distinct identifiers, the record at a found index is
/// exactly what the denoted map holds for its identifier.
proof fn lemma_map_of_found(subs: Seq<Subscription>, i: int)
    requires
        forall|a: int, b: int| 0 <= a < b < subs.len() ==> #[trigger] subs[a].id != #[trigger] subs[b].id,
        0 <= i < subs.len(),
    ensures
        map_of(subs).contains_key(subs[i].id),
        map_of(subs)[subs[i].id] == subs[i].kinds@,
    decreases subs.len(),
{
    if i == subs.len() - 1 {
    } else {
        assert(forall|a: int|
            0 <= a < subs.len() - 1 ==> #[trigger] subs.drop_last()[a] == subs[a]);
        lemma_map_of_found(subs.drop_last(), i);
        assert(subs.last().id != subs[i].id);
    }
}

/// Removing the record that carries an identifier removes exactly that key
/// from the denoted map.
proof fn lemma_map_of_remove(subs: Seq<Subscription>, i: int)
    requires
        forall|a: int, b: int| 0 <= a < b < subs.len() ==> #[trigger] subs[a].id != #[trigger] subs[b].id,
        0 <= i < subs.len(),
    ensures
        map_of(subs.remove(i)) == map_of(subs).remove(subs[i].id),
    decreases subs.len(),
{
    let id = subs[i].id;
    if i == subs.len() - 1 {
        assert(subs.remove(i) =~= subs.drop_last());
        assert(forall|a: int|
            0 <= a < subs.len() - 1 ==> #[trigger] subs.drop_last()[a] == subs[a]);
        lemma_map_of_absent(subs.drop_last(), id);
        assert(map_of(subs).remove(id) =~= map_of(subs.drop_last()));
    } else {
        assert(forall|a: int|
            0 <= a < subs.len() - 1 ==> #[trigger] subs.drop_last()[a] == subs[a]);
        lemma_map_of_remove(subs.drop_last(), i);
        let shorter = subs.remove(i);
        assert(shorter.drop_last() =~= subs.drop_last().remove(i));
        assert(shorter.last() == subs.last());
        assert(map_of(shorter) == map_of(subs.drop_last()).remove(id).insert(
            subs.last().id,
            subs.last().kinds@,
        ));
        assert(subs.last().id != id);
        assert(map_of(subs.drop_last()).remove(id).insert(subs.last().id, subs.last().kinds@)
            =~= map_of(subs.drop_last()).insert(subs.last().id, subs.last().kinds@).remove(id));
    }
}

} // verus!
