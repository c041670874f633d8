//! Lists kept per principal.
//!
//! The lists live in the ledger's own memory, as what they hold. A host that
//! keeps lists of its own hands them in and takes them out as plain vectors:
//! a list of the host is a handle into the host, and every call on it is
//! metered by the host and fails once the call's budget is used up.

use vstd::prelude::*;
use crate::address::Address;

verus! {

/// The list of one principal.
#[derive(Debug)]
struct Entry<T> {
    who: Address,
    items: Vec<T>,
}

/// For each principal a list of items, in the order in which they were
/// added. A principal of whom nothing was recorded has the empty list.
#[derive(Debug)]
pub struct Index<T> {
    entries: Vec<Entry<T>>,
    nothing: Vec<T>,
}

impl<T> Index<T> {
    /// No principal has two entries, and the list handed out for a principal
    /// without an entry is empty.
    pub closed spec fn wf(&self) -> bool {
        &&& self.nothing@.len() == 0
        &&& forall|i: int, j: int|
            0 <= i < j < self.entries@.len() ==> self.entries@[i].who@ != self.entries@[j].who@
    }

    /// Whether the entry at place `i` is that of `who`.
    spec fn holds(&self, who: Seq<char>, i: int) -> bool {
        0 <= i < self.entries@.len() && self.entries@[i].who@ == who
    }

    /// The list of `who`.
    pub closed spec fn list(&self, who: Seq<char>) -> Seq<T> {
        if exists|i: int| self.holds(who, i) {
            self.entries@[choose|i: int| self.holds(who, i)].items@
        } else {
            Seq::empty()
        }
    }

    /// The list of a principal is that of its entry.
    proof fn lemma_list_at(&self, who: Seq<char>, i: int)
        requires
            self.wf(),
            self.holds(who, i),
        ensures
            self.list(who) == self.entries@[i].items@,
    {
        let c = choose|c: int| self.holds(who, c);
        assert(c == i);
    }

    /// The list of a principal without an entry is empty.
    proof fn lemma_list_absent(&self, who: Seq<char>)
        requires
            forall|i: int| !self.holds(who, i),
        ensures
            self.list(who) == Seq::<T>::empty(),
    {
    }

    /// A list is the same in two indexes of which the second has every entry
    /// of the first, with the same items wherever the entry is of `a`.
    proof fn lemma_list_kept(x: Self, y: Self, a: Seq<char>)
        requires
            x.wf(),
            y.wf(),
            x.entries@.len() <= y.entries@.len(),
            forall|j: int| 0 <= j < x.entries@.len() ==> #[trigger] y.entries@[j].who@ == x.entries@[j].who@,
            forall|j: int| 0 <= j < x.entries@.len() && x.entries@[j].who@ == a ==> #[trigger] y.entries@[j].items@
                == x.entries@[j].items@,
            forall|j: int| x.entries@.len() <= j < y.entries@.len() ==> #[trigger] y.entries@[j].who@ != a,
        ensures
            y.list(a) == x.list(a),
    {
        if exists|i: int| x.holds(a, i) {
            let i = choose|i: int| x.holds(a, i);
            assert(y.entries@[i].who@ == x.entries@[i].who@);
            assert(y.holds(a, i));
            x.lemma_list_at(a, i);
            y.lemma_list_at(a, i);
        } else {
            assert forall|i: int| !y.holds(a, i) by {
                if 0 <= i < x.entries@.len() {
                    assert(y.entries@[i].who@ == x.entries@[i].who@);
                    assert(!x.holds(a, i));
                }
            }
        }
    }

    /// An index that differs from a well-formed one in the items of a single
    /// entry is well formed, has those items as the list of the entry's
    /// principal, and has every other list as it was.
    proof fn lemma_entry_changed(x: Self, y: Self, i: int)
        requires
            x.wf(),
            0 <= i < x.entries@.len(),
            y.nothing == x.nothing,
            y.entries@.len() == x.entries@.len(),
            forall|j: int| 0 <= j < x.entries@.len() ==> #[trigger] y.entries@[j].who == x.entries@[j].who,
            forall|j: int| 0 <= j < x.entries@.len() && j != i ==> #[trigger] y.entries@[j].items == x.entries@[j].items,
        ensures
            y.wf(),
            y.list(x.entries@[i].who@) == y.entries@[i].items@,
            forall|a: Seq<char>| a != x.entries@[i].who@ ==> y.list(a) == x.list(a),
    {
        let who = x.entries@[i].who@;
        assert forall|j: int, k: int| 0 <= j < k < y.entries@.len() implies y.entries@[j].who@ != y.entries@[k].who@ by {
            assert(y.entries@[j].who == x.entries@[j].who);
            assert(y.entries@[k].who == x.entries@[k].who);
        }
        assert(y.entries@[i].who == x.entries@[i].who);
        assert(y.holds(who, i));
        y.lemma_list_at(who, i);
        assert forall|a: Seq<char>| a != who implies y.list(a) == x.list(a) by {
            assert forall|j: int| 0 <= j < x.entries@.len() implies #[trigger] y.entries@[j].who@ == x.entries@[j].who@ by {
                assert(y.entries@[j].who == x.entries@[j].who);
            }
            assert forall|j: int| 0 <= j < x.entries@.len() && x.entries@[j].who@ == a implies #[trigger] y.entries@[
                j
            ].items@ == x.entries@[j].items@ by {
                assert(y.entries@[j].items == x.entries@[j].items);
            }
            Self::lemma_list_kept(x, y, a);
        }
    }

    /// The index in which every list is empty.
    pub fn new() -> (r: Self)
        ensures
            r.wf(),
            forall|a: Seq<char>| r.list(a) == Seq::<T>::empty(),
    {
        let r = Index { entries: Vec::new(), nothing: Vec::new() };
        assert forall|a: Seq<char>| r.list(a) == Seq::<T>::empty() by {
            r.lemma_list_absent(a);
        }
        r
    }

    /// The place of the entry of `who`, if it has one.
    fn position(&self, who: &Address) -> (r: Option<usize>)
        ensures
            match r {
                Some(i) => self.holds(who@, i as int),
                None => forall|i: int| !self.holds(who@, i),
            },
    {
        let mut i: usize = 0;
        while i < self.entries.len()
            invariant
                0 <= i <= self.entries@.len(),
                forall|j: int| 0 <= j < i ==> !self.holds(who@, j),
            decreases self.entries@.len() - i,
        {
            if self.entries[i].who.same(who) {
                return Some(i);
            }
            i += 1;
        }
        None
    }

    /// The list of `who`.
    pub fn get(&self, who: &Address) -> (r: &Vec<T>)
        requires
            self.wf(),
        ensures
            r@ == self.list(who@),
    {
        match self.position(who) {
            Some(i) => {
                proof {
                    self.lemma_list_at(who@, i as int);
                }
                &self.entries[i].items
            },
            None => {
                proof {
                    self.lemma_list_absent(who@);
                }
                &self.nothing
            },
        }
    }

    /// The principals of whom a list is kept, each once. Every other
    /// principal has the empty list.
    pub closed spec fn owners(&self) -> Seq<Seq<char>> {
        self.entries@.map_values(|e: Entry<T>| e.who@)
    }

    /// No principal is kept twice, and a principal that is not kept has the
    /// empty list.
    pub proof fn lemma_owners(&self)
        requires
            self.wf(),
        ensures
            self.owners().no_duplicates(),
            forall|a: Seq<char>| !self.owners().contains(a) ==> #[trigger] self.list(a) == Seq::<T>::empty(),
    {
        assert forall|i: int, j: int|
            0 <= i < self.owners().len() && 0 <= j < self.owners().len() && i != j implies self.owners()[i]
            != self.owners()[j] by {
            if i < j {
                assert(self.entries@[i].who@ != self.entries@[j].who@);
            } else {
                assert(self.entries@[j].who@ != self.entries@[i].who@);
            }
        }
        assert forall|a: Seq<char>| !self.owners().contains(a) implies #[trigger] self.list(a) == Seq::<T>::empty() by {
            assert forall|i: int| !self.holds(a, i) by {
                if self.holds(a, i) {
                    assert(self.owners()[i] == a);
                }
            }
            self.lemma_list_absent(a);
        }
    }

    /// The number of principals of whom a list is kept.
    pub fn count(&self) -> (r: usize)
        ensures
            r == self.owners().len(),
    {
        self.entries.len()
    }

    /// The principal of the list at place `i`.
    pub fn owner_at(&self, i: usize) -> (r: &Address)
        requires
            i < self.owners().len(),
        ensures
            r@ == self.owners()[i as int],
    {
        &self.entries[i].who
    }

    /// The list at place `i`.
    pub fn list_at(&self, i: usize) -> (r: &Vec<T>)
        requires
            self.wf(),
            i < self.owners().len(),
        ensures
            r@ == self.list(self.owners()[i as int]),
    {
        proof {
            self.lemma_list_at(self.owners()[i as int], i as int);
        }
        &self.entries[i].items
    }

    /// Makes `items` the list of `who`, and leaves every other list alone.
    pub fn set(&mut self, who: &Address, items: Vec<T>)
        requires
            old(self).wf(),
        ensures
            final(self).wf(),
            final(self).list(who@) == items@,
            forall|a: Seq<char>| a != who@ ==> final(self).list(a) == old(self).list(a),
    {
        let found = self.position(who);
        match found {
            Some(i) => {
                self.entries[i].items = items;
                proof {
                    Self::lemma_entry_changed(*old(self), *self, i as int);
                }
            },
            None => {
                let ghost n = self.entries@.len() as int;
                self.entries.push(Entry { who: who.clone(), items });
                proof {
                    assert forall|j: int| 0 <= j < n implies #[trigger] self.entries@[j]
                        == old(self).entries@[j] by {}
                    assert forall|j: int| 0 <= j < n implies self.entries@[j].who@ != who@ by {
                        assert(!old(self).holds(who@, j));
                    }
                    assert(self.holds(who@, n));
                    self.lemma_list_at(who@, n);
                    assert forall|a: Seq<char>| a != who@ implies self.list(a) == old(self).list(a) by {
                        Self::lemma_list_kept(*old(self), *self, a);
                    }
                }
            },
        }
    }

    /// Appends `item` to the list of `who`, and leaves every other list alone.
    pub fn append(&mut self, who: &Address, item: T)
        requires
            old(self).wf(),
        ensures
            final(self).wf(),
            final(self).list(who@) == old(self).list(who@).push(item),
            forall|a: Seq<char>| a != who@ ==> final(self).list(a) == old(self).list(a),
    {
        let found = self.position(who);
        match found {
            Some(i) => {
                proof {
                    self.lemma_list_at(who@, i as int);
                }
                self.entries[i].items.push(item);
                proof {
                    Self::lemma_entry_changed(*old(self), *self, i as int);
                }
            },
            None => {
                proof {
                    self.lemma_list_absent(who@);
                }
                let mut items: Vec<T> = Vec::new();
                items.push(item);
                assert(items@ =~= old(self).list(who@).push(item));
                self.set(who, items);
            },
        }
    }
}

} // verus!
