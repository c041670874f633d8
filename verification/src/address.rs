//! Principals, and the proof a call carries of who approved it.

use vstd::prelude::*;

verus! {

/// A principal: whoever can approve an action, hold funds or own an agent.
/// Two addresses are the same principal when their keys are equal.
#[derive(Debug, PartialEq, Eq)]
pub struct Address {
    key: String,
}

impl View for Address {
    type V = Seq<char>;

    closed spec fn view(&self) -> Seq<char> {
        self.key@
    }
}

impl Address {
    /// The principal with the given key.
    pub fn new(key: String) -> (r: Address)
        ensures
            r@ == key@,
    {
        Address { key }
    }

    /// The principal's key.
    pub fn key(&self) -> (r: &String)
        ensures
            r@ == self@,
    {
        &self.key
    }

    /// Whether `self` and `other` are the same principal.
    pub fn same(&self, other: &Address) -> (r: bool)
        ensures
            r == (self@ == other@),
    {
        self.key == other.key
    }
}

impl Clone for Address {
    fn clone(&self) -> (r: Address)
        ensures
            r@ == self@,
    {
        Address { key: self.key.clone() }
    }
}

/// The principals that approved the call at hand. The host establishes it
/// before it calls a ledger, and every operation checks it first.
#[derive(Debug)]
pub struct Authorization {
    approvers: Vec<Address>,
}

impl View for Authorization {
    type V = Set<Seq<char>>;

    closed spec fn view(&self) -> Set<Seq<char>> {
        Set::new(|a: Seq<char>| exists|i: int| 0 <= i < self.approvers@.len() && #[trigger] self.approvers@[i]@ == a)
    }
}

impl Authorization {
    /// A call that nobody approved.
    pub fn none() -> (r: Authorization)
        ensures
            r@ == Set::<Seq<char>>::empty(),
    {
        let r = Authorization { approvers: Vec::new() };
        assert(r@ =~= Set::<Seq<char>>::empty());
        r
    }

    /// A call that `who` alone approved.
    pub fn of(who: Address) -> (r: Authorization)
        ensures
            r@ == Set::<Seq<char>>::empty().insert(who@),
    {
        let mut r = Authorization::none();
        r.add(who);
        r
    }

    /// Records that `who` approved the call too.
    pub fn add(&mut self, who: Address)
        ensures
            final(self)@ == old(self)@.insert(who@),
    {
        let ghost before = self.approvers@;
        self.approvers.push(who);
        proof {
            assert forall|a: Seq<char>| final(self)@.contains(a) <==> old(self)@.insert(who@).contains(a) by {
                if old(self)@.contains(a) {
                    let i = choose|i: int| 0 <= i < before.len() && #[trigger] before[i]@ == a;
                    assert(self.approvers@[i]@ == a);
                }
                if a == who@ {
                    assert(self.approvers@[before.len() as int]@ == a);
                }
            }
            assert(final(self)@ =~= old(self)@.insert(who@));
        }
    }

    /// Whether `who` approved the call.
    pub fn permits(&self, who: &Address) -> (r: bool)
        ensures
            r == self@.contains(who@),
    {
        let mut i: usize = 0;
        while i < self.approvers.len()
            invariant
                0 <= i <= self.approvers@.len(),
                forall|j: int| 0 <= j < i ==> #[trigger] self.approvers@[j]@ != who@,
            decreases self.approvers@.len() - i,
        {
            if self.approvers[i].same(who) {
                return true;
            }
            i += 1;
        }
        false
    }
}

} // verus!
