//! Sets of window addresses: the baseline of addresses live before any
//! launch was triggered, and the addresses already claimed by a restore run.

use vstd::prelude::*;

verus! {

/// A set of window addresses.
pub struct AddressSet {
    items: Vec<String>,
}

impl View for AddressSet {
    type V = Set<Seq<char>>;

    /// The mathematical set of addresses held.
    closed spec fn view(&self) -> Set<Seq<char>> {
        Set::new(
            |a: Seq<char>|
                exists|i: int| 0 <= i < self.items@.len() && self.items@[i]@ == a,
        )
    }
}

impl AddressSet {
    /// The empty address set.
    pub fn new() -> (s: AddressSet)
        ensures
            s@ == Set::<Seq<char>>::empty(),
    {
        let s = AddressSet { items: Vec::new() };
        proof {
            assert(s@ =~= Set::<Seq<char>>::empty());
        }
        s
    }

    /// Whether `address` is in the set.
    #[verifier::loop_isolation(false)]
    pub fn contains(&self, address: &str) -> (r: bool)
        ensures
            r == self@.contains(address@),
    {
        let needle: String = address.to_owned();
        let mut i: usize = 0;
        while i < self.items.len()
            invariant
                i <= self.items@.len(),
                forall|k: int| 0 <= k < i as int ==> self.items@[k]@ != address@,
            decreases self.items@.len() - i,
        {
            if self.items[i] == needle {
                return true;
            }
            i += 1;
        }
        false
    }

    /// Adds `address` to the set.
    pub fn insert(&mut self, address: String)
        ensures
            final(self)@ == old(self)@.insert(address@),
    {
        self.items.push(address);
        proof {
            assert forall|a: Seq<char>| self@.contains(a) implies old(self)@.insert(
                address@,
            ).contains(a) by {
                let i = choose|i: int| 0 <= i < self.items@.len() && self.items@[i]@ == a;
                if i < old(self).items@.len() {
                    assert(old(self)@.contains(a));
                }
            }
            assert forall|a: Seq<char>| old(self)@.insert(address@).contains(a) implies self@
                .contains(a) by {
                if a == address@ {
                    assert(self.items@[self.items@.len() - 1]@ == a);
                } else {
                    let i = choose|i: int|
                        0 <= i < old(self).items@.len() && old(self).items@[i]@ == a;
                    assert(self.items@[i]@ == a);
                }
            }
            assert(self@ =~= old(self)@.insert(address@));
        }
    }
}

} // verus!
