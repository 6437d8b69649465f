//! A small table of instants by name.
use crate::text::same_text;
use vstd::prelude::*;

verus! {

/// Instants by name: each name has one at most.
pub struct Stamps {
    entries: Vec<(String, u64)>,
}

spec fn named(entries: Seq<(String, u64)>, name: Seq<char>, i: int) -> bool {
    0 <= i < entries.len() && entries[i].0@ == name
}

spec fn has_name(entries: Seq<(String, u64)>, name: Seq<char>) -> bool {
    exists|i: int| named(entries, name, i)
}

spec fn instant_under(entries: Seq<(String, u64)>, name: Seq<char>) -> u64 {
    entries[choose|i: int| named(entries, name, i)].1
}

impl View for Stamps {
    type V = Map<Seq<char>, u64>;

    closed spec fn view(&self) -> Map<Seq<char>, u64> {
        Map::new(
            |name: Seq<char>| has_name(self.entries@, name),
            |name: Seq<char>| instant_under(self.entries@, name),
        )
    }
}

impl Stamps {
    #[verifier::type_invariant]
    spec fn well_formed(self) -> bool {
        forall|name: Seq<char>, i: int, j: int| #[trigger]
            named(self.entries@, name, i) && #[trigger] named(self.entries@, name, j) ==> i == j
    }

    /// A table without names.
    pub fn new() -> (r: Stamps)
        ensures
            r@ == Map::<Seq<char>, u64>::empty(),
    {
        let r: Stamps = Stamps { entries: Vec::new() };
        assert(r@ =~= Map::<Seq<char>, u64>::empty());
        r
    }

    fn position(&self, name: &str) -> (r: Option<usize>)
        ensures
            match r {
                Some(i) => named(self.entries@, name@, i as int),
                None => !has_name(self.entries@, name@),
            },
    {
        let mut i: usize = 0;
        while i < self.entries.len()
            invariant
                i <= self.entries@.len(),
                forall|k: int| 0 <= k < i ==> !named(self.entries@, name@, k),
            decreases self.entries.len() - i,
        {
            if same_text(self.entries[i].0.as_str(), name) {
                return Some(i);
            }
            i += 1;
        }
        None
    }

    /// The instant under a name.
    pub fn get(&self, name: &str) -> (r: Option<u64>)
        ensures
            r == (if self@.contains_key(name@) {
                Some(self@[name@])
            } else {
                None
            }),
    {
        proof {
            use_type_invariant(self);
        }
        match self.position(name) {
            Some(i) => {
                assert(named(self.entries@, name@, i as int));
                Some(self.entries[i].1)
            },
            None => None,
        }
    }

    /// Gives a name an instant, in place of the one it had.
    pub fn put(&mut self, name: &str, at: u64)
        ensures
            final(self)@ == old(self)@.insert(name@, at),
    {
        proof {
            use_type_invariant(&*self);
        }
        let ghost before = self.entries@;
        let ghost held = self@;
        let found: Option<usize> = self.position(name);
        let mut entries: Vec<(String, u64)> = Vec::new();
        std::mem::swap(&mut entries, &mut self.entries);
        match found {
            Some(i) => {
                entries.set(i, (name.to_owned(), at));
            },
            None => {
                entries.push((name.to_owned(), at));
            },
        }
        let ghost after = entries@;
        proof {
            assert forall|n: Seq<char>, i: int| n != name@ implies (#[trigger] named(after, n, i)
                <==> named(before, n, i)) by {}
            assert forall|n: Seq<char>, i: int, j: int| #[trigger] named(after, n, i)
                && #[trigger] named(after, n, j) implies i == j by {
                if n != name@ {
                    assert(named(before, n, i) && named(before, n, j));
                } else {
                    match found {
                        Some(at) => {
                            if i != at {
                                assert(named(before, n, i));
                            }
                            if j != at {
                                assert(named(before, n, j));
                            }
                            assert(named(before, n, at as int));
                        },
                        None => {
                            if i < before.len() {
                                assert(named(before, n, i));
                            }
                            if j < before.len() {
                                assert(named(before, n, j));
                            }
                        },
                    }
                }
            }
        }
        self.entries = entries;
        proof {
            let place = match found {
                Some(i) => i as int,
                None => before.len() as int,
            };
            assert(named(after, name@, place));
            assert forall|n: Seq<char>| self@.contains_key(n) <==> held.insert(name@, at).contains_key(
                n,
            ) by {
                if n != name@ {
                    if has_name(before, n) {
                        let i = choose|i: int| named(before, n, i);
                        assert(named(after, n, i));
                    }
                    if has_name(after, n) {
                        let i = choose|i: int| named(after, n, i);
                        assert(named(before, n, i));
                    }
                }
            }
            assert forall|n: Seq<char>| self@.contains_key(n) implies #[trigger] self@[n]
                == held.insert(name@, at)[n] by {
                if n != name@ {
                    let i = choose|i: int| named(after, n, i);
                    assert(named(before, n, i));
                    let k = choose|k: int| named(before, n, k);
                    assert(named(before, n, k));
                    assert(i == k);
                }
            }
            assert(self@ =~= held.insert(name@, at));
        }
    }
}

} // verus!
