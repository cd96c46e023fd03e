use vstd::prelude::*;

verus! {

/// The identifiers that a traversal has dealt with: a set, kept as a list.
pub struct Visited {
    ids: Vec<String>,
}

impl View for Visited {
    type V = Set<Seq<char>>;

    closed spec fn view(&self) -> Set<Seq<char>> {
        Set::new(
            |id: Seq<char>| exists|i: int| 0 <= i < self.ids@.len() && #[trigger] self.ids@[i]@ == id,
        )
    }
}

impl Visited {
    /// The empty set.
    pub fn new() -> (r: Visited)
        ensures
            r@ == Set::<Seq<char>>::empty(),
    {
        let r = Visited { ids: Vec::new() };
        proof {
            assert(r@ =~= Set::<Seq<char>>::empty());
        }
        r
    }

    /// Whether `id` is in the set.
    pub fn contains(&self, id: &str) -> (b: bool)
        ensures
            b == self@.contains(id@),
    {
        let target = id.to_owned();
        let mut i: usize = 0;
        while i < self.ids.len()
            invariant
                i <= self.ids@.len(),
                target@ == id@,
                forall|j: int| 0 <= j < i ==> #[trigger] self.ids@[j]@ != id@,
            decreases self.ids.len() - i,
        {
            if self.ids[i] == target {
                return true;
            }
            i += 1;
        }
        false
    }

    /// Puts `id` into the set.
    pub fn insert(&mut self, id: String)
        ensures
            final(self)@ == old(self)@.insert(id@),
    {
        if !self.contains(id.as_str()) {
            let ghost before = self.ids@;
            self.ids.push(id);
            proof {
                assert forall|s: Seq<char>| self@.contains(s) <==> old(self)@.insert(id@).contains(
                    s,
                ) by {
                    if old(self)@.contains(s) {
                        let i = choose|i: int| 0 <= i < before.len() && #[trigger] before[i]@ == s;
                        assert(self.ids@[i]@ == s);
                    }
                    if s == id@ {
                        assert(self.ids@[before.len() as int]@ == s);
                    }
                }
                assert(self@ =~= old(self)@.insert(id@));
            }
        } else {
            proof {
                assert(self@ =~= old(self)@.insert(id@));
            }
        }
    }
}

} // verus!
