use vstd::prelude::*;

verus! {

/// The set of places at which one artifact was observed. The sites are kept
/// without repetition, in the order in which they were first seen.
pub struct Locations {
    pub sites: Vec<String>,
}

impl View for Locations {
    type V = Set<Seq<char>>;

    open spec fn view(&self) -> Set<Seq<char>> {
        Set::new(|l: Seq<char>| exists|i: int| 0 <= i < self.sites@.len() && self.sites@[i]@ == l)
    }
}

impl Locations {
    /// No site is stored twice, and there is at least one.
    pub open spec fn wf(&self) -> bool {
        &&& self.sites@.len() > 0
        &&& forall|i: int, j: int|
            0 <= i < j < self.sites@.len() ==> self.sites@[i]@ != self.sites@[j]@
    }

    pub fn new(first: String) -> (r: Locations)
        ensures
            r.wf(),
            r@ == set![first@],
            r.sites@.len() == 1,
    {
        let ghost f = first@;
        let r = Locations { sites: vec![first] };
        assert(r@ =~= set![f]) by {
            assert(r.sites@[0]@ == f);
        }
        r
    }

    pub fn contains(&self, l: &String) -> (r: bool)
        ensures
            r == self@.contains(l@),
    {
        let mut i: usize = 0;
        while i < self.sites.len()
            invariant
                i <= self.sites@.len(),
                forall|j: int| 0 <= j < i ==> self.sites@[j]@ != l@,
            decreases self.sites@.len() - i,
        {
            if self.sites[i] == *l {
                assert(self@.contains(l@)) by {
                    assert(self.sites@[i as int]@ == l@);
                }
                return true;
            }
            i = i + 1;
        }
        false
    }

    /// Adds a site; a site already present is not added again.
    pub fn insert(&mut self, l: String)
        requires
            old(self).wf(),
        ensures
            final(self).wf(),
            final(self)@ == old(self)@.insert(l@),
    {
        if !self.contains(&l) {
            let ghost before = self.sites@;
            let ghost lv = l@;
            self.sites.push(l);
            assert(self@ =~= old(self)@.insert(lv)) by {
                assert(self.sites@[before.len() as int]@ == lv);
                assert forall|x: Seq<char>| old(self)@.contains(x) implies self@.contains(x) by {
                    let i = choose|i: int| 0 <= i < before.len() && before[i]@ == x;
                    assert(self.sites@[i]@ == x);
                }
            }
        } else {
            assert(self@ =~= old(self)@.insert(l@));
        }
    }

    pub fn len(&self) -> (r: usize)
        ensures
            r == self.sites@.len(),
    {
        self.sites.len()
    }
}

} // verus!
