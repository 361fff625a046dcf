//! A list of distinct texts that finds the place of each quickly.
use crate::text::{place, place_is_first, put, texts};
use vstd::hash_map::StringHashMap;
use vstd::prelude::*;

verus! {

/// Distinct texts in the order in which they were first put in.
pub struct KeySet {
    list: Vec<String>,
    places: StringHashMap<usize>,
}

impl KeySet {
    /// The texts in order.
    pub closed spec fn view(&self) -> Seq<Seq<char>> {
        texts(self.list@)
    }

    pub closed spec fn wf(&self) -> bool {
        &&& texts(self.list@).no_duplicates()
        &&& forall|k: Seq<char>| #[trigger]
            self.places@.contains_key(k) <==> texts(self.list@).contains(k)
        &&& forall|k: Seq<char>| #[trigger]
            self.places@.contains_key(k) ==> self.places@[k] < self.list@.len()
                && self.list@[self.places@[k] as int]@ == k
    }

    /// The texts of a well-formed list are distinct.
    pub broadcast proof fn distinct(&self)
        requires
            self.wf(),
        ensures
            #[trigger] self.view().no_duplicates(),
    {
    }

    /// A list without texts.
    pub fn new() -> (r: KeySet)
        ensures
            r.wf(),
            r.view() == Seq::<Seq<char>>::empty(),
    {
        KeySet { list: Vec::new(), places: StringHashMap::new() }
    }

    pub fn len(&self) -> (r: usize)
        ensures
            r == self.view().len(),
    {
        self.list.len()
    }

    /// Where a text stands.
    pub fn find(&self, s: &str) -> (r: Option<usize>)
        requires
            self.wf(),
        ensures
            match r {
                Some(i) => i < self.view().len() && self.view()[i as int] == s@,
                None => !self.view().contains(s@),
            },
    {
        match self.places.get(s) {
            Some(i) => Some(*i),
            None => None,
        }
    }

    pub fn contains(&self, s: &str) -> (r: bool)
        requires
            self.wf(),
        ensures
            r == self.view().contains(s@),
    {
        self.places.contains_key(s)
    }

    /// The text at a place.
    pub fn at(&self, i: usize) -> (r: &String)
        requires
            i < self.view().len(),
        ensures
            r@ == self.view()[i as int],
    {
        &self.list[i]
    }

    /// Puts a text at the end unless it is there already; says whether it did.
    pub fn insert(&mut self, s: &str) -> (r: bool)
        requires
            old(self).wf(),
        ensures
            final(self).wf(),
            r == !old(self).view().contains(s@),
            final(self).view() == (if r {
                old(self).view().push(s@)
            } else {
                old(self).view()
            }),
    {
        if self.places.contains_key(s) {
            return false;
        }
        let ghost before = texts(self.list@);
        let n: usize = self.list.len();
        self.list.push(s.to_string());
        self.places.insert(s.to_string(), n);
        proof {
            let after = texts(self.list@);
            assert(after == before.push(s@));
            assert forall|k: Seq<char>| #[trigger] self.places@.contains_key(k)
                <==> after.contains(k) by {
                if before.contains(k) {
                    let i = before.index_of(k);
                    assert(after[i] == k);
                }
                assert(after[n as int] == s@);
            }
        }
        true
    }

    /// The place of a text, which is put at the end unless it is there already.
    pub fn intern(&mut self, s: &str) -> (r: usize)
        requires
            old(self).wf(),
        ensures
            final(self).wf(),
            r == place(old(self).view(), s@),
            final(self).view() == put(old(self).view(), s@),
    {
        proof {
            place_is_first(self.view(), s@);
        }
        match self.find(s) {
            Some(i) => i,
            None => {
                let n: usize = self.len();
                proof {
                    if place(self.view(), s@) < self.view().len() {
                        assert(self.view().contains(s@));
                    }
                }
                self.insert(s);
                n
            },
        }
    }

    /// The texts in order.
    pub fn into_vec(self) -> (r: Vec<String>)
        ensures
            texts(r@) == self.view(),
    {
        self.list
    }
}

} // verus!
