use vstd::prelude::*;
use crate::text::{bytes_of, lemma_bytes_of_injective};

verus! {

/// Labels and the addresses they stand for, each label once.
pub struct SymbolTable {
    entries: Vec<(String, u8)>,
    contents: Ghost<Map<Seq<u8>, u8>>,
}

impl View for SymbolTable {
    type V = Map<Seq<u8>, u8>;

    closed spec fn view(&self) -> Map<Seq<u8>, u8> {
        self.contents@
    }
}

impl SymbolTable {
    /// The entries and the map agree, and no label occurs twice.
    pub closed spec fn well_formed(&self) -> bool {
        &&& forall|i: int|
            0 <= i < self.entries@.len() ==> {
                &&& #[trigger] self.contents@.contains_key(bytes_of(&self.entries@[i].0))
                &&& self.contents@[bytes_of(&self.entries@[i].0)] == self.entries@[i].1
            }
        &&& forall|k: Seq<u8>|
            #[trigger] self.contents@.contains_key(k) ==> exists|i: int|
                0 <= i < self.entries@.len() && bytes_of(&self.entries@[i].0) == k
        &&& forall|i: int, j: int|
            0 <= i < self.entries@.len() && 0 <= j < self.entries@.len() && i != j
                ==> bytes_of(&(#[trigger] self.entries@[i]).0) != bytes_of(
                &(#[trigger] self.entries@[j]).0,
            )
    }

    pub fn new() -> (r: SymbolTable)
        ensures
            r.well_formed(),
            r@ == Map::<Seq<u8>, u8>::empty(),
    {
        SymbolTable { entries: Vec::new(), contents: Ghost(Map::empty()) }
    }

    /// The index of `name` among the entries, if it is there.
    fn position(&self, name: &String) -> (r: Option<usize>)
        requires
            self.well_formed(),
        ensures
            match r {
                Some(i) => i < self.entries@.len() && bytes_of(&self.entries@[i as int].0)
                    == bytes_of(name),
                None => !self@.contains_key(bytes_of(name)),
            },
    {
        let mut i: usize = 0;
        while i < self.entries.len()
            invariant
                self.well_formed(),
                0 <= i <= self.entries@.len(),
                forall|j: int|
                    0 <= j < i ==> bytes_of(&(#[trigger] self.entries@[j]).0) != bytes_of(name),
            decreases self.entries@.len() - i,
        {
            let same = self.entries[i].0 == *name;
            proof {
                lemma_bytes_of_injective(&self.entries@[i as int].0, name);
            }
            if same {
                return Some(i);
            }
            i = i + 1;
        }
        None
    }

    /// The address recorded for `name`.
    pub fn get(&self, name: &String) -> (r: Option<u8>)
        requires
            self.well_formed(),
        ensures
            r == (if self@.contains_key(bytes_of(name)) {
                Some(self@[bytes_of(name)])
            } else {
                None::<u8>
            }),
    {
        match self.position(name) {
            Some(i) => Some(self.entries[i].1),
            None => None,
        }
    }

    /// Records `addr` for `name`; a label recorded before takes the new address.
    pub fn insert(&mut self, name: String, addr: u8)
        requires
            old(self).well_formed(),
        ensures
            final(self).well_formed(),
            final(self)@ == old(self)@.insert(bytes_of(&name), addr),
    {
        let ghost k = bytes_of(&name);
        let ghost idx: int;
        match self.position(&name) {
            Some(i) => {
                self.entries.set(i, (name, addr));
                proof {
                    idx = i as int;
                }
            },
            None => {
                self.entries.push((name, addr));
                proof {
                    idx = self.entries@.len() - 1;
                }
            },
        }
        self.contents = Ghost(self.contents@.insert(k, addr));
        assert(bytes_of(&self.entries@[idx].0) == k);
        assert forall|k2: Seq<u8>| #[trigger] self.contents@.contains_key(k2) implies exists|i: int|
            0 <= i < self.entries@.len() && bytes_of(&self.entries@[i].0) == k2 by {
            if k2 != k {
                let j = choose|j: int|
                    0 <= j < old(self).entries@.len() && bytes_of(&old(self).entries@[j].0) == k2;
                assert(bytes_of(&self.entries@[j].0) == k2);
            }
        }
    }
}

} // verus!
