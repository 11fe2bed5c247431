//! Name index of the species table.
//!
//! A hashbrown `HashMap` from the record key (the 16-byte name token
//! plus one phase byte) to the position of the species in the table's
//! list.  The map type cannot be declared to the verifier (its
//! allocator type parameter's trait is not exported), so it is held in
//! an opaque struct; what the map holds is named by [`index_map`] and
//! stated by the trusted wrapper methods below.

use vstd::prelude::*;

verus! {

/// Map from record key to list position.
#[verifier::external_body]
pub struct NameIndex {
    map: hashbrown::HashMap<Vec<u8>, usize>,
}

/// The contents of a `NameIndex`: which key stands at which position.
pub uninterp spec fn index_map(m: NameIndex) -> Map<Seq<u8>, int>;

impl NameIndex {
    /// Relies on hashbrown's `HashMap::new`: the new map is empty.
    #[verifier::external_body]
    pub fn new() -> (r: NameIndex)
        ensures
            forall|k: Seq<u8>| !index_map(r).dom().contains(k),
    {
        NameIndex { map: hashbrown::HashMap::new() }
    }

    /// Relies on hashbrown's `HashMap::insert`: the key now maps to the
    /// given position; every other key is untouched.
    #[verifier::external_body]
    pub fn insert(&mut self, key: Vec<u8>, pos: usize)
        ensures
            index_map(*final(self)) == index_map(*old(self)).insert(key@, pos as int),
    {
        self.map.insert(key, pos);
    }

    /// Relies on hashbrown's `HashMap::get`: the position stored under
    /// the key, when the key is present.
    #[verifier::external_body]
    pub fn get(&self, key: &Vec<u8>) -> (r: Option<usize>)
        ensures
            match r {
                Some(p) => index_map(*self).dom().contains(key@) && index_map(*self)[key@]
                    == p as int,
                None => !index_map(*self).dom().contains(key@),
            },
    {
        self.map.get(key).copied()
    }

    /// Relies on hashbrown's `HashMap::contains_key`.
    #[verifier::external_body]
    pub fn contains(&self, key: &Vec<u8>) -> (r: bool)
        ensures
            r == index_map(*self).dom().contains(key@),
    {
        self.map.contains_key(key)
    }
}

} // verus!
