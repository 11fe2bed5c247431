//! The species table: the in-memory form of the thermodynamic library.
//!
//! Built once by the reader (or by hand for synthetic cases), read-only
//! afterwards.  The list keeps the library's record order; the index
//! maps each record key — the 16-byte name token plus one phase byte —
//! to its position, so no two records may share a name and phase.

use vstd::prelude::*;
use crate::fx::Fx;
use crate::index::{NameIndex, index_map};
use crate::thermo::{Phase, Species, species_wf};

verus! {

/// Largest number of temperature segments one record may carry.
pub const MAX_SEGMENTS: usize = 8;

/// Phase byte of the record key: gas and condensed entries of the same
/// name are distinct records.
pub open spec fn phase_byte(p: Phase) -> u8 {
    match p {
        Phase::Gas => 0u8,
        Phase::Condensed => 1u8,
    }
}

/// The record key of a species: its name token plus the phase byte.
pub open spec fn rec_key(name: Seq<u8>, p: Phase) -> Seq<u8> {
    name.push(phase_byte(p))
}

/// Builds the record key of a species.
pub fn make_key(name: &Vec<u8>, p: Phase) -> (k: Vec<u8>)
    ensures
        k@ == rec_key(name@, p),
{
    let mut k: Vec<u8> = Vec::new();
    let n = name.len();
    let mut i: usize = 0;
    while i < n
        invariant
            n == name@.len(),
            0 <= i <= n,
            k@ == name@.take(i as int),
        decreases n - i,
    {
        k.push(name[i]);
        proof {
            assert(k@ =~= name@.take(i + 1));
        }
        i += 1;
    }
    proof {
        assert(k@ =~= name@);
    }
    let b: u8 = match p {
        Phase::Gas => 0u8,
        Phase::Condensed => 1u8,
    };
    k.push(b);
    k
}

/// The thermodynamic library in memory.
pub struct SpeciesTable {
    /// Global temperature breakpoints from the header (4 values).
    pub tgl: Vec<Fx>,
    /// Date stamp of the library (10 bytes).
    pub date: Vec<u8>,
    /// The species, in record order.
    pub list: Vec<Species>,
    /// Record key to list position.
    pub index: NameIndex,
}

/// Well-formed table: header fields of the fixed widths, every species
/// well formed with a bounded segment count, and the index in exact
/// correspondence with the list.
pub open spec fn table_wf(t: SpeciesTable) -> bool {
    &&& t.tgl@.len() == 4
    &&& t.date@.len() == 10
    &&& t.list@.len() <= 0xffffff
    &&& forall|j: int|
        0 <= j < t.list@.len() ==> species_wf(#[trigger] t.list@[j])
            && t.list@[j].segments@.len() <= MAX_SEGMENTS
    &&& forall|j: int|
        0 <= j < t.list@.len() ==> index_map(t.index).dom().contains(
            rec_key((#[trigger] t.list@[j]).name@, t.list@[j].phase),
        ) && index_map(t.index)[rec_key(t.list@[j].name@, t.list@[j].phase)] == j
    &&& forall|k: Seq<u8>|
        index_map(t.index).dom().contains(k) ==> 0 <= #[trigger] index_map(t.index)[k]
            < t.list@.len() && rec_key(
            t.list@[index_map(t.index)[k]].name@,
            t.list@[index_map(t.index)[k]].phase,
        ) == k
}

impl SpeciesTable {
    /// An empty table carrying the header data.
    pub fn new(tgl: Vec<Fx>, date: Vec<u8>) -> (r: SpeciesTable)
        requires
            tgl@.len() == 4,
            date@.len() == 10,
        ensures
            table_wf(r),
            r.tgl@ == tgl@,
            r.date@ == date@,
            r.list@.len() == 0,
    {
        SpeciesTable { tgl, date, list: Vec::new(), index: NameIndex::new() }
    }

    /// Appends a species, indexing it by name and phase.  Fails (and
    /// leaves the table unchanged) when a record with the same key is
    /// already present.
    pub fn add_species(&mut self, sp: Species) -> (r: bool)
        requires
            table_wf(*old(self)),
            species_wf(sp),
            sp.segments@.len() <= MAX_SEGMENTS,
            old(self).list@.len() < 0xffffff,
        ensures
            table_wf(*final(self)),
            r == !index_map(old(self).index).dom().contains(rec_key(sp.name@, sp.phase)),
            r ==> final(self).list@ == old(self).list@.push(sp),
            !r ==> final(self).list@ == old(self).list@,
            final(self).tgl@ == old(self).tgl@,
            final(self).date@ == old(self).date@,
    {
        let key = make_key(&sp.name, sp.phase);
        if self.index.contains(&key) {
            return false;
        }
        let pos = self.list.len();
        self.list.push(sp);
        self.index.insert(key, pos);
        proof {
            let t = *self;
            let o = *old(self);
            let k_new = rec_key(sp.name@, sp.phase);
            assert forall|j: int|
                0 <= j < t.list@.len() implies index_map(t.index).dom().contains(
                rec_key((#[trigger] t.list@[j]).name@, t.list@[j].phase),
            ) && index_map(t.index)[rec_key(t.list@[j].name@, t.list@[j].phase)] == j by {
                if j < o.list@.len() {
                    assert(t.list@[j] == o.list@[j]);
                    assert(rec_key(o.list@[j].name@, o.list@[j].phase) != k_new);
                }
            }
        }
        true
    }

    /// The species stored under a name token and phase, if any.
    pub fn get(&self, name: &Vec<u8>, p: Phase) -> (r: Option<&Species>)
        requires
            table_wf(*self),
        ensures
            match r {
                Some(sp) => index_map(self.index).dom().contains(rec_key(name@, p)) && *sp
                    == self.list@[index_map(self.index)[rec_key(name@, p)]],
                None => !index_map(self.index).dom().contains(rec_key(name@, p)),
            },
    {
        let key = make_key(name, p);
        match self.index.get(&key) {
            Some(pos) => Some(&self.list[pos]),
            None => None,
        }
    }

    /// Number of species in the table.
    pub fn len(&self) -> (r: usize)
        ensures
            r == self.list@.len(),
    {
        self.list.len()
    }
}

} // verus!
