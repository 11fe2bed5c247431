//! Binary codec of the thermodynamic library.
//!
//! The library is a sequence of length-prefixed little-endian records.
//! The first record is the header: four global temperature breakpoints,
//! three counts (gas species, condensed-phase temperature intervals,
//! total species) and a 10-byte date stamp.  Each following record is
//! one species: a phase tag (gas, condensed with one interval,
//! condensed with several), the 16-byte name token, the interval count,
//! the molecular weight, and one 88-byte coefficient block per
//! interval.
//!
//! Encoding and decoding are each pinned to an exact specification, and
//! decoding an encoded table is proved to reproduce the table.

use vstd::prelude::*;
use crate::bytes::{
    le_bytes, de_bytes, from_unsigned64, to_unsigned64, read_u32, read_i64, push_u32, push_i64,
    lemma_le_bytes_len,
};
use crate::fx::Fx;
use crate::thermo::{Phase, Segment, Species, seg_wf, species_wf};
use crate::table::{SpeciesTable, table_wf, rec_key, phase_byte, MAX_SEGMENTS};
use crate::index::index_map;

verus! {

/// Why a library image was rejected.  No partial table is ever
/// returned.  Each variant carries the index of the offending record
/// for diagnosis: 0 is the header, `i` the i-th species record, and
/// one past the last record marks unexpected trailing data.
#[derive(Clone, Copy, PartialEq, Eq, Structural, Debug)]
pub enum DecodeError {
    /// A record's declared length or contents do not fit the format.
    MalformedRecord(u32),
    /// The input ends inside a record.
    UnexpectedEof(u32),
    /// A species record carries a phase tag other than 0, 1 or 2.
    UnknownPhaseTag(u32),
    /// This record repeats an earlier record's name and phase.
    DuplicateSpecies(u32),
}

/// Spec-level image of one species record.
pub struct SpModel {
    pub name: Seq<u8>,
    pub phase: Phase,
    pub mw: Fx,
    pub segs: Seq<Segment>,
}

/// Spec-level image of a whole table.
pub struct TableModel {
    pub tgl: Seq<Fx>,
    pub date: Seq<u8>,
    pub list: Seq<SpModel>,
}

pub open spec fn species_model(sp: Species) -> SpModel {
    SpModel { name: sp.name@, phase: sp.phase, mw: sp.mw, segs: sp.segments@ }
}

pub open spec fn table_model(t: SpeciesTable) -> TableModel {
    TableModel {
        tgl: t.tgl@,
        date: t.date@,
        list: t.list@.map_values(|sp: Species| species_model(sp)),
    }
}

pub open spec fn sp_model_wf(m: SpModel) -> bool {
    &&& m.name.len() == 16
    &&& m.mw.v > 0
    &&& 1 <= m.segs.len() <= MAX_SEGMENTS
    &&& forall|i: int| 0 <= i < m.segs.len() ==> seg_wf(#[trigger] m.segs[i])
    &&& forall|i: int|
        0 <= i < m.segs.len() - 1 ==> (#[trigger] m.segs[i + 1]).t_low == m.segs[i].t_high
}

/// Record key of a model: name token plus phase byte.
pub open spec fn mkey(m: SpModel) -> Seq<u8> {
    m.name.push(phase_byte(m.phase))
}

pub open spec fn table_model_wf(m: TableModel) -> bool {
    &&& m.tgl.len() == 4
    &&& m.date.len() == 10
    &&& m.list.len() <= 0xffffff
    &&& forall|j: int| 0 <= j < m.list.len() ==> sp_model_wf(#[trigger] m.list[j])
    &&& forall|j1: int, j2: int|
        0 <= j1 < j2 < m.list.len() ==> mkey(m.list[j1]) != mkey(m.list[j2])
}

pub proof fn lemma_species_model_wf(sp: Species)
    ensures
        sp_model_wf(species_model(sp)) <==> (species_wf(sp) && sp.segments@.len()
            <= MAX_SEGMENTS),
{
    let m = species_model(sp);
    if species_wf(sp) {
        assert forall|i: int| 0 <= i < m.segs.len() implies seg_wf(#[trigger] m.segs[i]) by {
            assert(seg_wf(sp.segments@[i]));
        }
        assert forall|i: int|
            0 <= i < m.segs.len() - 1 implies (#[trigger] m.segs[i + 1]).t_low
            == m.segs[i].t_high by {
            assert(sp.segments@[i + 1].t_low == sp.segments@[i].t_high);
        }
    }
    if sp_model_wf(m) {
        assert forall|i: int|
            0 <= i < sp.segments@.len() implies seg_wf(#[trigger] sp.segments@[i]) by {
            assert(seg_wf(m.segs[i]));
        }
        assert forall|i: int|
            0 <= i < sp.segments@.len() - 1 implies (#[trigger] sp.segments@[i + 1]).t_low
            == sp.segments@[i].t_high by {
            assert(m.segs[i + 1].t_low == m.segs[i].t_high);
        }
    }
}

// ---------------------------------------------------------------------
// Encoding specification
// ---------------------------------------------------------------------

/// Byte image of one fixed-point field: 8 bytes, two's complement,
/// little-endian.
pub open spec fn enc_fx(x: Fx) -> Seq<u8> {
    le_bytes(to_unsigned64(x.v as int), 8)
}

pub open spec fn enc_u32(v: int) -> Seq<u8> {
    le_bytes(v, 4)
}

/// Byte image of one coefficient block: 11 fields, 88 bytes.
pub open spec fn enc_segment(seg: Segment) -> Seq<u8> {
    enc_fx(seg.t_low) + enc_fx(seg.t_high) + enc_fx(seg.a1) + enc_fx(seg.a2) + enc_fx(seg.a3)
        + enc_fx(seg.a4) + enc_fx(seg.a5) + enc_fx(seg.a6) + enc_fx(seg.a7) + enc_fx(seg.b1)
        + enc_fx(seg.b2)
}

pub open spec fn enc_segments(segs: Seq<Segment>) -> Seq<u8>
    decreases segs.len(),
{
    if segs.len() == 0 {
        Seq::empty()
    } else {
        enc_segment(segs[0]) + enc_segments(segs.drop_first())
    }
}

/// Phase tag stored in a record: 0 gas, 1 condensed with one interval,
/// 2 condensed with several.
pub open spec fn spec_tag(m: SpModel) -> int {
    match m.phase {
        Phase::Gas => 0,
        Phase::Condensed => if m.segs.len() == 1 {
            1
        } else {
            2
        },
    }
}

/// Byte image of one species record, length marker included.
pub open spec fn enc_species(m: SpModel) -> Seq<u8> {
    enc_u32(32 + 88 * (m.segs.len() as int)) + enc_u32(spec_tag(m)) + m.name + enc_u32(m.segs.len() as int)
        + enc_fx(m.mw) + enc_segments(m.segs)
}

pub open spec fn enc_list(l: Seq<SpModel>) -> Seq<u8>
    decreases l.len(),
{
    if l.len() == 0 {
        Seq::empty()
    } else {
        enc_species(l[0]) + enc_list(l.drop_first())
    }
}

/// Number of gas species in a list.
pub open spec fn gas_count(l: Seq<SpModel>) -> int
    decreases l.len(),
{
    if l.len() == 0 {
        0
    } else {
        (if l[0].phase == Phase::Gas {
            1int
        } else {
            0int
        }) + gas_count(l.drop_first())
    }
}

/// Total number of condensed-phase temperature intervals in a list.
pub open spec fn cond_intervals(l: Seq<SpModel>) -> int
    decreases l.len(),
{
    if l.len() == 0 {
        0
    } else {
        (if l[0].phase == Phase::Condensed {
            l[0].segs.len() as int
        } else {
            0int
        }) + cond_intervals(l.drop_first())
    }
}

/// Byte image of the header record, length marker included.
pub open spec fn enc_header(m: TableModel) -> Seq<u8> {
    enc_u32(54) + enc_fx(m.tgl[0]) + enc_fx(m.tgl[1]) + enc_fx(m.tgl[2]) + enc_fx(m.tgl[3])
        + enc_u32(gas_count(m.list)) + enc_u32(cond_intervals(m.list)) + enc_u32(
        m.list.len() as int,
    ) + m.date
}

/// Byte image of a whole table.
pub open spec fn spec_encode(m: TableModel) -> Seq<u8> {
    enc_header(m) + enc_list(m.list)
}

// ---------------------------------------------------------------------
// Snoc lemmas for the loop proofs
// ---------------------------------------------------------------------

pub proof fn lemma_enc_segments_snoc(segs: Seq<Segment>, seg: Segment)
    ensures
        enc_segments(segs.push(seg)) == enc_segments(segs) + enc_segment(seg),
    decreases segs.len(),
{
    if segs.len() == 0 {
        assert(segs.push(seg)[0] == seg);
        assert(segs.push(seg).drop_first() =~= Seq::<Segment>::empty());
        assert(enc_segments(Seq::<Segment>::empty()) =~= Seq::<u8>::empty());
        assert(enc_segments(segs.push(seg)) =~= enc_segments(segs) + enc_segment(seg));
    } else {
        assert(segs.push(seg).drop_first() =~= segs.drop_first().push(seg));
        assert(segs.push(seg)[0] == segs[0]);
        lemma_enc_segments_snoc(segs.drop_first(), seg);
        assert(enc_segment(segs[0]) + (enc_segments(segs.drop_first()) + enc_segment(seg))
            =~= (enc_segment(segs[0]) + enc_segments(segs.drop_first())) + enc_segment(seg));
    }
}

#[verifier::spinoff_prover]
#[verifier::rlimit(100)]
pub proof fn lemma_enc_list_snoc(l: Seq<SpModel>, m: SpModel)
    ensures
        enc_list(l.push(m)) == enc_list(l) + enc_species(m),
    decreases l.len(),
{
    if l.len() == 0 {
        assert(l.push(m)[0] == m);
        assert(l.push(m).drop_first() =~= Seq::<SpModel>::empty());
        assert(enc_list(Seq::<SpModel>::empty()) =~= Seq::<u8>::empty());
        assert(enc_list(l.push(m)) =~= enc_list(l) + enc_species(m));
    } else {
        assert(l.push(m).drop_first() =~= l.drop_first().push(m));
        assert(l.push(m)[0] == l[0]);
        lemma_enc_list_snoc(l.drop_first(), m);
        assert(enc_species(l[0]) + (enc_list(l.drop_first()) + enc_species(m))
            =~= (enc_species(l[0]) + enc_list(l.drop_first())) + enc_species(m));
    }
}

pub proof fn lemma_counts_snoc(l: Seq<SpModel>, m: SpModel)
    ensures
        gas_count(l.push(m)) == gas_count(l) + (if m.phase == Phase::Gas {
            1int
        } else {
            0int
        }),
        cond_intervals(l.push(m)) == cond_intervals(l) + (if m.phase == Phase::Condensed {
            m.segs.len() as int
        } else {
            0int
        }),
    decreases l.len(),
{
    if l.len() == 0 {
        assert(l.push(m)[0] == m);
        assert(l.push(m).drop_first() =~= Seq::<SpModel>::empty());
        assert(gas_count(Seq::<SpModel>::empty()) == 0);
        assert(cond_intervals(Seq::<SpModel>::empty()) == 0);
    } else {
        assert(l.push(m).drop_first() =~= l.drop_first().push(m));
        assert(l.push(m)[0] == l[0]);
        lemma_counts_snoc(l.drop_first(), m);
    }
}

/// Counts are bounded by the list's shape.
pub proof fn lemma_counts_bound(l: Seq<SpModel>)
    requires
        forall|j: int| 0 <= j < l.len() ==> (#[trigger] l[j]).segs.len() <= MAX_SEGMENTS,
    ensures
        0 <= gas_count(l) <= l.len(),
        0 <= cond_intervals(l) <= l.len() * (MAX_SEGMENTS as int),
    decreases l.len(),
{
    if l.len() == 0 {
    } else {
        assert(forall|j: int|
            1 <= j < l.len() ==> #[trigger] l[j] == l.drop_first()[j - 1]);
        lemma_counts_bound(l.drop_first());
        assert((l.len() - 1) * (MAX_SEGMENTS as int) + (MAX_SEGMENTS as int) == l.len() * (
        MAX_SEGMENTS as int)) by (nonlinear_arith);
    }
}

// ---------------------------------------------------------------------
// Decoding specification
// ---------------------------------------------------------------------

/// The fixed-point field at byte offset `off` of `s`.
pub open spec fn dfx(s: Seq<u8>, off: int) -> Fx {
    Fx { v: from_unsigned64(de_bytes(s.subrange(off, off + 8))) as i64 }
}

/// The 4-byte count field at byte offset `off` of `s`.
pub open spec fn du32(s: Seq<u8>, off: int) -> int {
    de_bytes(s.subrange(off, off + 4))
}

/// Decodes one 88-byte coefficient block from the front of `s`.  (The
/// record's length check precedes the block reads, so the end-of-input
/// case is unreachable from `dec_species` and carries no index.)
pub open spec fn dec_segment(s: Seq<u8>) -> Result<(Segment, Seq<u8>), DecodeError> {
    if s.len() < 88 {
        Err(DecodeError::UnexpectedEof(0))
    } else {
        let seg = Segment {
            t_low: dfx(s, 0),
            t_high: dfx(s, 8),
            a1: dfx(s, 16),
            a2: dfx(s, 24),
            a3: dfx(s, 32),
            a4: dfx(s, 40),
            a5: dfx(s, 48),
            a6: dfx(s, 56),
            a7: dfx(s, 64),
            b1: dfx(s, 72),
            b2: dfx(s, 80),
        };
        Ok((seg, s.skip(88)))
    }
}

/// Decodes `n` coefficient blocks from the front of `s`.
pub open spec fn dec_segments(s: Seq<u8>, n: nat) -> Result<(Seq<Segment>, Seq<u8>), DecodeError>
    decreases n,
{
    if n == 0 {
        Ok((Seq::empty(), s))
    } else {
        match dec_segment(s) {
            Err(e) => Err(e),
            Ok((seg, r1)) => match dec_segments(r1, (n - 1) as nat) {
                Err(e) => Err(e),
                Ok((rest, r2)) => Ok((seq![seg] + rest, r2)),
            },
        }
    }
}

/// Decodes the species record of index `idx` from the front of `s`,
/// validating the record exactly: the declared length must match the
/// consumed field widths, the phase tag must be known and agree with
/// the interval count, and the decoded species must be well formed.
/// Every error names `idx`.
pub open spec fn dec_species(s: Seq<u8>, idx: u32) -> Result<(SpModel, Seq<u8>), DecodeError> {
    if s.len() < 4 {
        Err(DecodeError::UnexpectedEof(idx))
    } else {
        let reclen = du32(s, 0);
        if reclen < 120 || (reclen - 32) % 88 != 0 {
            Err(DecodeError::MalformedRecord(idx))
        } else {
            let nint = (reclen - 32) / 88;
            if nint > MAX_SEGMENTS as int {
                Err(DecodeError::MalformedRecord(idx))
            } else if s.len() < 4 + reclen {
                Err(DecodeError::UnexpectedEof(idx))
            } else {
                let tag = du32(s, 4);
                if tag > 2 {
                    Err(DecodeError::UnknownPhaseTag(idx))
                } else {
                    let nint2 = du32(s, 24);
                    if nint2 != nint {
                        Err(DecodeError::MalformedRecord(idx))
                    } else {
                        match dec_segments(s.skip(36), nint as nat) {
                            Err(e) => Err(e),
                            Ok((segs, _rest)) => {
                                let m = SpModel {
                                    name: s.subrange(8, 24),
                                    phase: if tag == 0 {
                                        Phase::Gas
                                    } else {
                                        Phase::Condensed
                                    },
                                    mw: dfx(s, 28),
                                    segs,
                                };
                                if (tag == 1 && nint != 1) || (tag == 2 && nint < 2) {
                                    Err(DecodeError::MalformedRecord(idx))
                                } else if !sp_model_wf(m) {
                                    Err(DecodeError::MalformedRecord(idx))
                                } else {
                                    Ok((m, s.skip(4 + reclen)))
                                }
                            },
                        }
                    }
                }
            }
        }
    }
}

/// A record whose key repeats one already decoded.
pub open spec fn dup_in(prior: Seq<SpModel>, m: SpModel) -> bool {
    exists|j: int| 0 <= j < prior.len() && mkey(#[trigger] prior[j]) == mkey(m)
}

/// Decodes `n` species records from the front of `s`; `prior` carries
/// the records already decoded, against which duplicates are refused.
pub open spec fn dec_list(s: Seq<u8>, n: nat, prior: Seq<SpModel>) -> Result<
    (Seq<SpModel>, Seq<u8>),
    DecodeError,
>
    decreases n,
{
    if n == 0 {
        Ok((Seq::empty(), s))
    } else {
        match dec_species(s, (prior.len() + 1) as u32) {
            Err(e) => Err(e),
            Ok((m, r1)) => if dup_in(prior, m) {
                Err(DecodeError::DuplicateSpecies((prior.len() + 1) as u32))
            } else {
                match dec_list(r1, (n - 1) as nat, prior.push(m)) {
                    Err(e) => Err(e),
                    Ok((rest, r2)) => Ok((seq![m] + rest, r2)),
                }
            },
        }
    }
}

/// Decodes a whole library image: header, then exactly the declared
/// number of species records, with nothing left over and the header
/// counts in agreement.
pub open spec fn spec_decode(s: Seq<u8>) -> Result<TableModel, DecodeError> {
    if s.len() < 4 {
        Err(DecodeError::UnexpectedEof(0))
    } else if du32(s, 0) != 54 {
        Err(DecodeError::MalformedRecord(0))
    } else if s.len() < 58 {
        Err(DecodeError::UnexpectedEof(0))
    } else {
        let ngl = du32(s, 36);
        let nci = du32(s, 40);
        let nall = du32(s, 44);
        if nall > 0xffffff {
            Err(DecodeError::MalformedRecord(0))
        } else {
            match dec_list(s.skip(58), nall as nat, Seq::empty()) {
                Err(e) => Err(e),
                Ok((list, rest)) => if rest.len() != 0 {
                    Err(DecodeError::MalformedRecord((nall + 1) as u32))
                } else if gas_count(list) != ngl || cond_intervals(list) != nci {
                    Err(DecodeError::MalformedRecord(0))
                } else {
                    Ok(
                        TableModel {
                            tgl: seq![dfx(s, 4), dfx(s, 12), dfx(s, 20), dfx(s, 28)],
                            date: s.subrange(48, 58),
                            list,
                        },
                    )
                },
            }
        }
    }
}

// ---------------------------------------------------------------------
// Executable decoder
// ---------------------------------------------------------------------

/// Reads the fixed-point field at `off`.
fn read_fx_at(b: &Vec<u8>, off: usize) -> (r: Fx)
    requires
        off + 8 <= b@.len(),
    ensures
        r == dfx(b@, off as int),
{
    proof {
        crate::bytes::lemma_de_bytes_bound(b@.subrange(off as int, off as int + 8));
        crate::bytes::lemma_pow256_values();
    }
    let v = read_i64(b, off);
    Fx { v }
}

/// Copies `b[lo..hi]` out as a fresh vector.
fn copy_range(b: &Vec<u8>, lo: usize, hi: usize) -> (r: Vec<u8>)
    requires
        lo <= hi <= b@.len(),
    ensures
        r@ == b@.subrange(lo as int, hi as int),
{
    let mut r: Vec<u8> = Vec::new();
    let mut i: usize = lo;
    while i < hi
        invariant
            lo <= i <= hi <= b@.len(),
            r@ == b@.subrange(lo as int, i as int),
        decreases hi - i,
    {
        r.push(b[i]);
        proof {
            assert(r@ =~= b@.subrange(lo as int, i + 1));
        }
        i += 1;
    }
    r
}

/// Decodes the coefficient block at `off`.
fn decode_segment_at(b: &Vec<u8>, off: usize) -> (r: Segment)
    requires
        off + 88 <= b@.len(),
    ensures
        dec_segment(b@.skip(off as int)) == Ok::<(Segment, Seq<u8>), DecodeError>(
            (r, b@.skip(off as int + 88)),
        ),
{
    let n = b.len();
    proof {
        assert(off + 88 <= n);
    }
    let seg = Segment {
        t_low: read_fx_at(b, off),
        t_high: read_fx_at(b, off + 8),
        a1: read_fx_at(b, off + 16),
        a2: read_fx_at(b, off + 24),
        a3: read_fx_at(b, off + 32),
        a4: read_fx_at(b, off + 40),
        a5: read_fx_at(b, off + 48),
        a6: read_fx_at(b, off + 56),
        a7: read_fx_at(b, off + 64),
        b1: read_fx_at(b, off + 72),
        b2: read_fx_at(b, off + 80),
    };
    proof {
        let s = b@.skip(off as int);
        assert forall|k: int| 0 <= k <= 80 implies #[trigger] s.subrange(k, k + 8)
            =~= b@.subrange(off + k, off + k + 8) by {}
        assert(s.skip(88) =~= b@.skip(off as int + 88));
    }
    seg
}

/// Checks that the segment list is well formed: each range nonempty at
/// positive temperature, ranges contiguous.
fn check_segments(segs: &Vec<Segment>) -> (r: bool)
    ensures
        r == ((forall|i: int| 0 <= i < segs@.len() ==> seg_wf(#[trigger] segs@[i])) && (forall|
            i: int,
        |
            0 <= i < segs@.len() - 1 ==> (#[trigger] segs@[i + 1]).t_low == segs@[i].t_high)),
{
    let n = segs.len();
    let mut i: usize = 0;
    while i < n
        invariant
            n == segs@.len(),
            0 <= i <= n,
            forall|k: int| 0 <= k < i ==> seg_wf(#[trigger] segs@[k]),
            forall|k: int| 0 <= k < i - 1 ==> (#[trigger] segs@[k + 1]).t_low == segs@[k].t_high,
        decreases n - i,
    {
        let sg = &segs[i];
        if !(0 < sg.t_low.v && sg.t_low.v <= sg.t_high.v) {
            proof {
                assert(!seg_wf(segs@[i as int]));
            }
            return false;
        }
        if i > 0 {
            if !(segs[i].t_low.v == segs[i - 1].t_high.v) {
                proof {
                    assert(segs@[i - 1 + 1].t_low != segs@[i - 1].t_high);
                }
                return false;
            }
            proof {
                assert(segs@[i - 1 + 1] == segs@[i as int]);
            }
        }
        i += 1;
    }
    true
}

/// Decodes the species record of index `idx` at `off`; on success also
/// returns the offset just past the record.
#[verifier::spinoff_prover]
#[verifier::rlimit(100)]
fn decode_species_at(b: &Vec<u8>, off: usize, idx: u32) -> (r: Result<
    (Species, usize),
    DecodeError,
>)
    requires
        off <= b@.len(),
    ensures
        ({
            let s = b@.skip(off as int);
            match r {
                Ok(p) => dec_species(s, idx) == Ok::<(SpModel, Seq<u8>), DecodeError>(
                    (species_model(p.0), b@.skip(p.1 as int)),
                ) && off < p.1 <= b@.len() && species_wf(p.0) && p.0.segments@.len()
                    <= MAX_SEGMENTS,
                Err(e) => dec_species(s, idx) == Err::<(SpModel, Seq<u8>), DecodeError>(e),
            }
        }),
{
    let ghost s = b@.skip(off as int);
    let n = b.len();
    if n - off < 4 {
        return Err(DecodeError::UnexpectedEof(idx));
    }
    let reclen32 = read_u32(b, off);
    proof {
        assert(s.subrange(0, 4) =~= b@.subrange(off as int, off as int + 4));
    }
    let reclen = reclen32 as usize;
    if reclen < 120 || (reclen - 32) % 88 != 0 {
        return Err(DecodeError::MalformedRecord(idx));
    }
    let nint = (reclen - 32) / 88;
    if nint > MAX_SEGMENTS {
        return Err(DecodeError::MalformedRecord(idx));
    }
    if n - off - 4 < reclen {
        return Err(DecodeError::UnexpectedEof(idx));
    }
    let tag = read_u32(b, off + 4);
    proof {
        assert(s.subrange(4, 8) =~= b@.subrange(off + 4, off + 8));
    }
    if tag > 2 {
        return Err(DecodeError::UnknownPhaseTag(idx));
    }
    let nint2 = read_u32(b, off + 24);
    proof {
        assert(s.subrange(24, 28) =~= b@.subrange(off + 24, off + 28));
    }
    if nint2 as usize != nint {
        return Err(DecodeError::MalformedRecord(idx));
    }
    let name = copy_range(b, off + 8, off + 24);
    proof {
        assert(s.subrange(8, 24) =~= b@.subrange(off + 8, off + 24));
    }
    let mw = read_fx_at(b, off + 28);
    proof {
        assert(s.subrange(28, 36) =~= b@.subrange(off + 28, off + 36));
    }
    let mut segs: Vec<Segment> = Vec::new();
    proof {
        assert(s.skip(36) =~= b@.skip(off + 36));
        let t0 = dec_segments(b@.skip(off + 36), nint as nat);
        if t0 is Ok {
            assert(Seq::<Segment>::empty() + t0->Ok_0.0 =~= t0->Ok_0.0);
        }
    }
    let mut i: usize = 0;
    while i < nint
        invariant
            n == b@.len(),
            s == b@.skip(off as int),
            off + 4 + reclen <= n,
            reclen == 32 + 88 * nint,
            nint <= MAX_SEGMENTS,
            0 <= i <= nint,
            segs@.len() == i,
            dec_segments(s.skip(36), nint as nat) == (match dec_segments(
                b@.skip(off + 36 + 88 * i),
                (nint - i) as nat,
            ) {
                Ok(p) => Ok::<(Seq<Segment>, Seq<u8>), DecodeError>((segs@ + p.0, p.1)),
                Err(e) => Err(e),
            }),
        decreases nint - i,
    {
        proof {
            assert(88 * (i + 1) <= 88 * nint);
        }
        let seg = decode_segment_at(b, off + 36 + 88 * i);
        let ghost sg0 = segs@;
        segs.push(seg);
        proof {
            let cur = b@.skip(off + 36 + 88 * i);
            let nxt = b@.skip(off + 36 + 88 * (i + 1));
            assert(cur.skip(88) =~= nxt);
            assert(dec_segment(cur) == Ok::<(Segment, Seq<u8>), DecodeError>((seg, nxt)));
            let tail = dec_segments(nxt, (nint - i - 1) as nat);
            assert(dec_segments(cur, (nint - i) as nat) == (match tail {
                Ok(q) => Ok::<(Seq<Segment>, Seq<u8>), DecodeError>((seq![seg] + q.0, q.1)),
                Err(e) => Err(e),
            }));
            if tail is Ok {
                let p = tail->Ok_0;
                assert(sg0 + (seq![seg] + p.0) =~= segs@ + p.0);
            }
        }
        i += 1;
    }
    proof {
        assert(dec_segments(b@.skip(off + 36 + 88 * nint), 0) == Ok::<
            (Seq<Segment>, Seq<u8>),
            DecodeError,
        >((Seq::empty(), b@.skip(off + 36 + 88 * nint))));
        assert(segs@ + Seq::<Segment>::empty() =~= segs@);
        assert(s.skip(36) =~= b@.skip(off + 36));
    }
    if (tag == 1 && nint != 1) || (tag == 2 && nint < 2) {
        return Err(DecodeError::MalformedRecord(idx));
    }
    let phase = if tag == 0 {
        Phase::Gas
    } else {
        Phase::Condensed
    };
    let segs_ok = check_segments(&segs);
    if !(segs_ok && mw.v > 0) {
        return Err(DecodeError::MalformedRecord(idx));
    }
    let sp = Species { name, phase, mw, segments: segs };
    let off2 = off + 4 + reclen;
    proof {
        assert(s.skip(4 + reclen as int) =~= b@.skip(off2 as int));
        assert(sp_model_wf(species_model(sp)));
        lemma_species_model_wf(sp);
    }
    Ok((sp, off2))
}

/// Decodes a whole binary library.  On success the returned table is
/// well formed and is exactly what `spec_decode` states; on failure the
/// error is exactly the one `spec_decode` states, and no table is
/// returned.
#[verifier::spinoff_prover]
#[verifier::rlimit(100)]
pub fn load(bytes: &Vec<u8>) -> (r: Result<SpeciesTable, DecodeError>)
    ensures
        match r {
            Ok(t) => table_wf(t) && spec_decode(bytes@) == Ok::<TableModel, DecodeError>(
                table_model(t),
            ),
            Err(e) => spec_decode(bytes@) == Err::<TableModel, DecodeError>(e),
        },
{
    let n = bytes.len();
    if n < 4 {
        return Err(DecodeError::UnexpectedEof(0));
    }
    let h = read_u32(bytes, 0);
    proof {
        assert(bytes@.subrange(0, 4) =~= bytes@.subrange(0int, 0int + 4));
    }
    if h != 54 {
        return Err(DecodeError::MalformedRecord(0));
    }
    if n < 58 {
        return Err(DecodeError::UnexpectedEof(0));
    }
    let mut tgl: Vec<Fx> = Vec::new();
    tgl.push(read_fx_at(bytes, 4));
    tgl.push(read_fx_at(bytes, 12));
    tgl.push(read_fx_at(bytes, 20));
    tgl.push(read_fx_at(bytes, 28));
    let ngl = read_u32(bytes, 36);
    let nci = read_u32(bytes, 40);
    let nall = read_u32(bytes, 44);
    if nall > 0xffffff {
        return Err(DecodeError::MalformedRecord(0));
    }
    let date = copy_range(bytes, 48, 58);
    proof {
        assert(tgl@ =~= seq![
            dfx(bytes@, 4), dfx(bytes@, 12), dfx(bytes@, 20), dfx(bytes@, 28),
        ]);
    }
    let mut table = SpeciesTable::new(tgl, date);
    proof {
        assert(table_model(table).list =~= Seq::<SpModel>::empty());
        let t0 = dec_list(bytes@.skip(58), nall as nat, Seq::empty());
        if t0 is Ok {
            assert(Seq::<SpModel>::empty() + t0->Ok_0.0 =~= t0->Ok_0.0);
        }
    }
    let mut off: usize = 58;
    let mut k: u32 = 0;
    let mut g: u32 = 0;
    let mut c: u32 = 0;
    while k < nall
        invariant
            n == bytes@.len(),
            58 <= off <= n,
            table_wf(table),
            table.tgl@ == seq![dfx(bytes@, 4), dfx(bytes@, 12), dfx(bytes@, 20), dfx(bytes@, 28)],
            table.date@ == bytes@.subrange(48, 58),
            k <= nall <= 0xffffff,
            du32(bytes@, 0) == 54,
            du32(bytes@, 44) == nall as int,
            table.list@.len() == k,
            g as int == gas_count(table_model(table).list),
            c as int == cond_intervals(table_model(table).list),
            g <= k,
            c as int <= (k as int) * (MAX_SEGMENTS as int),
            dec_list(bytes@.skip(58), nall as nat, Seq::empty()) == (match dec_list(
                bytes@.skip(off as int),
                (nall - k) as nat,
                table_model(table).list,
            ) {
                Ok(p) => Ok::<(Seq<SpModel>, Seq<u8>), DecodeError>(
                    (table_model(table).list + p.0, p.1),
                ),
                Err(e) => Err(e),
            }),
        decreases nall - k,
    {
        let ghost prior = table_model(table).list;
        match decode_species_at(bytes, off, k + 1) {
            Err(e) => {
                proof {
                    assert(dec_list(bytes@.skip(off as int), (nall - k) as nat, prior)
                        == Err::<(Seq<SpModel>, Seq<u8>), DecodeError>(e));
                }
                return Err(e);
            },
            Ok(p) => {
                let (sp, off2) = p;
                let ghost m = species_model(sp);
                let ghost pre = table;
                let nseg = sp.segments.len();
                let ph = sp.phase;
                let added = table.add_species(sp);
                proof {
                    assert(rec_key(m.name, m.phase) == mkey(m));
                }
                if !added {
                    proof {
                        let key = mkey(m);
                        assert(index_map(pre.index).dom().contains(key));
                        let jj = index_map(pre.index)[key];
                        assert(rec_key(pre.list@[jj].name@, pre.list@[jj].phase) == key);
                        assert(prior[jj] == species_model(pre.list@[jj]));
                        assert(mkey(prior[jj]) == key);
                        assert(dup_in(prior, m));
                        assert(dec_list(bytes@.skip(off as int), (nall - k) as nat, prior)
                            == Err::<(Seq<SpModel>, Seq<u8>), DecodeError>(
                            DecodeError::DuplicateSpecies((k + 1) as u32),
                        ));
                    }
                    return Err(DecodeError::DuplicateSpecies(k + 1));
                }
                proof {
                    // The new record is no duplicate.
                    assert(!dup_in(prior, m)) by {
                        if dup_in(prior, m) {
                            let j = choose|j: int|
                                0 <= j < prior.len() && mkey(#[trigger] prior[j]) == mkey(m);
                            assert(prior[j] == species_model(pre.list@[j]));
                            assert(index_map(pre.index).dom().contains(
                                rec_key(pre.list@[j].name@, pre.list@[j].phase)));
                            assert(false);
                        }
                    }
                    // Models of the grown table.
                    assert(table_model(table).list =~= prior.push(m));
                    lemma_counts_snoc(prior, m);
                    assert(((k + 1) as int) * (MAX_SEGMENTS as int) == (k as int) * (
                    MAX_SEGMENTS as int) + (MAX_SEGMENTS as int)) by (nonlinear_arith);
                    assert((nall as int) * (MAX_SEGMENTS as int) < 0x100000000) by (
                    nonlinear_arith)
                        requires
                            nall <= 0x1000000,
                    ;
                    assert(((k + 1) as int) * (MAX_SEGMENTS as int) <= (nall as int) * (
                    MAX_SEGMENTS as int)) by (nonlinear_arith)
                        requires
                            k + 1 <= nall,
                    ;
                    // Continuation step of the list decode.
                    let tail = dec_list(bytes@.skip(off2 as int), (nall - k - 1) as nat,
                        prior.push(m));
                    assert(dec_list(bytes@.skip(off as int), (nall - k) as nat, prior) == (
                    match tail {
                        Ok(q) => Ok::<(Seq<SpModel>, Seq<u8>), DecodeError>(
                            (seq![m] + q.0, q.1),
                        ),
                        Err(e) => Err(e),
                    }));
                    if tail is Ok {
                        let q = tail->Ok_0;
                        assert(prior + (seq![m] + q.0) =~= prior.push(m) + q.0);
                    }
                }
                match ph {
                    Phase::Gas => {
                        g = g + 1;
                    },
                    Phase::Condensed => {
                        c = c + (nseg as u32);
                    },
                }
                off = off2;
                k = k + 1;
            },
        }
    }
    proof {
        assert(table_model(table).list + Seq::<SpModel>::empty() =~= table_model(table).list);
    }
    if off != n {
        return Err(DecodeError::MalformedRecord(nall + 1));
    }
    if g != ngl || c != nci {
        return Err(DecodeError::MalformedRecord(0));
    }
    proof {
        assert(bytes@.skip(off as int).len() == 0);
        assert(table_model(table).tgl =~= seq![
            dfx(bytes@, 4), dfx(bytes@, 12), dfx(bytes@, 20), dfx(bytes@, 28),
        ]);
    }
    Ok(table)
}

// ---------------------------------------------------------------------
// Executable encoder
// ---------------------------------------------------------------------

/// Appends the bytes of `b` to `out`.
fn push_bytes(out: &mut Vec<u8>, b: &Vec<u8>)
    ensures
        final(out)@ == old(out)@ + b@,
{
    let n = b.len();
    let mut i: usize = 0;
    while i < n
        invariant
            n == b@.len(),
            0 <= i <= n,
            out@ == old(out)@ + b@.take(i as int),
        decreases n - i,
    {
        out.push(b[i]);
        proof {
            assert(old(out)@ + b@.take(i as int) + seq![b@[i as int]] =~= old(out)@ + b@.take(
                i + 1));
        }
        i += 1;
    }
    proof {
        assert(old(out)@ + b@.take(n as int) =~= old(out)@ + b@);
    }
}

/// Appends one fixed-point field.
fn push_fx(out: &mut Vec<u8>, x: Fx)
    ensures
        final(out)@ == old(out)@ + enc_fx(x),
{
    push_i64(out, x.v);
}

/// Appends one coefficient block.
fn push_segment(out: &mut Vec<u8>, seg: &Segment)
    ensures
        final(out)@ == old(out)@ + enc_segment(*seg),
{
    push_fx(out, seg.t_low);
    push_fx(out, seg.t_high);
    push_fx(out, seg.a1);
    push_fx(out, seg.a2);
    push_fx(out, seg.a3);
    push_fx(out, seg.a4);
    push_fx(out, seg.a5);
    push_fx(out, seg.a6);
    push_fx(out, seg.a7);
    push_fx(out, seg.b1);
    push_fx(out, seg.b2);
    proof {
        assert(out@ =~= old(out)@ + enc_segment(*seg));
    }
}

/// Appends one species record.
#[verifier::spinoff_prover]
#[verifier::rlimit(100)]
fn push_species(out: &mut Vec<u8>, sp: &Species)
    requires
        species_wf(*sp),
        sp.segments@.len() <= MAX_SEGMENTS,
    ensures
        final(out)@ == old(out)@ + enc_species(species_model(*sp)),
{
    let nseg = sp.segments.len();
    let reclen: u32 = (32 + 88 * nseg) as u32;
    push_u32(out, reclen);
    let tag: u32 = match sp.phase {
        Phase::Gas => 0,
        Phase::Condensed => if nseg == 1 {
            1
        } else {
            2
        },
    };
    push_u32(out, tag);
    push_bytes(out, &sp.name);
    push_u32(out, nseg as u32);
    push_fx(out, sp.mw);
    let ghost base = out@;
    let mut i: usize = 0;
    while i < nseg
        invariant
            nseg == sp.segments@.len(),
            0 <= i <= nseg,
            out@ == base + enc_segments(sp.segments@.take(i as int)),
        decreases nseg - i,
    {
        push_segment(out, &sp.segments[i]);
        proof {
            assert(sp.segments@.take(i + 1) =~= sp.segments@.take(i as int).push(
                sp.segments@[i as int]));
            lemma_enc_segments_snoc(sp.segments@.take(i as int), sp.segments@[i as int]);
            assert(base + enc_segments(sp.segments@.take(i as int)) + enc_segment(
                sp.segments@[i as int]) =~= base + enc_segments(sp.segments@.take(i + 1)));
        }
        i += 1;
    }
    proof {
        assert(sp.segments@.take(nseg as int) =~= sp.segments@);
        assert(out@ =~= old(out)@ + enc_species(species_model(*sp)));
    }
}

/// Writes the table in its binary library form.  (The name follows the
/// historical routine that produces the binary library.)
#[allow(non_snake_case)]
pub fn UTHERM(t: &SpeciesTable) -> (out: Vec<u8>)
    requires
        table_wf(*t),
    ensures
        out@ == spec_encode(table_model(*t)),
{
    let ghost model = table_model(*t);
    let n = t.list.len();
    // First pass: the two header counts.
    let mut ngl: u32 = 0;
    let mut nci: u32 = 0;
    let mut i: usize = 0;
    while i < n
        invariant
            table_wf(*t),
            n == t.list@.len(),
            model == table_model(*t),
            0 <= i <= n,
            ngl as int == gas_count(model.list.take(i as int)),
            nci as int == cond_intervals(model.list.take(i as int)),
            ngl <= i,
            nci as int <= (i as int) * (MAX_SEGMENTS as int),
        decreases n - i,
    {
        proof {
            assert(model.list.take(i + 1) =~= model.list.take(i as int).push(
                model.list[i as int]));
            lemma_counts_snoc(model.list.take(i as int), model.list[i as int]);
            assert((i as int) * (MAX_SEGMENTS as int) + (MAX_SEGMENTS as int) == ((
            i + 1) as int) * (MAX_SEGMENTS as int)) by (nonlinear_arith);
            assert(((i + 1) as int) * (MAX_SEGMENTS as int) <= (n as int) * (
            MAX_SEGMENTS as int)) by (nonlinear_arith)
                requires
                    i + 1 <= n,
            ;
            assert((n as int) * (MAX_SEGMENTS as int) < 0x100000000) by (nonlinear_arith)
                requires
                    n <= 0x1000000,
            ;
        }
        let sp = &t.list[i];
        match sp.phase {
            Phase::Gas => { ngl = ngl + 1; },
            Phase::Condensed => { nci = nci + (sp.segments.len() as u32); },
        }
        i += 1;
    }
    proof {
        assert(model.list.take(n as int) =~= model.list);
    }
    let mut out: Vec<u8> = Vec::new();
    push_u32(&mut out, 54);
    push_fx(&mut out, t.tgl[0]);
    push_fx(&mut out, t.tgl[1]);
    push_fx(&mut out, t.tgl[2]);
    push_fx(&mut out, t.tgl[3]);
    push_u32(&mut out, ngl);
    push_u32(&mut out, nci);
    push_u32(&mut out, n as u32);
    push_bytes(&mut out, &t.date);
    proof {
        assert(out@ =~= enc_header(model));
    }
    let ghost header = out@;
    let mut j: usize = 0;
    while j < n
        invariant
            table_wf(*t),
            n == t.list@.len(),
            model == table_model(*t),
            header == enc_header(model),
            0 <= j <= n,
            out@ == header + enc_list(model.list.take(j as int)),
        decreases n - j,
    {
        push_species(&mut out, &t.list[j]);
        proof {
            assert(model.list[j as int] == species_model(t.list@[j as int]));
            assert(model.list.take(j + 1) =~= model.list.take(j as int).push(
                model.list[j as int]));
            lemma_enc_list_snoc(model.list.take(j as int), model.list[j as int]);
            assert(header + enc_list(model.list.take(j as int)) + enc_species(
                model.list[j as int]) =~= header + enc_list(model.list.take(j + 1)));
        }
        j += 1;
    }
    proof {
        assert(model.list.take(n as int) =~= model.list);
        assert(out@ =~= spec_encode(model));
    }
    out
}

// ---------------------------------------------------------------------
// Round trip: decoding an encoding reproduces the table
// ---------------------------------------------------------------------

proof fn lemma_enc_fx_len(x: Fx)
    ensures
        enc_fx(x).len() == 8,
{
    lemma_le_bytes_len(to_unsigned64(x.v as int), 8);
}

proof fn lemma_enc_u32_len(v: int)
    ensures
        enc_u32(v).len() == 4,
{
    lemma_le_bytes_len(v, 4);
}

/// A fixed-point field is read back from its byte image.
proof fn lemma_dfx_enc(x: Fx, s: Seq<u8>, off: int)
    requires
        s.subrange(off, off + 8) == enc_fx(x),
    ensures
        dfx(s, off) == x,
{
    crate::bytes::lemma_i64_roundtrip(x.v as int);
}

/// A count field is read back from its byte image.
proof fn lemma_du32_enc(v: int, s: Seq<u8>, off: int)
    requires
        0 <= v < 0x100000000,
        s.subrange(off, off + 4) == enc_u32(v),
    ensures
        du32(s, off) == v,
{
    crate::bytes::lemma_u32_roundtrip(v);
}

proof fn lemma_enc_segment_len(seg: Segment)
    ensures
        enc_segment(seg).len() == 88,
{
    lemma_enc_fx_len(seg.t_low);
    lemma_enc_fx_len(seg.t_high);
    lemma_enc_fx_len(seg.a1);
    lemma_enc_fx_len(seg.a2);
    lemma_enc_fx_len(seg.a3);
    lemma_enc_fx_len(seg.a4);
    lemma_enc_fx_len(seg.a5);
    lemma_enc_fx_len(seg.a6);
    lemma_enc_fx_len(seg.a7);
    lemma_enc_fx_len(seg.b1);
    lemma_enc_fx_len(seg.b2);
}

proof fn lemma_enc_segments_len(segs: Seq<Segment>)
    ensures
        enc_segments(segs).len() == 88 * segs.len(),
    decreases segs.len(),
{
    if segs.len() > 0 {
        lemma_enc_segment_len(segs[0]);
        lemma_enc_segments_len(segs.drop_first());
    }
}

/// One coefficient block decodes from its own encoding.
#[verifier::spinoff_prover]
#[verifier::rlimit(100)]
proof fn lemma_dec_segment_enc(seg: Segment, rest: Seq<u8>)
    ensures
        dec_segment(enc_segment(seg) + rest) == Ok::<(Segment, Seq<u8>), DecodeError>(
            (seg, rest),
        ),
{
    lemma_enc_segment_len(seg);
    lemma_enc_fx_len(seg.t_low);
    lemma_enc_fx_len(seg.t_high);
    lemma_enc_fx_len(seg.a1);
    lemma_enc_fx_len(seg.a2);
    lemma_enc_fx_len(seg.a3);
    lemma_enc_fx_len(seg.a4);
    lemma_enc_fx_len(seg.a5);
    lemma_enc_fx_len(seg.a6);
    lemma_enc_fx_len(seg.a7);
    lemma_enc_fx_len(seg.b1);
    lemma_enc_fx_len(seg.b2);
    let s = enc_segment(seg) + rest;
    assert(s.subrange(0, 8) =~= enc_fx(seg.t_low));
    assert(s.subrange(8, 16) =~= enc_fx(seg.t_high));
    assert(s.subrange(16, 24) =~= enc_fx(seg.a1));
    assert(s.subrange(24, 32) =~= enc_fx(seg.a2));
    assert(s.subrange(32, 40) =~= enc_fx(seg.a3));
    assert(s.subrange(40, 48) =~= enc_fx(seg.a4));
    assert(s.subrange(48, 56) =~= enc_fx(seg.a5));
    assert(s.subrange(56, 64) =~= enc_fx(seg.a6));
    assert(s.subrange(64, 72) =~= enc_fx(seg.a7));
    assert(s.subrange(72, 80) =~= enc_fx(seg.b1));
    assert(s.subrange(80, 88) =~= enc_fx(seg.b2));
    lemma_dfx_enc(seg.t_low, s, 0);
    lemma_dfx_enc(seg.t_high, s, 8);
    lemma_dfx_enc(seg.a1, s, 16);
    lemma_dfx_enc(seg.a2, s, 24);
    lemma_dfx_enc(seg.a3, s, 32);
    lemma_dfx_enc(seg.a4, s, 40);
    lemma_dfx_enc(seg.a5, s, 48);
    lemma_dfx_enc(seg.a6, s, 56);
    lemma_dfx_enc(seg.a7, s, 64);
    lemma_dfx_enc(seg.b1, s, 72);
    lemma_dfx_enc(seg.b2, s, 80);
    assert(s.skip(88) =~= rest);
}

/// A block list decodes from its own encoding.
#[verifier::spinoff_prover]
#[verifier::rlimit(100)]
proof fn lemma_dec_segments_enc(segs: Seq<Segment>, rest: Seq<u8>)
    ensures
        dec_segments(enc_segments(segs) + rest, segs.len()) == Ok::<
            (Seq<Segment>, Seq<u8>),
            DecodeError,
        >((segs, rest)),
    decreases segs.len(),
{
    if segs.len() == 0 {
        assert(enc_segments(segs) + rest =~= rest);
        assert(segs =~= Seq::<Segment>::empty());
    } else {
        let df = segs.drop_first();
        assert((enc_segment(segs[0]) + enc_segments(df)) + rest =~= enc_segment(segs[0]) + (
        enc_segments(df) + rest));
        lemma_dec_segment_enc(segs[0], enc_segments(df) + rest);
        lemma_dec_segments_enc(df, rest);
        assert(seq![segs[0]] + df =~= segs);
    }
}

/// A species record decodes from its own encoding, whatever its index.
#[verifier::spinoff_prover]
#[verifier::rlimit(100)]
proof fn lemma_dec_species_enc(m: SpModel, rest: Seq<u8>, idx: u32)
    requires
        sp_model_wf(m),
    ensures
        dec_species(enc_species(m) + rest, idx) == Ok::<(SpModel, Seq<u8>), DecodeError>(
            (m, rest),
        ),
{
    let n = m.segs.len() as int;
    let reclen = 32 + 88 * n;
    lemma_enc_u32_len(reclen);
    lemma_enc_u32_len(spec_tag(m));
    lemma_enc_u32_len(n);
    lemma_enc_fx_len(m.mw);
    lemma_enc_segments_len(m.segs);
    let s = enc_species(m) + rest;
    assert(s.len() == 4 + reclen + rest.len());
    assert(s.subrange(0, 4) =~= enc_u32(reclen));
    lemma_du32_enc(reclen, s, 0);
    vstd::arithmetic::div_mod::lemma_mod_multiples_basic(n, 88);
    assert(n * 88 == 88 * n) by (nonlinear_arith);
    vstd::arithmetic::div_mod::lemma_div_multiples_vanish(n, 88);
    assert((reclen - 32) % 88 == 0);
    assert((reclen - 32) / 88 == n);
    assert(s.subrange(4, 8) =~= enc_u32(spec_tag(m)));
    lemma_du32_enc(spec_tag(m), s, 4);
    assert(s.subrange(8, 24) =~= m.name);
    assert(s.subrange(24, 28) =~= enc_u32(n));
    lemma_du32_enc(n, s, 24);
    assert(s.subrange(28, 36) =~= enc_fx(m.mw));
    lemma_dfx_enc(m.mw, s, 28);
    assert(s.skip(36) =~= enc_segments(m.segs) + rest);
    lemma_dec_segments_enc(m.segs, rest);
    assert(s.skip(4 + reclen) =~= rest);
    let m2 = SpModel {
        name: s.subrange(8, 24),
        phase: if spec_tag(m) == 0 {
            Phase::Gas
        } else {
            Phase::Condensed
        },
        mw: dfx(s, 28),
        segs: m.segs,
    };
    assert(m2 == m);
}

/// A record list decodes from its own encoding when no key repeats.
#[verifier::spinoff_prover]
#[verifier::rlimit(100)]
proof fn lemma_dec_list_enc(l: Seq<SpModel>, rest: Seq<u8>, prior: Seq<SpModel>)
    requires
        forall|j: int| 0 <= j < l.len() ==> sp_model_wf(#[trigger] l[j]),
        forall|j1: int, j2: int| 0 <= j1 < j2 < l.len() ==> mkey(l[j1]) != mkey(l[j2]),
        forall|i: int, j: int|
            0 <= i < prior.len() && 0 <= j < l.len() ==> mkey(prior[i]) != mkey(l[j]),
    ensures
        dec_list(enc_list(l) + rest, l.len(), prior) == Ok::<(Seq<SpModel>, Seq<u8>), DecodeError>(
            (l, rest),
        ),
    decreases l.len(),
{
    if l.len() == 0 {
        assert(enc_list(l) + rest =~= rest);
        assert(l =~= Seq::<SpModel>::empty());
    } else {
        let df = l.drop_first();
        assert(forall|j: int| 1 <= j < l.len() ==> #[trigger] l[j] == df[j - 1]);
        assert((enc_species(l[0]) + enc_list(df)) + rest =~= enc_species(l[0]) + (enc_list(df)
            + rest));
        lemma_dec_species_enc(l[0], enc_list(df) + rest, (prior.len() + 1) as u32);
        assert(!dup_in(prior, l[0])) by {
            if dup_in(prior, l[0]) {
                let j = choose|j: int|
                    0 <= j < prior.len() && mkey(#[trigger] prior[j]) == mkey(l[0]);
                assert(false);
            }
        }
        let prior2 = prior.push(l[0]);
        assert(forall|i: int|
            0 <= i < prior2.len() - 1 ==> #[trigger] prior2[i] == prior[i]);
        assert(prior2[prior.len() as int] == l[0]);
        assert forall|i: int, j: int|
            0 <= i < prior2.len() && 0 <= j < df.len() implies mkey(#[trigger] prior2[i]) != mkey(
            #[trigger] df[j],
        ) by {
            assert(df[j] == l[j + 1]);
            if i < prior.len() {
                assert(mkey(prior[i]) != mkey(l[j + 1]));
            } else {
                assert(prior2[i] == l[0]);
                assert(mkey(l[0]) != mkey(l[j + 1]));
            }
        }
        lemma_dec_list_enc(df, rest, prior2);
        assert(seq![l[0]] + df =~= l);
    }
}

/// Field extraction from an encoded header.
#[verifier::spinoff_prover]
#[verifier::rlimit(100)]
proof fn lemma_header_fields(m: TableModel)
    requires
        table_model_wf(m),
    ensures
        ({
            let s = spec_encode(m);
            &&& s.len() >= 58
            &&& du32(s, 0) == 54
            &&& dfx(s, 4) == m.tgl[0]
            &&& dfx(s, 12) == m.tgl[1]
            &&& dfx(s, 20) == m.tgl[2]
            &&& dfx(s, 28) == m.tgl[3]
            &&& du32(s, 36) == gas_count(m.list)
            &&& du32(s, 40) == cond_intervals(m.list)
            &&& du32(s, 44) == m.list.len()
            &&& s.subrange(48, 58) == m.date
            &&& s.skip(58) == enc_list(m.list)
        }),
{
    let s = spec_encode(m);
    lemma_enc_u32_len(54);
    lemma_enc_fx_len(m.tgl[0]);
    lemma_enc_fx_len(m.tgl[1]);
    lemma_enc_fx_len(m.tgl[2]);
    lemma_enc_fx_len(m.tgl[3]);
    lemma_enc_u32_len(gas_count(m.list));
    lemma_enc_u32_len(cond_intervals(m.list));
    lemma_enc_u32_len(m.list.len() as int);
    assert(enc_header(m).len() == 58);
    assert(s.subrange(0, 4) =~= enc_u32(54));
    lemma_du32_enc(54, s, 0);
    assert(s.subrange(4, 12) =~= enc_fx(m.tgl[0]));
    assert(s.subrange(12, 20) =~= enc_fx(m.tgl[1]));
    assert(s.subrange(20, 28) =~= enc_fx(m.tgl[2]));
    assert(s.subrange(28, 36) =~= enc_fx(m.tgl[3]));
    lemma_dfx_enc(m.tgl[0], s, 4);
    lemma_dfx_enc(m.tgl[1], s, 12);
    lemma_dfx_enc(m.tgl[2], s, 20);
    lemma_dfx_enc(m.tgl[3], s, 28);
    lemma_counts_bound(m.list);
    assert((m.list.len() as int) * (MAX_SEGMENTS as int) < 0x100000000) by (nonlinear_arith)
        requires
            m.list.len() <= 0xffffff,
    ;
    assert(s.subrange(36, 40) =~= enc_u32(gas_count(m.list)));
    lemma_du32_enc(gas_count(m.list), s, 36);
    assert(s.subrange(40, 44) =~= enc_u32(cond_intervals(m.list)));
    lemma_du32_enc(cond_intervals(m.list), s, 40);
    assert(s.subrange(44, 48) =~= enc_u32(m.list.len() as int));
    lemma_du32_enc(m.list.len() as int, s, 44);
    assert(s.subrange(48, 58) =~= m.date);
    assert(s.skip(58) =~= enc_list(m.list));
}

/// Round trip of the codec: a well-formed table written with `UTHERM`
/// and read back with `load` is reproduced exactly — every name,
/// weight, phase tag, segment range and coefficient, and the header's
/// breakpoints and date.
#[verifier::spinoff_prover]
#[verifier::rlimit(100)]
pub proof fn lemma_round_trip(m: TableModel)
    requires
        table_model_wf(m),
    ensures
        spec_decode(spec_encode(m)) == Ok::<TableModel, DecodeError>(m),
{
    let s = spec_encode(m);
    lemma_header_fields(m);
    assert(s.skip(58) =~= enc_list(m.list) + Seq::<u8>::empty());
    lemma_dec_list_enc(m.list, Seq::empty(), Seq::empty());
    assert(seq![dfx(s, 4), dfx(s, 12), dfx(s, 20), dfx(s, 28)] =~= m.tgl);
    assert(spec_decode(s) == Ok::<TableModel, DecodeError>(
        TableModel { tgl: m.tgl, date: m.date, list: m.list },
    ));
    assert(TableModel { tgl: m.tgl, date: m.date, list: m.list } == m);
}

} // verus!
