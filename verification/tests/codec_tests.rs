//! Binary library codec behaviour.

use cea_rs::codec::{load, DecodeError, UTHERM};
use cea_rs::fx::{Fx, SCALE};
use cea_rs::table::SpeciesTable;
use cea_rs::thermo::{Phase, Segment, Species};

fn name16(s: &str) -> Vec<u8> {
    let mut v = s.as_bytes().to_vec();
    while v.len() < 16 {
        v.push(b' ');
    }
    v
}

fn fxf(x: f64) -> Fx {
    Fx { v: (x * SCALE as f64) as i64 }
}

fn seg(t_low: f64, t_high: f64, a3: f64, b1: f64, b2: f64) -> Segment {
    Segment {
        t_low: fxf(t_low),
        t_high: fxf(t_high),
        a1: fxf(0.001),
        a2: fxf(-0.25),
        a3: fxf(a3),
        a4: fxf(0.0005),
        a5: Fx::zero(),
        a6: Fx::zero(),
        a7: Fx::zero(),
        b1: fxf(b1),
        b2: fxf(b2),
    }
}

fn sample_table() -> SpeciesTable {
    let tgl = vec![fxf(200.0), fxf(1000.0), fxf(6000.0), fxf(20000.0)];
    let date = b"2004-05-21".to_vec();
    let mut t = SpeciesTable::new(tgl, date);
    let gas = Species {
        name: name16("N2"),
        phase: Phase::Gas,
        mw: fxf(28.0134),
        segments: vec![seg(200.0, 1000.0, 3.5, -1043.0, 2.5), seg(1000.0, 6000.0, 3.7, -987.0, 1.5)],
    };
    assert!(t.add_species(gas));
    let cond = Species {
        name: name16("C(gr)"),
        phase: Phase::Condensed,
        mw: fxf(12.011),
        segments: vec![seg(200.0, 6000.0, 1.5, -500.0, -3.0)],
    };
    assert!(t.add_species(cond));
    t
}

fn species_eq(a: &Species, b: &Species) {
    assert_eq!(a.name, b.name);
    assert_eq!(a.mw.v, b.mw.v);
    assert_eq!(a.segments.len(), b.segments.len());
    for (x, y) in a.segments.iter().zip(b.segments.iter()) {
        assert_eq!(x, y);
    }
}

#[test]
fn round_trip_reproduces_table() {
    let t = sample_table();
    let bytes = UTHERM(&t);
    let t2 = load(&bytes).expect("decode of an encoding must succeed");
    assert_eq!(t2.list.len(), t.list.len());
    for (a, b) in t.list.iter().zip(t2.list.iter()) {
        species_eq(a, b);
        assert!(matches!(a.phase, Phase::Gas) == matches!(b.phase, Phase::Gas));
    }
    for (x, y) in t.tgl.iter().zip(t2.tgl.iter()) {
        assert_eq!(x.v, y.v);
    }
    assert_eq!(t.date, t2.date);
}

#[test]
fn lookup_by_name_and_phase() {
    let t = sample_table();
    let n2 = t.get(&name16("N2"), Phase::Gas).expect("N2 present");
    assert_eq!(n2.mw.v, fxf(28.0134).v);
    assert!(t.get(&name16("N2"), Phase::Condensed).is_none());
    assert!(t.get(&name16("Xx"), Phase::Gas).is_none());
    let c = t.get(&name16("C(gr)"), Phase::Condensed).expect("C(gr) present");
    assert_eq!(c.mw.v, fxf(12.011).v);
}

#[test]
fn truncated_input_is_eof() {
    assert!(matches!(load(&vec![]), Err(DecodeError::UnexpectedEof(0))));
    let t = sample_table();
    let bytes = UTHERM(&t);
    let cut = bytes[..bytes.len() - 5].to_vec();
    // The cut lands inside the second species record.
    assert!(matches!(load(&cut), Err(DecodeError::UnexpectedEof(2))));
    let cut2 = bytes[..30].to_vec();
    assert!(matches!(load(&cut2), Err(DecodeError::UnexpectedEof(0))));
}

#[test]
fn bad_header_marker_is_malformed() {
    let t = sample_table();
    let mut bytes = UTHERM(&t);
    bytes[0] = 53;
    assert!(matches!(load(&bytes), Err(DecodeError::MalformedRecord(0))));
}

#[test]
fn trailing_bytes_are_malformed() {
    let t = sample_table();
    let mut bytes = UTHERM(&t);
    bytes.push(0);
    // Trailing data is reported one past the last record.
    assert!(matches!(load(&bytes), Err(DecodeError::MalformedRecord(3))));
}

#[test]
fn wrong_header_count_is_malformed() {
    let t = sample_table();
    let mut bytes = UTHERM(&t);
    // The gas-species count sits at bytes 36..40 of the header.
    bytes[36] = bytes[36].wrapping_add(1);
    assert!(matches!(load(&bytes), Err(DecodeError::MalformedRecord(0))));
}

#[test]
fn unknown_phase_tag_is_rejected() {
    let t = sample_table();
    let mut bytes = UTHERM(&t);
    // The first species record starts at 58; its tag is at 62..66.
    bytes[62] = 3;
    assert!(matches!(load(&bytes), Err(DecodeError::UnknownPhaseTag(1))));
}

#[test]
fn duplicate_species_is_rejected() {
    // Hand-build an image whose two records share a name and phase.
    let tgl = vec![fxf(200.0), fxf(1000.0), fxf(6000.0), fxf(20000.0)];
    let date = b"2004-05-21".to_vec();
    let mut t = SpeciesTable::new(tgl, date);
    let gas = Species {
        name: name16("N2"),
        phase: Phase::Gas,
        mw: fxf(28.0134),
        segments: vec![seg(200.0, 1000.0, 3.5, -1043.0, 2.5)],
    };
    assert!(t.add_species(gas));
    let one = UTHERM(&t);
    let record = one[58..].to_vec();
    let mut bytes = one[..58].to_vec();
    // Two gas species, same record twice.
    bytes[36] = 2;
    bytes[44] = 2;
    bytes.extend_from_slice(&record);
    bytes.extend_from_slice(&record);
    // The second copy is the offender.
    assert!(matches!(load(&bytes), Err(DecodeError::DuplicateSpecies(2))));
}

#[test]
fn duplicate_add_is_refused_in_memory() {
    let mut t = sample_table();
    let again = Species {
        name: name16("N2"),
        phase: Phase::Gas,
        mw: fxf(28.0134),
        segments: vec![seg(200.0, 1000.0, 3.5, -1043.0, 2.5)],
    };
    assert!(!t.add_species(again));
    // The same name in the other phase is a distinct record.
    let other = Species {
        name: name16("N2"),
        phase: Phase::Condensed,
        mw: fxf(28.0134),
        segments: vec![seg(200.0, 1000.0, 3.5, -1043.0, 2.5)],
    };
    assert!(t.add_species(other));
}

#[test]
fn interval_count_mismatch_is_malformed() {
    let t = sample_table();
    let mut bytes = UTHERM(&t);
    // The first record's interval-count field sits at 82..86.
    bytes[82] = bytes[82].wrapping_add(1);
    assert!(matches!(load(&bytes), Err(DecodeError::MalformedRecord(1))));
}

#[test]
fn record_length_mismatch_is_malformed() {
    let t = sample_table();
    let mut bytes = UTHERM(&t);
    // A record length that is no whole number of coefficient blocks.
    bytes[58] = bytes[58].wrapping_add(1);
    assert!(matches!(load(&bytes), Err(DecodeError::MalformedRecord(1))));
}
