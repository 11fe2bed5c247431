//! Free-format scanning behaviour.

use cea_rs::input::INFREE;

#[test]
fn finds_tokens_in_order() {
    let line = b"  prob, case=one  ".to_vec();
    let (s1, e1) = INFREE(&line, 0).unwrap();
    assert_eq!(&line[s1..e1], b"prob");
    let (s2, e2) = INFREE(&line, e1).unwrap();
    assert_eq!(&line[s2..e2], b"case");
    let (s3, e3) = INFREE(&line, e2).unwrap();
    assert_eq!(&line[s3..e3], b"one");
    assert_eq!(INFREE(&line, e3), None);
}

#[test]
fn all_separators_is_none() {
    let line = b" ,\t= ,,==  ".to_vec();
    assert_eq!(INFREE(&line, 0), None);
    let empty: Vec<u8> = Vec::new();
    assert_eq!(INFREE(&empty, 0), None);
}

#[test]
fn start_past_end_is_none() {
    let line = b"abc".to_vec();
    assert_eq!(INFREE(&line, 3), None);
    assert_eq!(INFREE(&line, 10), None);
    assert_eq!(INFREE(&line, 0), Some((0, 3)));
}
