use acbridge::boundary::{matches_delete, Boundary};
use acbridge::{Error, Match, MatchKind};

fn one_pattern_matcher(b: &mut Boundary) -> usize {
    b.new_matcher(b"a", &[1], false, false, MatchKind::Standard)
        .unwrap()
}

#[test]
fn bulk_limit_truncates() {
    let mut b = Boundary::new();
    let h = one_pattern_matcher(&mut b);
    let got = b.matches(h, b"aaaa", 2).unwrap();
    assert_eq!(
        got,
        vec![
            Match { pattern_id: 0, start: 0, end: 1 },
            Match { pattern_id: 0, start: 1, end: 2 },
        ]
    );
    matches_delete(got);
}

#[test]
fn bulk_limit_above_total_returns_all() {
    let mut b = Boundary::new();
    let h = one_pattern_matcher(&mut b);
    let got = b.matches(h, b"aaaa", 100).unwrap();
    assert_eq!(got.len(), 4);
}

#[test]
fn bulk_limit_zero_returns_empty_buffer() {
    let mut b = Boundary::new();
    let h = one_pattern_matcher(&mut b);
    let got = b.matches(h, b"aaaa", 0).unwrap();
    assert_eq!(got.len(), 0);
}

#[test]
fn bulk_equals_sequential_prefix() {
    let mut b = Boundary::new();
    let h = one_pattern_matcher(&mut b);
    let it = b.find_iter(h, b"aaaa").unwrap();
    let mut seq = Vec::new();
    while let Some(m) = b.find_iter_next(it).unwrap() {
        seq.push(m);
    }
    b.find_iter_delete(it).unwrap();
    for k in 0..6usize {
        let bulk = b.matches(h, b"aaaa", k).unwrap();
        let want = seq.len().min(k);
        assert_eq!(bulk.len(), want);
        assert_eq!(bulk[..], seq[..want]);
    }
}

#[test]
fn destroyed_matcher_handle_is_refused() {
    let mut b = Boundary::new();
    let h = one_pattern_matcher(&mut b);
    assert_eq!(b.delete_matcher(h), Ok(()));
    assert_eq!(b.delete_matcher(h), Err(Error::ContractViolation));
    assert_eq!(b.find_iter(h, b"aa"), Err(Error::ContractViolation));
    assert_eq!(b.overlapping_iter(h, b"aa"), Err(Error::ContractViolation));
    assert_eq!(b.matches(h, b"aa", 5), Err(Error::ContractViolation));
}

#[test]
fn never_issued_handles_are_refused() {
    let mut b = Boundary::new();
    assert_eq!(b.delete_matcher(3), Err(Error::ContractViolation));
    assert_eq!(b.find_iter_next(0), Err(Error::ContractViolation));
    assert_eq!(b.overlapping_iter_next(7), Err(Error::ContractViolation));
    assert_eq!(b.find_iter_delete(0), Err(Error::ContractViolation));
    assert_eq!(b.overlapping_iter_delete(0), Err(Error::ContractViolation));
}

#[test]
fn destroyed_cursor_handles_are_refused() {
    let mut b = Boundary::new();
    let h = one_pattern_matcher(&mut b);
    let it = b.find_iter(h, b"aa").unwrap();
    assert_eq!(b.find_iter_delete(it), Ok(()));
    assert_eq!(b.find_iter_delete(it), Err(Error::ContractViolation));
    assert_eq!(b.find_iter_next(it), Err(Error::ContractViolation));
    let ov = b.overlapping_iter(h, b"aa").unwrap();
    assert_eq!(b.overlapping_iter_delete(ov), Ok(()));
    assert_eq!(b.overlapping_iter_next(ov), Err(Error::ContractViolation));
}

#[test]
fn handles_are_never_reused() {
    let mut b = Boundary::new();
    let h1 = one_pattern_matcher(&mut b);
    b.delete_matcher(h1).unwrap();
    let h2 = one_pattern_matcher(&mut b);
    assert_ne!(h1, h2);
    assert_eq!(b.matches(h1, b"aa", 5), Err(Error::ContractViolation));
    assert!(b.matches(h2, b"aa", 5).is_ok());
}

#[test]
fn matcher_deletion_leaves_cursors_alone() {
    let mut b = Boundary::new();
    let h = one_pattern_matcher(&mut b);
    let it = b.find_iter(h, b"aa").unwrap();
    b.delete_matcher(h).unwrap();
    assert!(b.find_iter_next(it).unwrap().is_some());
}

#[test]
fn overlapping_needs_standard_kind() {
    let mut b = Boundary::new();
    let h = b
        .new_matcher(b"a", &[1], false, false, MatchKind::LeftmostFirst)
        .unwrap();
    assert_eq!(
        b.overlapping_iter(h, b"aa"),
        Err(Error::UnsupportedConfiguration)
    );
}
