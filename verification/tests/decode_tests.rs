use acbridge::boundary::Boundary;
use acbridge::{Error, MatchKind};

#[test]
fn parallel_decode_builds_matcher() {
    let mut b = Boundary::new();
    let bytes: &[u8] = b"heshehishers";
    let lens: &[usize] = &[2, 3, 3, 4];
    let h = b
        .new_matcher(bytes, lens, false, false, MatchKind::Standard)
        .unwrap();
    let found = b.matches(h, b"ushers", 100).unwrap();
    assert!(!found.is_empty());
}

#[test]
fn parallel_decode_rejects_overrun() {
    let mut b = Boundary::new();
    // The lengths claim 5 bytes, only 4 are there.
    let r = b.new_matcher(b"hehe", &[2, 3], false, false, MatchKind::Standard);
    assert_eq!(r, Err(Error::MalformedInput));
}

#[test]
fn parallel_decode_accepts_empty_set() {
    let mut b = Boundary::new();
    let r = b.new_matcher(b"", &[], false, false, MatchKind::Standard);
    assert!(r.is_ok());
}

#[test]
fn packed_decode_builds_matcher() {
    let mut b = Boundary::new();
    let h = b
        .new_matcher_packed(b"he\0she\0his\0hers\0", false, false, MatchKind::Standard)
        .unwrap();
    let found = b.matches(h, b"ushers", 100).unwrap();
    assert!(!found.is_empty());
}

#[test]
fn packed_decode_rejects_missing_terminator() {
    let mut b = Boundary::new();
    let r = b.new_matcher_packed(b"he\0she", false, false, MatchKind::Standard);
    assert_eq!(r, Err(Error::MalformedInput));
}

#[test]
fn packed_decode_accepts_empty_bytes() {
    let mut b = Boundary::new();
    let h = b
        .new_matcher_packed(b"", false, false, MatchKind::Standard)
        .unwrap();
    let found = b.matches(h, b"any text at all", 100).unwrap();
    assert_eq!(found.len(), 0);
}

#[test]
fn both_encodings_agree_on_ids_and_results() {
    // The same four patterns, once through each encoding: identical
    // identifier assignment and identical search results.
    let mut b = Boundary::new();
    let hp = b
        .new_matcher(b"heshehishers", &[2, 3, 3, 4], false, false, MatchKind::Standard)
        .unwrap();
    let hd = b
        .new_matcher_packed(b"he\0she\0his\0hers\0", false, false, MatchKind::Standard)
        .unwrap();
    let text: &[u8] = b"ushers and his herd";
    let mp = b.matches(hp, text, 100).unwrap();
    let md = b.matches(hd, text, 100).unwrap();
    assert_eq!(mp, md);
    let op = collect_overlapping(&mut b, hp, text);
    let od = collect_overlapping(&mut b, hd, text);
    assert_eq!(op, od);
}

fn collect_overlapping(
    b: &mut Boundary,
    matcher: usize,
    text: &[u8],
) -> Vec<acbridge::Match> {
    let it = b.overlapping_iter(matcher, text).unwrap();
    let mut out = Vec::new();
    while let Some(m) = b.overlapping_iter_next(it).unwrap() {
        out.push(m);
    }
    b.overlapping_iter_delete(it).unwrap();
    out
}
