use acbridge::cursor::MatchCursor;
use acbridge::decode::{decode_packed, decode_parallel};
use acbridge::matcher::Matcher;
use acbridge::{Error, Match, MatchKind};

#[test]
fn matcher_find_all_direct() {
    let m = Matcher::build(
        vec![b"he".to_vec(), b"she".to_vec(), b"his".to_vec(), b"hers".to_vec()],
        false,
        MatchKind::Standard,
        false,
    )
    .unwrap();
    let got = m.find_all(b"ushers");
    assert_eq!(got, vec![Match { pattern_id: 1, start: 1, end: 4 }]);
}

#[test]
fn matcher_overlapping_direct() {
    let m = Matcher::build(
        vec![b"he".to_vec(), b"she".to_vec(), b"his".to_vec(), b"hers".to_vec()],
        false,
        MatchKind::Standard,
        false,
    )
    .unwrap();
    let got = m.find_overlapping_all(b"ushers");
    assert_eq!(
        got,
        vec![
            Match { pattern_id: 1, start: 1, end: 4 },
            Match { pattern_id: 0, start: 2, end: 4 },
            Match { pattern_id: 3, start: 2, end: 6 },
        ]
    );
}

#[test]
fn matcher_find_up_to_prefix() {
    let m = Matcher::build(vec![b"a".to_vec()], false, MatchKind::Standard, false).unwrap();
    let all = m.find_all(b"aaa");
    assert_eq!(all.len(), 3);
    assert_eq!(m.find_up_to(b"aaa", 2)[..], all[..2]);
    assert_eq!(m.find_up_to(b"aaa", 9), all);
}

#[test]
fn cursor_steps_through_records() {
    let m = Matcher::build(vec![b"a".to_vec()], false, MatchKind::Standard, false).unwrap();
    let mut c = MatchCursor::open_sequential(&m, b"aba");
    assert_eq!(c.advance(), Some(Match { pattern_id: 0, start: 0, end: 1 }));
    assert_eq!(c.advance(), Some(Match { pattern_id: 0, start: 2, end: 3 }));
    assert_eq!(c.advance(), None);
    assert_eq!(c.advance(), None);
}

#[test]
fn overlapping_cursor_end_order() {
    let m = Matcher::build(
        vec![b"aa".to_vec(), b"aaa".to_vec()],
        false,
        MatchKind::Standard,
        false,
    )
    .unwrap();
    let mut c = MatchCursor::open_overlapping(&m, b"aaaa");
    let mut got = Vec::new();
    while let Some(r) = c.advance() {
        got.push(r);
    }
    for w in got.windows(2) {
        assert!(w[0].end <= w[1].end);
    }
    assert!(got.len() >= 4);
}

#[test]
fn decoders_expose_pattern_sets() {
    let par = decode_parallel(b"abcd", &[1, 3]).unwrap();
    assert_eq!(par, vec![b"a".to_vec(), b"bcd".to_vec()]);
    let pak = decode_packed(b"a\0bcd\0").unwrap();
    assert_eq!(pak, par);
    // An empty pattern sits between two delimiters.
    let with_empty = decode_packed(b"a\0\0b\0").unwrap();
    assert_eq!(with_empty, vec![b"a".to_vec(), b"".to_vec(), b"b".to_vec()]);
    assert_eq!(decode_parallel(b"ab", &[3]), Err(Error::MalformedInput));
    assert_eq!(decode_packed(b"ab"), Err(Error::MalformedInput));
}
