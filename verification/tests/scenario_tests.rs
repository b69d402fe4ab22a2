use acbridge::boundary::Boundary;
use acbridge::{Match, MatchKind};

fn classic_matcher(b: &mut Boundary, kind: MatchKind) -> usize {
    b.new_matcher(b"heshehishers", &[2, 3, 3, 4], false, false, kind)
        .unwrap()
}

fn collect_sequential(b: &mut Boundary, matcher: usize, text: &[u8]) -> Vec<Match> {
    let it = b.find_iter(matcher, text).unwrap();
    let mut out = Vec::new();
    while let Some(m) = b.find_iter_next(it).unwrap() {
        out.push(m);
    }
    b.find_iter_delete(it).unwrap();
    out
}

fn collect_overlapping(b: &mut Boundary, matcher: usize, text: &[u8]) -> Vec<Match> {
    let it = b.overlapping_iter(matcher, text).unwrap();
    let mut out = Vec::new();
    while let Some(m) = b.overlapping_iter_next(it).unwrap() {
        out.push(m);
    }
    b.overlapping_iter_delete(it).unwrap();
    out
}

fn record(pattern_id: usize, start: usize, end: usize) -> Match {
    Match { pattern_id, start, end }
}

#[test]
fn ushers_standard_sequential() {
    // Patterns he(0), she(1), his(2), hers(3) over "ushers": the standard
    // kind reports the first match seen, "she" at 1..4, and the rest of
    // the text holds no further non-overlapping match.
    let mut b = Boundary::new();
    let h = classic_matcher(&mut b, MatchKind::Standard);
    let got = collect_sequential(&mut b, h, b"ushers");
    assert_eq!(got, vec![record(1, 1, 4)]);
}

#[test]
fn ushers_standard_overlapping() {
    // Overlapping enumeration reports every occurrence, in order of the
    // position where each ends: she at 1..4, he at 2..4, hers at 2..6.
    let mut b = Boundary::new();
    let h = classic_matcher(&mut b, MatchKind::Standard);
    let got = collect_overlapping(&mut b, h, b"ushers");
    assert_eq!(got, vec![record(1, 1, 4), record(0, 2, 4), record(3, 2, 6)]);
}

#[test]
fn ushers_overlapping_covers_sequential() {
    // Every non-overlapping record also appears among the overlapping
    // ones.
    let mut b = Boundary::new();
    let h = classic_matcher(&mut b, MatchKind::Standard);
    let seq = collect_sequential(&mut b, h, b"ushers");
    let all = collect_overlapping(&mut b, h, b"ushers");
    for m in &seq {
        assert!(all.contains(m));
    }
}

#[test]
fn ushers_leftmost_kinds() {
    let mut b = Boundary::new();
    let hf = classic_matcher(&mut b, MatchKind::LeftmostFirst);
    assert_eq!(collect_sequential(&mut b, hf, b"ushers"), vec![record(1, 1, 4)]);
    let hl = classic_matcher(&mut b, MatchKind::LeftmostLongest);
    assert_eq!(collect_sequential(&mut b, hl, b"ushers"), vec![record(1, 1, 4)]);
}

#[test]
fn sequential_records_never_overlap() {
    // A pattern set made to overlap itself: the sequential search still
    // reports records that stand apart.
    let mut b = Boundary::new();
    let h = b
        .new_matcher(b"aaaaaa", &[2, 4], false, false, MatchKind::Standard)
        .unwrap();
    let got = collect_sequential(&mut b, h, b"aaaaaaaa");
    for w in got.windows(2) {
        assert!(w[0].end <= w[1].start);
    }
    assert!(!got.is_empty());
}

#[test]
fn ascii_case_insensitive_two_occurrences() {
    // One pattern "abc", case-insensitive, over "XYZ ABC abc": the two
    // occurrences, offsets counted on the raw bytes.
    let mut b = Boundary::new();
    let h = b
        .new_matcher(b"abc", &[3], true, false, MatchKind::Standard)
        .unwrap();
    let text: &[u8] = b"XYZ ABC abc";
    let got = collect_sequential(&mut b, h, text);
    assert_eq!(got, vec![record(0, 4, 7), record(0, 8, 11)]);
    // Each span spells the pattern out, up to ASCII case.
    for m in &got {
        assert!(text[m.start..m.end].eq_ignore_ascii_case(b"abc"));
    }
}

#[test]
fn spans_spell_their_patterns() {
    let mut b = Boundary::new();
    let h = classic_matcher(&mut b, MatchKind::Standard);
    let text: &[u8] = b"ushers and his herd";
    let patterns: [&[u8]; 4] = [b"he", b"she", b"his", b"hers"];
    for m in collect_overlapping(&mut b, h, text) {
        assert_eq!(&text[m.start..m.end], patterns[m.pattern_id]);
    }
}

#[test]
fn forced_deterministic_engine_same_answers() {
    let mut b = Boundary::new();
    let auto = b
        .new_matcher(b"abc", &[3], true, false, MatchKind::Standard)
        .unwrap();
    let dfa = b
        .new_matcher(b"abc", &[3], true, true, MatchKind::Standard)
        .unwrap();
    let text: &[u8] = b"XYZ ABC abc";
    assert_eq!(
        b.matches(auto, text, 100).unwrap(),
        b.matches(dfa, text, 100).unwrap()
    );
}

#[test]
fn empty_pattern_set_reports_nothing() {
    let mut b = Boundary::new();
    let h = b.new_matcher(b"", &[], false, false, MatchKind::Standard).unwrap();
    assert_eq!(collect_sequential(&mut b, h, b"any text"), vec![]);
    assert_eq!(collect_overlapping(&mut b, h, b"any text"), vec![]);
}

#[test]
fn empty_text_reports_nothing() {
    let mut b = Boundary::new();
    let h = classic_matcher(&mut b, MatchKind::Standard);
    assert_eq!(collect_sequential(&mut b, h, b""), vec![]);
    assert_eq!(collect_overlapping(&mut b, h, b""), vec![]);
}

#[test]
fn exhausted_cursor_keeps_signalling_end() {
    let mut b = Boundary::new();
    let h = classic_matcher(&mut b, MatchKind::Standard);
    let it = b.find_iter(h, b"ushers").unwrap();
    assert!(b.find_iter_next(it).unwrap().is_some());
    assert!(b.find_iter_next(it).unwrap().is_none());
    assert!(b.find_iter_next(it).unwrap().is_none());
    b.find_iter_delete(it).unwrap();
}
