//! A boundary layer around a multi-pattern substring search engine.
//!
//! A host that shares no runtime with this module hands pattern sets and
//! texts over as flat byte sequences, receives opaque integer handles for
//! the long-lived objects (matchers and match cursors), and destroys every
//! handle through an explicit, paired operation.  The matching engine
//! itself is an outside collaborator; what this crate states and proves is
//! the boundary protocol: decoding of pattern sets, handle lifecycles, and
//! how every reported match record relates to the engine's answer.

use vstd::prelude::*;

pub mod boundary;
pub mod cursor;
pub mod decode;
pub mod matcher;

verus! {

/// One reported occurrence of a pattern in a searched text: the index of
/// the pattern in the set the matcher was built from, and the half-open
/// byte span `[start, end)` of the occurrence in the text.
#[derive(Clone, Copy, Debug, PartialEq, Eq, Structural)]
pub struct Match {
    pub pattern_id: usize,
    pub start: usize,
    pub end: usize,
}

/// The policy that decides which pattern wins when several could match at
/// overlapping positions; its exact semantics belong to the matching
/// engine and are passed through unchanged.
#[derive(Clone, Copy, Debug, PartialEq, Eq, Structural)]
pub enum MatchKind {
    Standard,
    LeftmostFirst,
    LeftmostLongest,
}

/// The recoverable failure conditions of the boundary operations.
#[derive(Clone, Copy, Debug, PartialEq, Eq, Structural)]
pub enum Error {
    /// A pattern-set encoding declared more bytes than were handed over,
    /// or the packed form did not end with its closing delimiter.
    MalformedInput,
    /// The matching engine refused the requested configuration; the
    /// condition is surfaced, never silently downgraded.
    UnsupportedConfiguration,
    /// A handle that was never issued, or was already destroyed, was used.
    ContractViolation,
}

/// Every record of `s` names one of `n_patterns` patterns and a well-formed
/// span inside a text of `text_len` bytes.
pub open spec fn matches_within(s: Seq<Match>, n_patterns: int, text_len: int) -> bool {
    forall|i: int| 0 <= i < s.len() ==> (#[trigger] s[i]).pattern_id < n_patterns
        && s[i].start <= s[i].end && s[i].end <= text_len
}

/// The records of `s` stand in increasing position order and no two spans
/// overlap: each record ends at or before the next one starts.
pub open spec fn non_overlapping(s: Seq<Match>) -> bool {
    forall|i: int| 0 <= i && i + 1 < s.len() ==> (#[trigger] s[i]).end <= s[i + 1].start
}

/// The records of `s` start at strictly increasing offsets: no two
/// records at one offset.
pub open spec fn strictly_ordered_starts(s: Seq<Match>) -> bool {
    forall|i: int| 0 <= i && i + 1 < s.len() ==> (#[trigger] s[i]).start < s[i + 1].start
}

/// The ends of the records of `s` never decrease.
pub open spec fn end_ordered(s: Seq<Match>) -> bool {
    forall|i: int| 0 <= i && i + 1 < s.len() ==> (#[trigger] s[i]).end <= s[i + 1].end
}

/// Byte `a` equals byte `b`, or the two are the same ASCII letter in
/// opposite cases.
pub open spec fn ascii_case_eq(a: u8, b: u8) -> bool {
    a == b || (97 <= a && a <= 122 && a == b + 32) || (65 <= a && a <= 90 && b == a + 32)
}

/// The text bytes under `m`'s span spell out `pattern`: byte for byte,
/// or up to ASCII case when `ci` is set.
pub open spec fn span_spells(text: Seq<u8>, m: Match, pattern: Seq<u8>, ci: bool) -> bool {
    m.end - m.start == pattern.len() && forall|k: int| 0 <= k < pattern.len() ==> (if ci {
        ascii_case_eq(text[m.start + k], #[trigger] pattern[k])
    } else {
        text[m.start + k] == pattern[k]
    })
}

/// Every record of `s` identifies a pattern whose bytes its span spells
/// out in `text`.
pub open spec fn spans_spell_patterns(
    s: Seq<Match>,
    patterns: Seq<Seq<u8>>,
    text: Seq<u8>,
    ci: bool,
) -> bool {
    forall|i: int| 0 <= i < s.len() ==> span_spells(
        text,
        #[trigger] s[i],
        patterns[s[i].pattern_id as int],
        ci,
    )
}

/// Everything the sequential (non-overlapping) search guarantees of its
/// record sequence over `patterns` and `text`: records name patterns of
/// the set and spans inside the text, stand apart in strictly increasing
/// start order, number at most one more than the text has bytes, and
/// each span spells out its pattern.
pub open spec fn sequential_well_formed(
    s: Seq<Match>,
    patterns: Seq<Seq<u8>>,
    text: Seq<u8>,
    ci: bool,
) -> bool {
    matches_within(s, patterns.len() as int, text.len() as int) && non_overlapping(s)
        && strictly_ordered_starts(s) && s.len() <= text.len() + 1 && spans_spell_patterns(
        s,
        patterns,
        text,
        ci,
    )
}

/// Everything the overlapping search guarantees of its record sequence:
/// records name patterns of the set and spans inside the text, come in
/// non-decreasing end order, and each span spells out its pattern.
pub open spec fn overlapping_well_formed(
    s: Seq<Match>,
    patterns: Seq<Seq<u8>>,
    text: Seq<u8>,
    ci: bool,
) -> bool {
    matches_within(s, patterns.len() as int, text.len() as int) && end_ordered(s)
        && spans_spell_patterns(s, patterns, text, ci)
}

/// In a strictly start-ordered sequence the `i`-th record starts at or
/// after offset `i`.
pub proof fn lemma_ordered_start_lower_bound(s: Seq<Match>, i: int)
    requires
        strictly_ordered_starts(s),
        0 <= i < s.len(),
    ensures
        s[i].start >= i,
    decreases i,
{
    if i > 0 {
        lemma_ordered_start_lower_bound(s, i - 1);
    }
}

/// Every guarantee of a sequential record sequence carries over to each
/// of its prefixes.
pub proof fn lemma_sequential_well_formed_prefix(
    s: Seq<Match>,
    patterns: Seq<Seq<u8>>,
    text: Seq<u8>,
    ci: bool,
    n: int,
)
    requires
        sequential_well_formed(s, patterns, text, ci),
        0 <= n <= s.len(),
    ensures
        sequential_well_formed(s.subrange(0, n), patterns, text, ci),
{
    let p = s.subrange(0, n);
    assert forall|i: int| 0 <= i < p.len() implies (#[trigger] p[i]).pattern_id < patterns.len()
        && p[i].start <= p[i].end && p[i].end <= text.len() by {
        assert(p[i] == s[i]);
    }
    assert forall|i: int| 0 <= i && i + 1 < p.len() implies (#[trigger] p[i]).end
        <= p[i + 1].start && p[i].start < p[i + 1].start by {
        assert(p[i] == s[i] && p[i + 1] == s[i + 1]);
    }
    assert forall|i: int| 0 <= i < p.len() implies span_spells(
        text,
        #[trigger] p[i],
        patterns[p[i].pattern_id as int],
        ci,
    ) by {
        assert(p[i] == s[i]);
    }
}

/// Greedy overlap removal: keep a record when its span starts at or after
/// `floor`, the end of the last record kept so far.
pub open spec fn drop_overlaps_from(s: Seq<Match>, floor: int) -> Seq<Match>
    decreases s.len(),
{
    if s.len() == 0 {
        Seq::empty()
    } else if floor <= s[0].start {
        seq![s[0]] + drop_overlaps_from(s.skip(1), s[0].end as int)
    } else {
        drop_overlaps_from(s.skip(1), floor)
    }
}

/// `s` with every record that overlaps an earlier kept record removed.
pub open spec fn drop_overlaps(s: Seq<Match>) -> Seq<Match> {
    drop_overlaps_from(s, 0)
}

/// A sequence of well-formed, ordered, pairwise non-overlapping records is
/// left exactly as it is by overlap removal: the non-overlap guarantee of
/// the sequential search is idempotent.
pub proof fn lemma_drop_overlaps_identity(s: Seq<Match>, floor: int)
    requires
        forall|i: int| 0 <= i < s.len() ==> (#[trigger] s[i]).start <= s[i].end,
        non_overlapping(s),
        s.len() > 0 ==> floor <= s[0].start,
    ensures
        drop_overlaps_from(s, floor) == s,
    decreases s.len(),
{
    if s.len() == 0 {
        assert(drop_overlaps_from(s, floor) =~= s);
    } else {
        let t = s.skip(1);
        assert forall|i: int| 0 <= i < t.len() implies (#[trigger] t[i]).start <= t[i].end by {
            assert(t[i] == s[i + 1]);
        }
        assert forall|i: int| 0 <= i && i + 1 < t.len() implies (#[trigger] t[i]).end
            <= t[i + 1].start by {
            assert(t[i] == s[i + 1] && t[i + 1] == s[i + 2]);
        }
        if t.len() > 0 {
            assert(t[0] == s[1]);
            assert(s[0].end <= s[1].start);
        }
        lemma_drop_overlaps_identity(t, s[0].end as int);
        assert(seq![s[0]] + t =~= s);
    }
}

} // verus!
