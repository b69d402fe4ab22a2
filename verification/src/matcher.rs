//! The matcher: one constructed automaton of the outside matching engine,
//! owned together with the pattern set and the configuration it was built
//! from.  Construction happens once; searches read the automaton and
//! never change it.
//!
//! The engine itself is an outside collaborator, reached only through the
//! trusted items of this module.  Its answers are deterministic in the
//! pattern set, the configuration and the text, and the two bodiless spec
//! functions below name them; everything the rest of the crate states
//! about match records is proved from the contracts here.

use vstd::prelude::*;

use crate::{drop_overlaps, end_ordered, lemma_drop_overlaps_identity,
    lemma_ordered_start_lower_bound, lemma_sequential_well_formed_prefix, matches_within,
    non_overlapping, overlapping_well_formed, sequential_well_formed, spans_spell_patterns,
    strictly_ordered_starts, Error, Match, MatchKind};

verus! {

#[verifier::external_type_specification]
#[verifier::external_body]
pub struct ExAhoCorasick(aho_corasick::AhoCorasick);

#[verifier::external_type_specification]
#[verifier::external_body]
pub struct ExBuildError(aho_corasick::BuildError);

/// The records that the engine's non-overlapping search reports for an
/// automaton built from the given pattern set and configuration, run over
/// the given text.
pub uninterp spec fn sequential_matches(
    patterns: Seq<Seq<u8>>,
    case_insensitive: bool,
    kind: MatchKind,
    force_dfa: bool,
    text: Seq<u8>,
) -> Seq<Match>;

/// The records that the engine's overlapping search reports for an
/// automaton built from the given pattern set and configuration, run over
/// the given text.
pub uninterp spec fn overlapping_matches(
    patterns: Seq<Seq<u8>>,
    case_insensitive: bool,
    kind: MatchKind,
    force_dfa: bool,
    text: Seq<u8>,
) -> Seq<Match>;

/// Whether the engine accepts the given pattern set under the given
/// configuration: its accept-or-refuse decision against its fixed
/// construction limits is deterministic in exactly these values.
pub uninterp spec fn engine_accepts(
    patterns: Seq<Seq<u8>>,
    case_insensitive: bool,
    kind: MatchKind,
    force_dfa: bool,
) -> bool;

/// One constructed automaton plus everything it was built from.  The
/// `build` constructor below is the only place that fills the fields, so
/// the automaton of every value of this type was compiled from exactly
/// the recorded pattern set and configuration.
pub struct Matcher {
    automaton: aho_corasick::AhoCorasick,
    patterns: Vec<Vec<u8>>,
    case_insensitive: bool,
    kind: MatchKind,
    force_dfa: bool,
}

impl Matcher {
    /// The pattern set this matcher was built from; a record's
    /// `pattern_id` is an index into it.
    pub closed spec fn patterns(&self) -> Seq<Seq<u8>> {
        self.patterns.deep_view()
    }

    pub closed spec fn case_insensitive(&self) -> bool {
        self.case_insensitive
    }

    pub closed spec fn kind(&self) -> MatchKind {
        self.kind
    }

    pub closed spec fn force_dfa(&self) -> bool {
        self.force_dfa
    }

    /// The sequential records of this matcher over `text`, as named
    /// above.
    pub open spec fn sequential_spec(&self, text: Seq<u8>) -> Seq<Match> {
        sequential_matches(
            self.patterns(),
            self.case_insensitive(),
            self.kind(),
            self.force_dfa(),
            text,
        )
    }

    /// The overlapping records of this matcher over `text`, as named
    /// above.
    pub open spec fn overlapping_spec(&self, text: Seq<u8>) -> Seq<Match> {
        overlapping_matches(
            self.patterns(),
            self.case_insensitive(),
            self.kind(),
            self.force_dfa(),
            text,
        )
    }

    /// No pattern of this matcher is empty.
    pub open spec fn no_empty_pattern(&self) -> bool {
        forall|i: int| 0 <= i < self.patterns().len() ==> (#[trigger] self.patterns()[i]).len()
            > 0
    }

    /// The match-kind policy this matcher was built with.
    pub fn match_kind(&self) -> (k: MatchKind)
        ensures
            k == self.kind(),
    {
        self.kind
    }

    /// Build a matcher that owns the given pattern set and configuration.
    /// Construction succeeds exactly when the engine accepts the set
    /// under that configuration; a refusal is surfaced as
    /// `UnsupportedConfiguration`, never silently downgraded, and
    /// nothing is left allocated in that case.
    pub fn build(
        patterns: Vec<Vec<u8>>,
        case_insensitive: bool,
        kind: MatchKind,
        force_dfa: bool,
    ) -> (r: Result<Matcher, Error>)
        ensures
            r is Ok <==> engine_accepts(patterns.deep_view(), case_insensitive, kind, force_dfa),
            r is Ok ==> r.unwrap().patterns() == patterns.deep_view()
                && r.unwrap().case_insensitive() == case_insensitive && r.unwrap().kind() == kind
                && r.unwrap().force_dfa() == force_dfa,
            r is Err ==> r == Err::<Matcher, Error>(Error::UnsupportedConfiguration),
    {
        match ac_build(&patterns, case_insensitive, kind, force_dfa) {
            Ok(automaton) => Ok(
                Matcher { automaton, patterns, case_insensitive, kind, force_dfa },
            ),
            Err(_) => Err(Error::UnsupportedConfiguration),
        }
    }

    /// All non-overlapping matches over `text`, in increasing position
    /// order, exactly as the engine reports them.  An empty pattern set
    /// yields no record on any text; an empty text yields none when no
    /// pattern is empty; and removing overlaps changes nothing, the
    /// records already standing apart.
    #[verifier::rlimit(50)]
    pub fn find_all(&self, text: &[u8]) -> (r: Vec<Match>)
        ensures
            r@ == self.sequential_spec(text@),
            sequential_well_formed(r@, self.patterns(), text@, self.case_insensitive()),
            drop_overlaps(r@) == r@,
            self.patterns().len() == 0 ==> r@.len() == 0,
            text@.len() == 0 && self.no_empty_pattern() ==> r@.len() == 0,
    {
        let r = ac_find_all(self, text);
        proof {
            lemma_drop_overlaps_identity(r@, 0);
            if r@.len() > text@.len() + 1 {
                lemma_ordered_start_lower_bound(r@, text@.len() as int + 1);
            }
            if self.patterns().len() == 0 && r@.len() > 0 {
                assert(r@[0].pattern_id < 0);
            }
            if text@.len() == 0 && self.no_empty_pattern() && r@.len() > 0 {
                assert(r@[0].start == r@[0].end);
                assert(self.patterns()[r@[0].pattern_id as int].len() == 0);
            }
        }
        r
    }

    /// Every match over `text`, overlapping ones too, in non-decreasing
    /// end order, exactly as the engine reports them; every sequential
    /// record is among them.  The engine offers overlapping enumeration
    /// only under standard match semantics.
    pub fn find_overlapping_all(&self, text: &[u8]) -> (r: Vec<Match>)
        requires
            self.kind() == MatchKind::Standard,
        ensures
            r@ == self.overlapping_spec(text@),
            overlapping_well_formed(r@, self.patterns(), text@, self.case_insensitive()),
            forall|j: int| 0 <= j < self.sequential_spec(text@).len() ==> r@.contains(
                #[trigger] self.sequential_spec(text@)[j],
            ),
            self.patterns().len() == 0 ==> r@.len() == 0,
            text@.len() == 0 && self.no_empty_pattern() ==> r@.len() == 0,
    {
        let r = ac_find_overlapping_all(self, text);
        proof {
            if self.patterns().len() == 0 && r@.len() > 0 {
                assert(r@[0].pattern_id < 0);
            }
            if text@.len() == 0 && self.no_empty_pattern() && r@.len() > 0 {
                assert(r@[0].start == r@[0].end);
                assert(self.patterns()[r@[0].pattern_id as int].len() == 0);
            }
        }
        r
    }

    /// The first `limit` non-overlapping matches over `text` (all of
    /// them, when fewer exist), in one owned buffer: the same records, in
    /// the same order, as the sequential search reports, cut after the
    /// `limit`-th.
    pub fn find_up_to(&self, text: &[u8], limit: usize) -> (r: Vec<Match>)
        ensures
            r@ == if limit as int <= self.sequential_spec(text@).len() {
                self.sequential_spec(text@).take(limit as int)
            } else {
                self.sequential_spec(text@)
            },
            sequential_well_formed(r@, self.patterns(), text@, self.case_insensitive()),
    {
        let mut r = self.find_all(text);
        if r.len() > limit {
            let ghost whole = r@;
            r.truncate(limit);
            proof {
                lemma_sequential_well_formed_prefix(
                    whole,
                    self.patterns(),
                    text@,
                    self.case_insensitive(),
                    limit as int,
                );
                assert(self.sequential_spec(text@).take(limit as int) =~= self.sequential_spec(
                    text@,
                ).subrange(0, limit as int));
            }
        }
        r
    }
}

/// Relies on aho_corasick::AhoCorasickBuilder: `build` compiles the given
/// pattern set under the given configuration into an automaton, or
/// reports why it cannot (a configuration the engine does not support).
/// The decision is a function of the pattern set and the configuration
/// alone — the builder's limits are fixed and its engine auto-selection
/// is deterministic — and `engine_accepts` names it.
#[verifier::external_body]
fn ac_build(
    patterns: &Vec<Vec<u8>>,
    case_insensitive: bool,
    kind: MatchKind,
    force_dfa: bool,
) -> (r: Result<aho_corasick::AhoCorasick, aho_corasick::BuildError>)
    ensures
        r is Ok <==> engine_accepts(patterns.deep_view(), case_insensitive, kind, force_dfa),
{
    let mut builder = aho_corasick::AhoCorasickBuilder::new();
    builder.ascii_case_insensitive(case_insensitive);
    builder.match_kind(match kind {
        MatchKind::Standard => aho_corasick::MatchKind::Standard,
        MatchKind::LeftmostFirst => aho_corasick::MatchKind::LeftmostFirst,
        MatchKind::LeftmostLongest => aho_corasick::MatchKind::LeftmostLongest,
    });
    if force_dfa {
        builder.kind(Some(aho_corasick::AhoCorasickKind::DFA));
    }
    builder.build(patterns)
}

/// Relies on aho_corasick::AhoCorasick::find_iter: the non-overlapping
/// matches of `m`'s automaton over `text`.  `Matcher::build` compiles the
/// automaton from exactly `m`'s recorded pattern set and configuration,
/// so the records are a function of those values and the text, which
/// `sequential_matches` names.  The other clauses restate what the
/// engine documents of the records: each names a pattern of the set and
/// a span inside the text; spans neither overlap nor repeat a start
/// offset (after an empty match the search moves one byte on); and the
/// span's bytes spell out the named pattern, up to ASCII case when so
/// configured.  The other clauses restate what the engine
/// documents of each record: the pattern index is in range, the span lies
/// inside the text with start at or before end, an empty span comes only
/// when the pattern set holds an empty pattern, and the records stand in
/// position order without overlap.
#[verifier::external_body]
fn ac_find_all(m: &Matcher, text: &[u8]) -> (r: Vec<Match>)
    ensures
        r@ == sequential_matches(
            m.patterns(),
            m.case_insensitive(),
            m.kind(),
            m.force_dfa(),
            text@,
        ),
        matches_within(r@, m.patterns().len() as int, text@.len() as int),
        non_overlapping(r@),
        strictly_ordered_starts(r@),
        spans_spell_patterns(r@, m.patterns(), text@, m.case_insensitive()),
{
    let mut out = Vec::new();
    for mm in m.automaton.find_iter(text) {
        out.push(Match { pattern_id: mm.pattern().as_usize(), start: mm.start(), end: mm.end() });
    }
    out
}

/// Relies on aho_corasick::AhoCorasick::find_overlapping_iter: every
/// match of every pattern of `m`'s automaton over `text`, reported in
/// non-decreasing end order, which `overlapping_matches` names (see
/// `ac_find_all` on why the records are a function of `m`'s recorded
/// fields and the text).  The engine offers this search only under
/// standard match semantics and refuses to return otherwise, so the
/// requires leaves every other configuration out.  Each record names a
/// pattern of the set and a span inside the text whose bytes spell that
/// pattern out; and each non-overlapping sequential record is a match,
/// the overlapping search reports all matches, so each of them is among
/// the records.
#[verifier::external_body]
fn ac_find_overlapping_all(m: &Matcher, text: &[u8]) -> (r: Vec<Match>)
    requires
        m.kind() == MatchKind::Standard,
    ensures
        r@ == overlapping_matches(
            m.patterns(),
            m.case_insensitive(),
            m.kind(),
            m.force_dfa(),
            text@,
        ),
        matches_within(r@, m.patterns().len() as int, text@.len() as int),
        end_ordered(r@),
        spans_spell_patterns(r@, m.patterns(), text@, m.case_insensitive()),
        forall|j: int| 0 <= j < m.sequential_spec(text@).len() ==> r@.contains(
            #[trigger] m.sequential_spec(text@)[j],
        ),
{
    let mut out = Vec::new();
    for mm in m.automaton.find_overlapping_iter(text) {
        out.push(Match { pattern_id: mm.pattern().as_usize(), start: mm.start(), end: mm.end() });
    }
    out
}

} // verus!
