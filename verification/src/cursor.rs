//! The match cursor: the one-directional, single-consumer iterator object
//! behind both iterator handle kinds.
//!
//! A cursor is opened over one matcher and one text, owns every record of
//! that search from the start (so it depends on no host-side buffer
//! staying stable), and hands them out one per advance call.  Once the
//! records are exhausted it keeps signalling end-of-sequence; that is not
//! an error.  The two opening operations differ only in which search
//! fills the cursor: the sequential one or the overlapping one.

use vstd::prelude::*;

use crate::matcher::Matcher;
use crate::{overlapping_well_formed, sequential_well_formed, Match, MatchKind};

verus! {

pub struct MatchCursor {
    found: Vec<Match>,
    pos: usize,
}

impl MatchCursor {
    /// Every record this cursor will hand out, in order.
    pub closed spec fn found_seq(&self) -> Seq<Match> {
        self.found@
    }

    /// How many records have been handed out already.
    pub closed spec fn position(&self) -> int {
        self.pos as int
    }

    /// How one advance call relates the new cursor state and its answer
    /// to the old state: the record under the cursor and one step
    /// forward, or the end-of-sequence signal and no movement.
    pub open spec fn stepped(before: MatchCursor, after: MatchCursor, out: Option<Match>) -> bool {
        after.found_seq() == before.found_seq() && if before.position()
            < before.found_seq().len() {
            out == Some(before.found_seq()[before.position()]) && after.position()
                == before.position() + 1
        } else {
            out is None && after.position() == before.position()
        }
    }

    /// A cursor over the sequential (non-overlapping) records of
    /// `matcher` for `text`, positioned before the first record.
    pub fn open_sequential(matcher: &Matcher, text: &[u8]) -> (c: MatchCursor)
        ensures
            c.found_seq() == matcher.sequential_spec(text@),
            sequential_well_formed(
                c.found_seq(),
                matcher.patterns(),
                text@,
                matcher.case_insensitive(),
            ),
            c.position() == 0,
    {
        MatchCursor { found: matcher.find_all(text), pos: 0 }
    }

    /// A cursor over the overlapping records of `matcher` for `text`,
    /// positioned before the first record.
    pub fn open_overlapping(matcher: &Matcher, text: &[u8]) -> (c: MatchCursor)
        requires
            matcher.kind() == MatchKind::Standard,
        ensures
            c.found_seq() == matcher.overlapping_spec(text@),
            overlapping_well_formed(
                c.found_seq(),
                matcher.patterns(),
                text@,
                matcher.case_insensitive(),
            ),
            forall|j: int| 0 <= j < matcher.sequential_spec(text@).len() ==> c.found_seq()
                .contains(#[trigger] matcher.sequential_spec(text@)[j]),
            c.position() == 0,
    {
        MatchCursor { found: matcher.find_overlapping_all(text), pos: 0 }
    }

    /// Hand out the next record, or signal end-of-sequence once every
    /// record has been handed out.
    pub fn advance(&mut self) -> (r: Option<Match>)
        ensures
            MatchCursor::stepped(*old(self), *final(self), r),
    {
        if self.pos < self.found.len() {
            let m = self.found[self.pos];
            self.pos = self.pos + 1;
            Some(m)
        } else {
            None
        }
    }
}

} // verus!
