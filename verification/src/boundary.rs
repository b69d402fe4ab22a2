//! The boundary: opaque integer handles for every long-lived object, one
//! table per object kind, and an explicit, paired destroy operation for
//! each handle.
//!
//! The host and this module share no runtime, so every object the host
//! keeps across calls is referenced by a handle the module issued.  A
//! slot is filled when its handle is issued, cleared by the paired
//! destroy operation, and never reused; a destroyed or never-issued
//! handle is therefore recognized and refused as a contract violation
//! instead of becoming undefined behaviour.  The three object kinds
//! (matcher, sequential cursor, overlapping cursor) live in separate
//! tables, so a handle of one kind can never stand in for another.

use vstd::prelude::*;

use crate::cursor::MatchCursor;
use crate::decode::{
    all_zero_free, decode_packed, decode_parallel, declared_total, packed_of, packed_patterns,
    parallel_patterns,
};
use crate::matcher::{engine_accepts, Matcher};
use crate::{overlapping_well_formed, sequential_well_formed, Error, Match, MatchKind};

verus! {

/// `after` is `before` with one freshly issued, filled slot `h` at its
/// end and every earlier slot unchanged.
pub open spec fn slot_pushed<T>(before: Seq<Option<T>>, after: Seq<Option<T>>, h: int) -> bool {
    h == before.len() && after.len() == before.len() + 1 && (forall|j: int|
        0 <= j < before.len() ==> after[j] == before[j]) && after[h] is Some
}

/// `after` is `before` with at most slot `h` changed.
pub open spec fn slots_same_but<T>(before: Seq<Option<T>>, after: Seq<Option<T>>, h: int) -> bool {
    after.len() == before.len() && (forall|j: int|
        0 <= j < before.len() && j != h ==> after[j] == before[j])
}

/// The module's side of the boundary.
pub struct Boundary {
    matchers: Vec<Option<Matcher>>,
    sequential_cursors: Vec<Option<MatchCursor>>,
    overlapping_cursors: Vec<Option<MatchCursor>>,
}

impl Boundary {
    pub closed spec fn matchers_view(&self) -> Seq<Option<Matcher>> {
        self.matchers@
    }

    pub closed spec fn sequential_view(&self) -> Seq<Option<MatchCursor>> {
        self.sequential_cursors@
    }

    pub closed spec fn overlapping_view(&self) -> Seq<Option<MatchCursor>> {
        self.overlapping_cursors@
    }

    /// `h` is a matcher handle that was issued and not yet destroyed.
    pub open spec fn matcher_live(&self, h: int) -> bool {
        0 <= h < self.matchers_view().len() && self.matchers_view()[h] is Some
    }

    pub open spec fn matcher_at(&self, h: int) -> Matcher {
        self.matchers_view()[h].unwrap()
    }

    pub open spec fn sequential_live(&self, h: int) -> bool {
        0 <= h < self.sequential_view().len() && self.sequential_view()[h] is Some
    }

    pub open spec fn sequential_at(&self, h: int) -> MatchCursor {
        self.sequential_view()[h].unwrap()
    }

    pub open spec fn overlapping_live(&self, h: int) -> bool {
        0 <= h < self.overlapping_view().len() && self.overlapping_view()[h] is Some
    }

    pub open spec fn overlapping_at(&self, h: int) -> MatchCursor {
        self.overlapping_view()[h].unwrap()
    }

    /// A fresh boundary with no handle issued yet.
    pub fn new() -> (b: Boundary)
        ensures
            b.matchers_view().len() == 0,
            b.sequential_view().len() == 0,
            b.overlapping_view().len() == 0,
    {
        Boundary {
            matchers: Vec::new(),
            sequential_cursors: Vec::new(),
            overlapping_cursors: Vec::new(),
        }
    }

    /// Decode the parallel-array pattern encoding, build a matcher from
    /// it and issue its handle.  The decoded set is rejected as
    /// `MalformedInput` exactly when its declared lengths reach past the
    /// bytes handed over; a configuration the engine refuses is surfaced
    /// as `UnsupportedConfiguration`; on any failure no handle is issued
    /// and nothing is kept.
    pub fn new_matcher(
        &mut self,
        pattern_bytes: &[u8],
        pattern_lens: &[usize],
        ascii_case_insensitive: bool,
        force_dfa: bool,
        match_kind: MatchKind,
    ) -> (r: Result<usize, Error>)
        ensures
            final(self).sequential_view() == old(self).sequential_view(),
            final(self).overlapping_view() == old(self).overlapping_view(),
            r is Ok <==> declared_total(pattern_lens@, pattern_lens@.len() as int)
                <= pattern_bytes@.len() && engine_accepts(
                parallel_patterns(pattern_bytes@, pattern_lens@),
                ascii_case_insensitive,
                match_kind,
                force_dfa,
            ),
            r == Err::<usize, Error>(Error::MalformedInput) <==> declared_total(
                pattern_lens@,
                pattern_lens@.len() as int,
            ) > pattern_bytes@.len(),
            r is Err ==> final(self).matchers_view() == old(self).matchers_view() && (r
                == Err::<usize, Error>(Error::MalformedInput) || r == Err::<usize, Error>(
                Error::UnsupportedConfiguration,
            )),
            r is Ok ==> slot_pushed(
                old(self).matchers_view(),
                final(self).matchers_view(),
                r.unwrap() as int,
            ) && final(self).matcher_at(r.unwrap() as int).patterns() == parallel_patterns(
                pattern_bytes@,
                pattern_lens@,
            ) && final(self).matcher_at(r.unwrap() as int).case_insensitive()
                == ascii_case_insensitive && final(self).matcher_at(r.unwrap() as int).kind()
                == match_kind && final(self).matcher_at(r.unwrap() as int).force_dfa()
                == force_dfa,
    {
        let patterns: Vec<Vec<u8>> = match decode_parallel(pattern_bytes, pattern_lens) {
            Ok(p) => p,
            Err(e) => {
                return Err(e);
            },
        };
        let m: Matcher = match Matcher::build(
            patterns,
            ascii_case_insensitive,
            match_kind,
            force_dfa,
        ) {
            Ok(m) => m,
            Err(e) => {
                return Err(e);
            },
        };
        let h: usize = self.matchers.len();
        self.matchers.push(Some(m));
        Ok(h)
    }

    /// Decode the packed delimiter-separated pattern encoding, build a
    /// matcher from it and issue its handle.  The bytes are rejected as
    /// `MalformedInput` exactly when they are non-empty and do not close
    /// with the delimiter byte.
    pub fn new_matcher_packed(
        &mut self,
        pattern_bytes: &[u8],
        ascii_case_insensitive: bool,
        force_dfa: bool,
        match_kind: MatchKind,
    ) -> (r: Result<usize, Error>)
        ensures
            final(self).sequential_view() == old(self).sequential_view(),
            final(self).overlapping_view() == old(self).overlapping_view(),
            r is Ok <==> (pattern_bytes@.len() == 0 || pattern_bytes@[pattern_bytes@.len() - 1]
                == 0) && engine_accepts(
                packed_patterns(pattern_bytes@),
                ascii_case_insensitive,
                match_kind,
                force_dfa,
            ),
            r == Err::<usize, Error>(Error::MalformedInput) <==> pattern_bytes@.len() > 0
                && pattern_bytes@[pattern_bytes@.len() - 1] != 0,
            r is Err ==> final(self).matchers_view() == old(self).matchers_view() && (r
                == Err::<usize, Error>(Error::MalformedInput) || r == Err::<usize, Error>(
                Error::UnsupportedConfiguration,
            )),
            r is Ok ==> slot_pushed(
                old(self).matchers_view(),
                final(self).matchers_view(),
                r.unwrap() as int,
            ) && all_zero_free(final(self).matcher_at(r.unwrap() as int).patterns()) && packed_of(
                final(self).matcher_at(r.unwrap() as int).patterns(),
            ) == pattern_bytes@ && final(self).matcher_at(r.unwrap() as int).case_insensitive()
                == ascii_case_insensitive && final(self).matcher_at(r.unwrap() as int).kind()
                == match_kind && final(self).matcher_at(r.unwrap() as int).force_dfa()
                == force_dfa,
    {
        let patterns: Vec<Vec<u8>> = match decode_packed(pattern_bytes) {
            Ok(p) => p,
            Err(e) => {
                return Err(e);
            },
        };
        let m: Matcher = match Matcher::build(
            patterns,
            ascii_case_insensitive,
            match_kind,
            force_dfa,
        ) {
            Ok(m) => m,
            Err(e) => {
                return Err(e);
            },
        };
        let h: usize = self.matchers.len();
        self.matchers.push(Some(m));
        Ok(h)
    }

    /// Destroy a matcher handle: the paired release for `new_matcher`.
    /// The handle's slot is cleared exactly once; a second destruction,
    /// or one of a handle never issued, is refused.
    pub fn delete_matcher(&mut self, handle: usize) -> (r: Result<(), Error>)
        ensures
            final(self).sequential_view() == old(self).sequential_view(),
            final(self).overlapping_view() == old(self).overlapping_view(),
            r is Ok <==> old(self).matcher_live(handle as int),
            r is Ok ==> final(self).matchers_view() == old(self).matchers_view().update(
                handle as int,
                None,
            ),
            r is Err ==> r == Err::<(), Error>(Error::ContractViolation) && final(self).matchers_view() == old(self).matchers_view(),
    {
        if handle >= self.matchers.len() {
            return Err(Error::ContractViolation);
        }
        let slot: Option<Matcher> = self.matchers.remove(handle);
        let live: bool = slot.is_some();
        self.matchers.insert(handle, None);
        proof {
            if live {
                assert(self.matchers@ =~= old(self).matchers@.update(handle as int, None));
            } else {
                assert(self.matchers@ =~= old(self).matchers@);
            }
        }
        if live {
            Ok(())
        } else {
            Err(Error::ContractViolation)
        }
    }

    /// Open a sequential iterator over `text` for a live matcher handle:
    /// the text is scanned now, the records belong to the new cursor,
    /// and a cursor handle is issued.
    pub fn find_iter(&mut self, matcher: usize, text: &[u8]) -> (r: Result<usize, Error>)
        ensures
            final(self).matchers_view() == old(self).matchers_view(),
            final(self).overlapping_view() == old(self).overlapping_view(),
            r is Ok <==> old(self).matcher_live(matcher as int),
            r is Err ==> r == Err::<usize, Error>(Error::ContractViolation) && final(self).sequential_view() == old(self).sequential_view(),
            r is Ok ==> slot_pushed(
                old(self).sequential_view(),
                final(self).sequential_view(),
                r.unwrap() as int,
            ) && final(self).sequential_at(r.unwrap() as int).found_seq() == old(self).matcher_at(
                matcher as int,
            ).sequential_spec(text@) && sequential_well_formed(
                final(self).sequential_at(r.unwrap() as int).found_seq(),
                old(self).matcher_at(matcher as int).patterns(),
                text@,
                old(self).matcher_at(matcher as int).case_insensitive(),
            ) && final(self).sequential_at(r.unwrap() as int).position() == 0,
    {
        if matcher >= self.matchers.len() {
            return Err(Error::ContractViolation);
        }
        let c: MatchCursor = match &self.matchers[matcher] {
            Some(m) => MatchCursor::open_sequential(m, text),
            None => {
                return Err(Error::ContractViolation);
            },
        };
        let h: usize = self.sequential_cursors.len();
        self.sequential_cursors.push(Some(c));
        Ok(h)
    }

    /// Advance a sequential cursor: its next record, or the repeatable
    /// end-of-sequence signal (`None`) once the records are exhausted.
    pub fn find_iter_next(&mut self, handle: usize) -> (r: Result<Option<Match>, Error>)
        ensures
            final(self).matchers_view() == old(self).matchers_view(),
            final(self).overlapping_view() == old(self).overlapping_view(),
            r is Ok <==> old(self).sequential_live(handle as int),
            r is Err ==> r == Err::<Option<Match>, Error>(Error::ContractViolation) && final(self).sequential_view() == old(self).sequential_view(),
            r is Ok ==> slots_same_but(
                old(self).sequential_view(),
                final(self).sequential_view(),
                handle as int,
            ) && final(self).sequential_live(handle as int) && MatchCursor::stepped(
                old(self).sequential_at(handle as int),
                final(self).sequential_at(handle as int),
                r.unwrap(),
            ),
    {
        if handle >= self.sequential_cursors.len() {
            return Err(Error::ContractViolation);
        }
        let slot: Option<MatchCursor> = self.sequential_cursors.remove(handle);
        match slot {
            Some(mut c) => {
                let out: Option<Match> = c.advance();
                self.sequential_cursors.insert(handle, Some(c));
                proof {
                    assert(slots_same_but(
                        old(self).sequential_cursors@,
                        self.sequential_cursors@,
                        handle as int,
                    ));
                }
                Ok(out)
            },
            None => {
                self.sequential_cursors.insert(handle, None);
                proof {
                    assert(self.sequential_cursors@ =~= old(self).sequential_cursors@);
                }
                Err(Error::ContractViolation)
            },
        }
    }

    /// Destroy a sequential cursor handle: the paired release for
    /// `find_iter`, independent of whether the cursor was exhausted.
    /// The owning matcher handle is not touched.
    pub fn find_iter_delete(&mut self, handle: usize) -> (r: Result<(), Error>)
        ensures
            final(self).matchers_view() == old(self).matchers_view(),
            final(self).overlapping_view() == old(self).overlapping_view(),
            r is Ok <==> old(self).sequential_live(handle as int),
            r is Ok ==> final(self).sequential_view() == old(self).sequential_view().update(
                handle as int,
                None,
            ),
            r is Err ==> r == Err::<(), Error>(Error::ContractViolation) && final(self).sequential_view() == old(self).sequential_view(),
    {
        if handle >= self.sequential_cursors.len() {
            return Err(Error::ContractViolation);
        }
        let slot: Option<MatchCursor> = self.sequential_cursors.remove(handle);
        let live: bool = slot.is_some();
        self.sequential_cursors.insert(handle, None);
        proof {
            if live {
                assert(self.sequential_cursors@ =~= old(self).sequential_cursors@.update(
                    handle as int,
                    None,
                ));
            } else {
                assert(self.sequential_cursors@ =~= old(self).sequential_cursors@);
            }
        }
        if live {
            Ok(())
        } else {
            Err(Error::ContractViolation)
        }
    }

    /// Open an overlapping iterator over `text` for a live matcher
    /// handle.  The engine enumerates overlapping matches only under
    /// standard match semantics, so any other configuration is refused
    /// as `UnsupportedConfiguration`.
    pub fn overlapping_iter(&mut self, matcher: usize, text: &[u8]) -> (r: Result<usize, Error>)
        ensures
            final(self).matchers_view() == old(self).matchers_view(),
            final(self).sequential_view() == old(self).sequential_view(),
            r is Ok <==> old(self).matcher_live(matcher as int) && old(self).matcher_at(
                matcher as int,
            ).kind() == MatchKind::Standard,
            r == Err::<usize, Error>(Error::ContractViolation) <==> !old(self).matcher_live(
                matcher as int,
            ),
            r is Err ==> final(self).overlapping_view() == old(self).overlapping_view() && (r
                == Err::<usize, Error>(Error::ContractViolation) || r == Err::<usize, Error>(
                Error::UnsupportedConfiguration,
            )),
            r is Ok ==> slot_pushed(
                old(self).overlapping_view(),
                final(self).overlapping_view(),
                r.unwrap() as int,
            ) && final(self).overlapping_at(r.unwrap() as int).found_seq() == old(self).matcher_at(
                matcher as int,
            ).overlapping_spec(text@) && overlapping_well_formed(
                final(self).overlapping_at(r.unwrap() as int).found_seq(),
                old(self).matcher_at(matcher as int).patterns(),
                text@,
                old(self).matcher_at(matcher as int).case_insensitive(),
            ) && (forall|j: int|
                0 <= j < old(self).matcher_at(matcher as int).sequential_spec(text@).len()
                    ==> final(self).overlapping_at(r.unwrap() as int).found_seq().contains(
                    #[trigger] old(self).matcher_at(matcher as int).sequential_spec(text@)[j],
                )) && final(self).overlapping_at(r.unwrap() as int).position() == 0,
    {
        if matcher >= self.matchers.len() {
            return Err(Error::ContractViolation);
        }
        let c: MatchCursor = match &self.matchers[matcher] {
            Some(m) => {
                if m.match_kind() == MatchKind::Standard {
                    MatchCursor::open_overlapping(m, text)
                } else {
                    return Err(Error::UnsupportedConfiguration);
                }
            },
            None => {
                return Err(Error::ContractViolation);
            },
        };
        let h: usize = self.overlapping_cursors.len();
        self.overlapping_cursors.push(Some(c));
        Ok(h)
    }

    /// Advance an overlapping cursor: its next record, or the repeatable
    /// end-of-sequence signal once the records are exhausted.
    pub fn overlapping_iter_next(&mut self, handle: usize) -> (r: Result<Option<Match>, Error>)
        ensures
            final(self).matchers_view() == old(self).matchers_view(),
            final(self).sequential_view() == old(self).sequential_view(),
            r is Ok <==> old(self).overlapping_live(handle as int),
            r is Err ==> r == Err::<Option<Match>, Error>(Error::ContractViolation) && final(self).overlapping_view() == old(self).overlapping_view(),
            r is Ok ==> slots_same_but(
                old(self).overlapping_view(),
                final(self).overlapping_view(),
                handle as int,
            ) && final(self).overlapping_live(handle as int) && MatchCursor::stepped(
                old(self).overlapping_at(handle as int),
                final(self).overlapping_at(handle as int),
                r.unwrap(),
            ),
    {
        if handle >= self.overlapping_cursors.len() {
            return Err(Error::ContractViolation);
        }
        let slot: Option<MatchCursor> = self.overlapping_cursors.remove(handle);
        match slot {
            Some(mut c) => {
                let out: Option<Match> = c.advance();
                self.overlapping_cursors.insert(handle, Some(c));
                proof {
                    assert(slots_same_but(
                        old(self).overlapping_cursors@,
                        self.overlapping_cursors@,
                        handle as int,
                    ));
                }
                Ok(out)
            },
            None => {
                self.overlapping_cursors.insert(handle, None);
                proof {
                    assert(self.overlapping_cursors@ =~= old(self).overlapping_cursors@);
                }
                Err(Error::ContractViolation)
            },
        }
    }

    /// Destroy an overlapping cursor handle: the paired release for
    /// `overlapping_iter`.
    pub fn overlapping_iter_delete(&mut self, handle: usize) -> (r: Result<(), Error>)
        ensures
            final(self).matchers_view() == old(self).matchers_view(),
            final(self).sequential_view() == old(self).sequential_view(),
            r is Ok <==> old(self).overlapping_live(handle as int),
            r is Ok ==> final(self).overlapping_view() == old(self).overlapping_view().update(
                handle as int,
                None,
            ),
            r is Err ==> r == Err::<(), Error>(Error::ContractViolation) && final(self).overlapping_view() == old(self).overlapping_view(),
    {
        if handle >= self.overlapping_cursors.len() {
            return Err(Error::ContractViolation);
        }
        let slot: Option<MatchCursor> = self.overlapping_cursors.remove(handle);
        let live: bool = slot.is_some();
        self.overlapping_cursors.insert(handle, None);
        proof {
            if live {
                assert(self.overlapping_cursors@ =~= old(self).overlapping_cursors@.update(
                    handle as int,
                    None,
                ));
            } else {
                assert(self.overlapping_cursors@ =~= old(self).overlapping_cursors@);
            }
        }
        if live {
            Ok(())
        } else {
            Err(Error::ContractViolation)
        }
    }

    /// Run the whole non-overlapping search in one round trip and hand
    /// back one owned buffer of at most `limit` records: exactly the
    /// first `limit` records the sequential search reports (all of them,
    /// when fewer exist).  The buffer is returned through the paired
    /// `matches_delete`, never through anything else.
    pub fn matches(&self, matcher: usize, text: &[u8], limit: usize) -> (r: Result<
        Vec<Match>,
        Error,
    >)
        ensures
            r is Ok <==> self.matcher_live(matcher as int),
            r is Err ==> r == Err::<Vec<Match>, Error>(Error::ContractViolation),
            r is Ok ==> r.unwrap()@ == (if limit as int <= self.matcher_at(
                matcher as int,
            ).sequential_spec(text@).len() {
                self.matcher_at(matcher as int).sequential_spec(text@).take(limit as int)
            } else {
                self.matcher_at(matcher as int).sequential_spec(text@)
            }) && sequential_well_formed(
                r.unwrap()@,
                self.matcher_at(matcher as int).patterns(),
                text@,
                self.matcher_at(matcher as int).case_insensitive(),
            ),
    {
        if matcher >= self.matchers.len() {
            return Err(Error::ContractViolation);
        }
        match &self.matchers[matcher] {
            Some(m) => Ok(m.find_up_to(text, limit)),
            None => Err(Error::ContractViolation),
        }
    }
}

/// Take a bulk match buffer back and release it: the paired destroy
/// operation for `Boundary::matches`.  The buffer came from this
/// module's allocator, so it is this module that reclaims it.
pub fn matches_delete(buffer: Vec<Match>) {
    let _ = buffer;
}

} // verus!
