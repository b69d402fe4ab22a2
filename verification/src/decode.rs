//! Decoding of a pattern set out of the flat byte form the host hands over.
//!
//! Two encodings are supported.  The parallel form is one run of
//! concatenated pattern bytes beside an array of declared lengths; pattern
//! `i` is the slice between the `i`-th and `(i+1)`-th prefix sums of the
//! lengths.  The packed form is one run of bytes in which every pattern is
//! closed by a single zero delimiter byte; a pattern never contains the
//! delimiter.  In both forms the position of a pattern is its identifier.

use vstd::prelude::*;
use vstd::slice::{slice_index_get, slice_subrange, slice_to_vec};

use crate::matcher::{overlapping_matches, sequential_matches};
use crate::{Error, MatchKind};

verus! {

/// The number of bytes that the first `n` declared lengths claim together.
pub open spec fn declared_total(lens: Seq<usize>, n: int) -> int
    decreases n,
{
    if n <= 0 {
        0
    } else {
        declared_total(lens, n - 1) + lens[n - 1]
    }
}

/// The pattern sequence that the parallel encoding describes: pattern `i`
/// is the run of `bytes` between the `i`-th and `(i+1)`-th prefix sums.
pub open spec fn parallel_patterns(bytes: Seq<u8>, lens: Seq<usize>) -> Seq<Seq<u8>> {
    Seq::new(lens.len(), |i: int| bytes.subrange(
        declared_total(lens, i),
        declared_total(lens, i + 1),
    ))
}

/// `p` never contains the packed form's delimiter byte.
pub open spec fn zero_free(p: Seq<u8>) -> bool {
    forall|i: int| 0 <= i < p.len() ==> p[i] != 0
}

/// No pattern of `ps` contains the packed form's delimiter byte.
pub open spec fn all_zero_free(ps: Seq<Seq<u8>>) -> bool {
    forall|i: int| 0 <= i < ps.len() ==> zero_free(#[trigger] ps[i])
}

/// The packed encoding of `ps`: every pattern followed by one zero byte.
pub open spec fn packed_of(ps: Seq<Seq<u8>>) -> Seq<u8>
    decreases ps.len(),
{
    if ps.len() == 0 {
        Seq::empty()
    } else {
        ps[0] + seq![0u8] + packed_of(ps.skip(1))
    }
}

/// The position of the first delimiter byte of `bytes`; the length when
/// there is none.
pub open spec fn first_delim(bytes: Seq<u8>) -> nat
    decreases bytes.len(),
{
    if bytes.len() == 0 {
        0
    } else if bytes[0] == 0 {
        0
    } else {
        1 + first_delim(bytes.skip(1))
    }
}

/// The pattern sequence that a well-formed packed encoding describes:
/// the run up to each delimiter, delimiter after delimiter.
pub open spec fn packed_patterns(bytes: Seq<u8>) -> Seq<Seq<u8>>
    decreases bytes.len(),
{
    if bytes.len() == 0 {
        Seq::empty()
    } else if first_delim(bytes) < bytes.len() {
        seq![bytes.take(first_delim(bytes) as int)] + packed_patterns(
            bytes.skip(first_delim(bytes) as int + 1),
        )
    } else {
        seq![bytes]
    }
}

proof fn lemma_declared_total_mono(lens: Seq<usize>, m: int, n: int)
    requires
        0 <= m <= n,
    ensures
        declared_total(lens, m) <= declared_total(lens, n),
    decreases n,
{
    if m < n {
        lemma_declared_total_mono(lens, m, n - 1);
    }
}

/// Decode the parallel (length-array) form.  Succeeds exactly when the
/// declared lengths stay within the bytes handed over; the decoded
/// patterns are the declared slices, in order.
pub fn decode_parallel(bytes: &[u8], lens: &[usize]) -> (r: Result<Vec<Vec<u8>>, Error>)
    ensures
        r is Ok <==> declared_total(lens@, lens@.len() as int) <= bytes@.len(),
        r is Err ==> r == Err::<Vec<Vec<u8>>, Error>(Error::MalformedInput),
        r is Ok ==> r.unwrap().deep_view() == parallel_patterns(bytes@, lens@),
{
    let n: usize = lens.len();
    let total: usize = bytes.len();
    let mut out: Vec<Vec<u8>> = Vec::new();
    let mut off: usize = 0;
    let mut i: usize = 0;
    while i < n
        invariant
            i <= n,
            n == lens@.len(),
            total == bytes@.len(),
            off == declared_total(lens@, i as int),
            off <= total,
            out@.len() == i,
            forall|j: int| 0 <= j < i ==> #[trigger] out.deep_view()[j] == bytes@.subrange(
                declared_total(lens@, j),
                declared_total(lens@, j + 1),
            ),
        decreases n - i,
    {
        let len_i: usize = *slice_index_get(lens, i);
        if len_i > total - off {
            proof {
                lemma_declared_total_mono(lens@, i as int + 1, n as int);
            }
            return Err(Error::MalformedInput);
        }
        let piece: Vec<u8> = slice_to_vec(slice_subrange(bytes, off, off + len_i));
        let ghost prev = out.deep_view();
        let ghost piece_seq = piece@;
        out.push(piece);
        proof {
            assert(out.deep_view() =~~= prev.push(piece_seq));
        }
        off = off + len_i;
        i = i + 1;
    }
    proof {
        assert(out.deep_view() =~= parallel_patterns(bytes@, lens@));
    }
    Ok(out)
}

/// Decode the packed (delimiter-separated) form.  Succeeds exactly when
/// the bytes are empty or close with the delimiter; the decoded patterns
/// are delimiter-free and encode back to the very bytes handed over.
pub fn decode_packed(bytes: &[u8]) -> (r: Result<Vec<Vec<u8>>, Error>)
    ensures
        r is Ok <==> (bytes@.len() == 0 || bytes@[bytes@.len() - 1] == 0),
        r is Err ==> r == Err::<Vec<Vec<u8>>, Error>(Error::MalformedInput),
        r is Ok ==> all_zero_free(r.unwrap().deep_view()) && packed_of(r.unwrap().deep_view())
            == bytes@ && r.unwrap().deep_view() == packed_patterns(bytes@),
{
    let n: usize = bytes.len();
    let mut out: Vec<Vec<u8>> = Vec::new();
    let mut cur: Vec<u8> = Vec::new();
    let mut i: usize = 0;
    while i < n
        invariant
            i <= n,
            n == bytes@.len(),
            all_zero_free(out.deep_view()),
            zero_free(cur@),
            packed_of(out.deep_view()) + cur@ == bytes@.take(i as int),
        decreases n - i,
    {
        let b: u8 = *slice_index_get(bytes, i);
        if b == 0 {
            let ghost prev_out = out.deep_view();
            let ghost prev_cur = cur@;
            out.push(cur);
            cur = Vec::new();
            proof {
                lemma_packed_of_push(prev_out, prev_cur);
                assert(out.deep_view() =~~= prev_out.push(prev_cur));
                assert(packed_of(prev_out) + prev_cur + seq![0u8] =~= bytes@.take(i as int + 1));
                assert(packed_of(out.deep_view()) + cur@ =~= packed_of(out.deep_view()));
            }
        } else {
            let ghost prev_cur = cur@;
            cur.push(b);
            proof {
                assert(packed_of(out.deep_view()) + prev_cur == bytes@.take(i as int));
                assert(cur@ == prev_cur.push(b));
                assert(b == bytes@[i as int]);
                assert(bytes@.take(i as int + 1) =~= bytes@.take(i as int).push(
                    bytes@[i as int],
                ));
                assert(packed_of(out.deep_view()) + cur@ =~= (packed_of(out.deep_view())
                    + prev_cur).push(b));
                assert(packed_of(out.deep_view()) + cur@ == bytes@.take(i as int + 1));
            }
        }
        i = i + 1;
    }
    proof {
        assert(bytes@.take(n as int) =~= bytes@);
    }
    if cur.len() == 0 {
        proof {
            assert(packed_of(out.deep_view()) + cur@ =~= packed_of(out.deep_view()));
            lemma_packed_of_shape(out.deep_view());
            lemma_packed_patterns_round_trip(bytes@);
            lemma_packed_of_injective(out.deep_view(), packed_patterns(bytes@));
        }
        Ok(out)
    } else {
        proof {
            let whole = packed_of(out.deep_view()) + cur@;
            assert(whole[whole.len() - 1] == cur@[cur@.len() - 1]);
        }
        Err(Error::MalformedInput)
    }
}

/// Appending one pattern to a set appends that pattern and one delimiter
/// to the set's packed encoding.
proof fn lemma_packed_of_push(ps: Seq<Seq<u8>>, p: Seq<u8>)
    ensures
        packed_of(ps.push(p)) == packed_of(ps) + p + seq![0u8],
    decreases ps.len(),
{
    if ps.len() == 0 {
        assert(ps.push(p).skip(1) =~= Seq::<Seq<u8>>::empty());
        assert(packed_of(ps.push(p)) =~= packed_of(ps) + p + seq![0u8]);
    } else {
        assert(ps.push(p).skip(1) =~= ps.skip(1).push(p));
        lemma_packed_of_push(ps.skip(1), p);
        assert(packed_of(ps.push(p)) == ps.push(p)[0] + seq![0u8] + packed_of(
            ps.push(p).skip(1),
        ));
        assert(packed_of(ps.push(p).skip(1)) == packed_of(ps.skip(1)) + p + seq![0u8]);
        assert(ps.push(p)[0] == ps[0]);
        assert(packed_of(ps.push(p)) =~= packed_of(ps) + p + seq![0u8]);
    }
}

proof fn lemma_declared_total_skip(lens: Seq<usize>, i: int)
    requires
        1 <= i <= lens.len(),
    ensures
        declared_total(lens, i) == lens[0] + declared_total(lens.skip(1), i - 1),
    decreases i,
{
    if i > 1 {
        lemma_declared_total_skip(lens, i - 1);
        assert(lens[i - 1] == lens.skip(1)[i - 2]);
    } else {
        assert(declared_total(lens, 0) == 0);
        assert(declared_total(lens.skip(1), 0) == 0);
    }
}

/// Parallel decoding inverts the parallel encoding: slicing the
/// concatenation of `ps` by the lengths of the patterns of `ps` yields
/// `ps` again, pattern for pattern.
pub proof fn lemma_parallel_round_trip(ps: Seq<Seq<u8>>, lens: Seq<usize>)
    requires
        lens.len() == ps.len(),
        forall|i: int| 0 <= i < ps.len() ==> lens[i] == (#[trigger] ps[i]).len(),
    ensures
        ps.flatten().len() == declared_total(lens, lens.len() as int),
        parallel_patterns(ps.flatten(), lens) == ps,
    decreases ps.len(),
{
    if ps.len() == 0 {
        assert(parallel_patterns(ps.flatten(), lens) =~= ps);
    } else {
        let tail = ps.skip(1);
        let tlens = lens.skip(1);
        assert forall|i: int| 0 <= i < tail.len() implies tlens[i] == (
        #[trigger] tail[i]).len() by {
            assert(tail[i] == ps[i + 1]);
            assert(tlens[i] == lens[i + 1]);
        }
        lemma_parallel_round_trip(tail, tlens);
        let f = ps.flatten();
        let l0 = lens[0] as int;
        assert(f == ps[0] + tail.flatten());
        lemma_declared_total_skip(lens, lens.len() as int);
        assert forall|i: int| 0 <= i < lens.len() implies parallel_patterns(f, lens)[i]
            == ps[i] by {
            if i == 0 {
                assert(f.subrange(0, l0) =~= ps[0]);
            } else {
                lemma_declared_total_skip(lens, i);
                lemma_declared_total_skip(lens, i + 1);
                lemma_declared_total_mono(tlens, 0, i - 1);
                lemma_declared_total_mono(tlens, i - 1, i);
                lemma_declared_total_mono(tlens, i, tlens.len() as int);
                assert(f.subrange(
                    l0 + declared_total(tlens, i - 1),
                    l0 + declared_total(tlens, i),
                ) =~= tail.flatten().subrange(
                    declared_total(tlens, i - 1),
                    declared_total(tlens, i),
                ));
                assert(parallel_patterns(tail.flatten(), tlens)[i - 1] == tail[i - 1]);
            }
        }
        assert(parallel_patterns(f, lens) =~= ps);
    }
}

proof fn lemma_first_delim(bytes: Seq<u8>)
    ensures
        first_delim(bytes) <= bytes.len(),
        forall|i: int| 0 <= i < first_delim(bytes) ==> bytes[i] != 0,
        first_delim(bytes) < bytes.len() ==> bytes[first_delim(bytes) as int] == 0,
    decreases bytes.len(),
{
    if bytes.len() > 0 && bytes[0] != 0 {
        lemma_first_delim(bytes.skip(1));
        assert forall|i: int| 0 <= i < first_delim(bytes) implies bytes[i] != 0 by {
            if i > 0 {
                assert(bytes[i] == bytes.skip(1)[i - 1]);
            }
        }
        if first_delim(bytes) < bytes.len() {
            assert(bytes[first_delim(bytes) as int] == bytes.skip(1)[first_delim(
                bytes.skip(1),
            ) as int]);
        }
    }
}

/// For well-formed bytes — empty, or closed by the delimiter — the
/// spec-level packed decoding is delimiter-free and encodes back to the
/// very same bytes.
pub proof fn lemma_packed_patterns_round_trip(bytes: Seq<u8>)
    requires
        bytes.len() == 0 || bytes[bytes.len() - 1] == 0,
    ensures
        all_zero_free(packed_patterns(bytes)),
        packed_of(packed_patterns(bytes)) == bytes,
    decreases bytes.len(),
{
    lemma_first_delim(bytes);
    if bytes.len() == 0 {
        assert(packed_of(packed_patterns(bytes)) =~= bytes);
    } else {
        let k = first_delim(bytes) as int;
        if k == bytes.len() {
            assert(bytes[bytes.len() - 1] != 0);
        }
        let head = bytes.take(k);
        let tail = bytes.skip(k + 1);
        if tail.len() > 0 {
            assert(tail[tail.len() - 1] == bytes[bytes.len() - 1]);
        }
        lemma_packed_patterns_round_trip(tail);
        assert forall|i: int| 0 <= i < head.len() implies head[i] != 0 by {
            assert(head[i] == bytes[i]);
        }
        let ps = packed_patterns(bytes);
        assert(ps == seq![head] + packed_patterns(tail));
        assert forall|i: int| 0 <= i < ps.len() implies zero_free(#[trigger] ps[i]) by {
            if i == 0 {
                assert(ps[0] == head);
            } else {
                assert(ps[i] == packed_patterns(tail)[i - 1]);
            }
        }
        assert(ps.skip(1) =~= packed_patterns(tail));
        assert(packed_of(ps) == ps[0] + seq![0u8] + packed_of(ps.skip(1)));
        assert(bytes[k] == 0);
        assert(packed_of(ps) =~= bytes);
    }
}

/// A delimiter-free pattern sequence is recovered uniquely from its
/// packed encoding: no two such sequences pack to the same bytes.
pub proof fn lemma_packed_of_injective(a: Seq<Seq<u8>>, b: Seq<Seq<u8>>)
    requires
        all_zero_free(a),
        all_zero_free(b),
        packed_of(a) == packed_of(b),
    ensures
        a == b,
    decreases a.len(),
{
    if a.len() == 0 {
        lemma_packed_of_shape(b);
        assert(b =~= a);
    } else {
        lemma_packed_of_shape(a);
        if b.len() == 0 {
            assert(false);
        }
        let pa = a[0];
        let pb = b[0];
        let e = packed_of(a);
        assert(zero_free(pa) && zero_free(pb));
        if pa.len() < pb.len() {
            assert(e[pa.len() as int] == 0);
            assert(e[pa.len() as int] == pb[pa.len() as int]);
            assert(false);
        }
        if pb.len() < pa.len() {
            assert(e[pb.len() as int] == 0);
            assert(e[pb.len() as int] == pa[pb.len() as int]);
            assert(false);
        }
        assert(e == pa + seq![0u8] + packed_of(a.skip(1)));
        assert(e == pb + seq![0u8] + packed_of(b.skip(1)));
        assert forall|k: int| 0 <= k < pa.len() implies pa[k] == pb[k] by {
            assert((pa + seq![0u8] + packed_of(a.skip(1)))[k] == pa[k]);
            assert((pb + seq![0u8] + packed_of(b.skip(1)))[k] == pb[k]);
        }
        assert(pa =~= pb);
        let ta = packed_of(a.skip(1));
        let tb = packed_of(b.skip(1));
        assert(ta =~= e.subrange(pa.len() + 1int, e.len() as int));
        assert(tb =~= e.subrange(pb.len() + 1int, e.len() as int));
        assert forall|i: int| 0 <= i < a.skip(1).len() implies zero_free(
            #[trigger] a.skip(1)[i],
        ) by {
            assert(a.skip(1)[i] == a[i + 1]);
        }
        assert forall|i: int| 0 <= i < b.skip(1).len() implies zero_free(
            #[trigger] b.skip(1)[i],
        ) by {
            assert(b.skip(1)[i] == b[i + 1]);
        }
        lemma_packed_of_injective(a.skip(1), b.skip(1));
        assert forall|i: int| 0 <= i < a.len() implies a[i] == b[i] by {
            if i > 0 {
                assert(a[i] == a.skip(1)[i - 1]);
                assert(b[i] == b.skip(1)[i - 1]);
            }
        }
        assert(a =~= b);
    }
}

/// Round trip: given one and the same delimiter-free pattern content,
/// the parallel encoding and the packed encoding decode to identical
/// pattern sequences — identical pattern identifiers — and matchers
/// built from either decode therefore report identical matches.
pub proof fn lemma_encodings_agree(ps: Seq<Seq<u8>>, lens: Seq<usize>, unpacked: Seq<Seq<u8>>)
    requires
        lens.len() == ps.len(),
        forall|i: int| 0 <= i < ps.len() ==> lens[i] == (#[trigger] ps[i]).len(),
        all_zero_free(ps),
        all_zero_free(unpacked),
        packed_of(unpacked) == packed_of(ps),
    ensures
        parallel_patterns(ps.flatten(), lens) == ps,
        unpacked == ps,
        forall|ci: bool, kind: MatchKind, dfa: bool, text: Seq<u8>|
            #[trigger] sequential_matches(unpacked, ci, kind, dfa, text) == sequential_matches(
                parallel_patterns(ps.flatten(), lens),
                ci,
                kind,
                dfa,
                text,
            ),
        forall|ci: bool, kind: MatchKind, dfa: bool, text: Seq<u8>|
            #[trigger] overlapping_matches(unpacked, ci, kind, dfa, text) == overlapping_matches(
                parallel_patterns(ps.flatten(), lens),
                ci,
                kind,
                dfa,
                text,
            ),
{
    lemma_parallel_round_trip(ps, lens);
    lemma_packed_of_injective(unpacked, ps);
}

/// A packed encoding is empty exactly for the empty pattern set, and a
/// non-empty one closes with the delimiter byte.
proof fn lemma_packed_of_shape(ps: Seq<Seq<u8>>)
    ensures
        packed_of(ps).len() >= ps.len(),
        ps.len() > 0 ==> packed_of(ps).len() > 0 && packed_of(ps)[packed_of(ps).len() - 1] == 0,
    decreases ps.len(),
{
    if ps.len() > 0 {
        lemma_packed_of_shape(ps.skip(1));
        if ps.len() == 1 {
            assert(packed_of(ps.skip(1)) =~= Seq::<u8>::empty());
        }
    }
}

} // verus!
