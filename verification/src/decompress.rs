//! The coordinate-mapping primitive: given an offset and a limit in
//! homopolymer-compressed space and the uncompressed byte sequence, compute
//! the corresponding positions in uncompressed space.

use vstd::prelude::*;

verus! {

/// Number of homopolymer-run boundaries strictly before uncompressed
/// position `u`: the count of positions `j < u` with `seq[j] != seq[j + 1]`.
pub open spec fn diffs(seq: Seq<u8>, u: int) -> int
    decreases u,
{
    if u <= 0 {
        0
    } else {
        diffs(seq, u - 1) + if seq[u - 1] != seq[u] {
            1int
        } else {
            0int
        }
    }
}

/// The length of `seq` in homopolymer-compressed space: the number of
/// maximal stretches of equal bytes.
pub open spec fn runs(seq: Seq<u8>) -> int {
    if seq.len() == 0 {
        0
    } else {
        diffs(seq, seq.len() - 1) + 1
    }
}

/// The boundary scan of `decompress`, resumed at uncompressed position `u`
/// with the compressed counter at `c`: the uncompressed position at which
/// the counter first reaches `target`, or one past the last scanned pair
/// when it never does.
pub open spec fn shift_from(seq: Seq<u8>, target: int, u: int, c: int) -> int
    decreases seq.len() - u,
{
    if u < seq.len() - 1 {
        if c == target {
            u
        } else {
            shift_from(
                seq,
                target,
                u + 1,
                c + if seq[u] != seq[u + 1] {
                    1int
                } else {
                    0int
                },
            )
        }
    } else {
        if c == target {
            u
        } else {
            u + 1
        }
    }
}

/// The uncompressed position corresponding to compressed position `target`.
pub open spec fn shift(seq: Seq<u8>, target: int) -> int {
    shift_from(seq, target, 0, 0)
}

proof fn lemma_diffs_monotone(seq: Seq<u8>, u: int, v: int)
    requires
        0 <= u <= v,
    ensures
        diffs(seq, u) <= diffs(seq, v) <= diffs(seq, u) + (v - u),
    decreases v - u,
{
    if u < v {
        lemma_diffs_monotone(seq, u, v - 1);
    }
}

proof fn lemma_shift_from_props(seq: Seq<u8>, target: int, u: int, c: int)
    requires
        seq.len() >= 1,
        0 <= u <= seq.len() - 1,
        c == diffs(seq, u),
        c <= target,
        target <= runs(seq),
    ensures
        ({
            let r = shift_from(seq, target, u, c);
            if target <= diffs(seq, seq.len() - 1) {
                u <= r <= seq.len() - 1 && diffs(seq, r) == target && (r == u || (diffs(
                    seq,
                    r - 1,
                ) == target - 1 && seq[r - 1] != seq[r]))
            } else {
                r == seq.len()
            }
        }),
    decreases seq.len() - u,
{
    if u < seq.len() - 1 {
        if c == target {
            lemma_diffs_monotone(seq, u, seq.len() - 1);
        } else {
            let d: int = if seq[u] != seq[u + 1] {
                1int
            } else {
                0int
            };
            lemma_shift_from_props(seq, target, u + 1, c + d);
        }
    }
}

/// A run of the boundary scan never lands before its starting position and
/// never lands past the end of the sequence.
proof fn lemma_shift_bounds_internal(seq: Seq<u8>, target: int)
    requires
        0 <= target <= runs(seq),
    ensures
        0 <= shift(seq, target) <= seq.len(),
        target <= diffs(seq, seq.len() - 1) && seq.len() >= 1 ==> diffs(
            seq,
            shift(seq, target),
        ) == target,
{
    if seq.len() == 0 {
    } else {
        lemma_shift_from_props(seq, target, 0, 0);
    }
}

/// Mapping compressed position 0 yields uncompressed position 0, whatever
/// the sequence.
pub proof fn lemma_shift_zero(seq: Seq<u8>)
    ensures
        shift(seq, 0) == 0,
{
}

/// The mapped positions of an ordered pair of compressed positions are
/// ordered, and both lie within the uncompressed sequence.
pub proof fn lemma_shift_ordered(seq: Seq<u8>, offset: int, limit: int)
    requires
        0 <= offset <= limit <= runs(seq),
    ensures
        0 <= shift(seq, offset) <= shift(seq, limit) <= seq.len(),
{
    lemma_shift_bounds_internal(seq, offset);
    lemma_shift_bounds_internal(seq, limit);
    if seq.len() >= 1 && offset < limit {
        lemma_shift_from_props(seq, offset, 0, 0);
        lemma_shift_from_props(seq, limit, 0, 0);
        let so = shift(seq, offset);
        let sl = shift(seq, limit);
        if limit <= diffs(seq, seq.len() - 1) {
            if sl < so {
                lemma_diffs_monotone(seq, sl, so);
            }
        }
    }
}

proof fn lemma_diffs_subrange(seq: Seq<u8>, a: int, b: int, k: int)
    requires
        0 <= a <= b <= seq.len(),
        0 <= k <= b - a - 1,
    ensures
        diffs(seq.subrange(a, b), k) == diffs(seq, a + k) - diffs(seq, a),
    decreases k,
{
    if k > 0 {
        lemma_diffs_subrange(seq, a, b, k - 1);
    }
}

/// The decompressed window of a valid compressed range contains exactly
/// `limit - offset` homopolymer runs.
pub proof fn lemma_decompressed_run_count(seq: Seq<u8>, offset: int, limit: int)
    requires
        0 <= offset <= limit <= runs(seq),
    ensures
        runs(seq.subrange(shift(seq, offset), shift(seq, limit))) == limit - offset,
{
    lemma_shift_ordered(seq, offset, limit);
    let a = shift(seq, offset);
    let b = shift(seq, limit);
    if offset == limit {
        assert(seq.subrange(a, b).len() == 0);
    } else {
        // offset < limit <= runs(seq), so the sequence is nonempty and the
        // scan finds offset among the boundary counts.
        lemma_shift_from_props(seq, offset, 0, 0);
        lemma_shift_from_props(seq, limit, 0, 0);
        let last = diffs(seq, seq.len() - 1);
        assert(offset <= last);
        if a == b {
            lemma_diffs_monotone(seq, a, b);
            assert(false);
        }
        let sub = seq.subrange(a, b);
        if limit <= last {
            // b is the first position whose boundary count is limit, and
            // b > a >= 0 rules out the degenerate first case.
            assert(diffs(seq, b - 1) == limit - 1);
            lemma_diffs_subrange(seq, a, b, b - a - 1);
            assert(diffs(sub, sub.len() - 1) == (limit - 1) - offset);
        } else {
            // limit == runs(seq): the target lies one past the last
            // boundary, so the window extends to the end of the sequence.
            assert(b == seq.len());
            lemma_diffs_subrange(seq, a, b, b - a - 1);
            assert(diffs(sub, sub.len() - 1) == last - offset);
        }
    }
}

/// Maps the compressed range `[offset, limit)` into uncompressed space by a
/// single forward scan over `sequence`: the scan locates `offset` first and
/// resumes from there to locate `limit`.
pub fn decompress(offset: usize, limit: usize, sequence: &[u8]) -> (r: (usize, usize))
    requires
        offset <= limit,
        limit <= runs(sequence@),
    ensures
        r.0 == shift(sequence@, offset as int),
        r.1 == shift(sequence@, limit as int),
        r.0 <= r.1 <= sequence@.len(),
{
    let len = sequence.len();
    let mut so: usize = 0;
    let mut c: usize = 0;
    while so + 1 < len && c != offset
        invariant
            offset <= limit <= runs(sequence@),
            len == sequence@.len(),
            if len == 0 {
                so == 0
            } else {
                so <= len - 1
            },
            c == diffs(sequence@, so as int),
            c <= offset,
            shift_from(sequence@, offset as int, so as int, c as int) == shift(
                sequence@,
                offset as int,
            ),
            shift_from(sequence@, limit as int, so as int, c as int) == shift(
                sequence@,
                limit as int,
            ),
        decreases len - so,
    {
        if sequence[so] != sequence[so + 1] {
            c = c + 1;
        }
        so = so + 1;
    }
    if c != offset {
        // The pair scan cannot reach the final compressed position; the
        // target must lie one past the last boundary.
        proof {
            assert(len >= 1) by {
                if len == 0 {
                    assert(runs(sequence@) == 0);
                }
            }
            assert(so == len - 1);
        }
        so = so + 1;
    }
    let mut sl: usize = so;
    let mut c2: usize = offset;
    proof {
        assert(shift_from(sequence@, limit as int, sl as int, c2 as int) == shift(
            sequence@,
            limit as int,
        ));
        assert(so == shift(sequence@, offset as int));
    }
    while c2 != limit && sl + 1 < len
        invariant
            offset <= limit <= runs(sequence@),
            len == sequence@.len(),
            so <= sl <= len,
            c2 <= limit,
            sl as int <= len as int - 1 || c2 == limit,
            shift_from(sequence@, limit as int, sl as int, c2 as int) == shift(
                sequence@,
                limit as int,
            ),
        decreases len - sl,
    {
        if sequence[sl] != sequence[sl + 1] {
            c2 = c2 + 1;
        }
        sl = sl + 1;
    }
    if c2 != limit {
        sl = sl + 1;
    }
    (so, sl)
}

/// The length of `sequence` in homopolymer-compressed space.
pub fn count_runs(sequence: &[u8]) -> (r: usize)
    ensures
        r == runs(sequence@),
{
    let len = sequence.len();
    if len == 0 {
        return 0;
    }
    let mut i: usize = 0;
    let mut c: usize = 0;
    while i + 1 < len
        invariant
            len == sequence@.len(),
            len >= 1,
            i <= len - 1,
            c == diffs(sequence@, i as int),
            c <= i,
        decreases len - i,
    {
        if sequence[i] != sequence[i + 1] {
            c = c + 1;
        }
        i = i + 1;
    }
    c + 1
}

} // verus!
