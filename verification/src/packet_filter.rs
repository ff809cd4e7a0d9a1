//! Filtering primitives for packet data: in-place byte replacement and the
//! deterministic censored-name generator.

use vstd::prelude::*;
use vstd::string::StringSliceAdditionalSpecFns;
use crate::options::QueryReplay;
use crate::packet::PacketDirection;

verus! {

/// The needle `pat` occurs in `buf` at position `i`.
pub open spec fn match_at(buf: Seq<u8>, pat: Seq<u8>, i: int) -> bool {
    &&& 0 <= i
    &&& i + pat.len() <= buf.len()
    &&& buf.subrange(i, i + pat.len()) == pat
}

/// The positions of the non-overlapping occurrences of `pat` in `buf` at or
/// after `from`, scanning left to right and skipping past each match.
pub open spec fn occurrences_from(buf: Seq<u8>, pat: Seq<u8>, from: int) -> Seq<int>
    decreases buf.len() - from,
    when pat.len() >= 1 && from >= 0
{
    if from + pat.len() > buf.len() {
        Seq::empty()
    } else if match_at(buf, pat, from) {
        seq![from] + occurrences_from(buf, pat, from + pat.len() as int)
    } else {
        occurrences_from(buf, pat, from + 1)
    }
}

/// The positions of the non-overlapping occurrences of `pat` in `buf`.
pub open spec fn occurrences(buf: Seq<u8>, pat: Seq<u8>) -> Seq<int> {
    occurrences_from(buf, pat, 0)
}

/// Position `i` falls inside one of the matched regions.
pub open spec fn covered(occ: Seq<int>, plen: int, i: int) -> bool {
    exists|k: int| 0 <= k < occ.len() && #[trigger] occ[k] <= i < occ[k] + plen
}

/// The start of the matched region holding position `i`.
pub open spec fn cover_start(occ: Seq<int>, plen: int, i: int) -> int {
    let k = choose|k: int| 0 <= k < occ.len() && #[trigger] occ[k] <= i < occ[k] + plen;
    occ[k]
}

/// `buf` with each non-overlapping occurrence of `pat` overwritten by `rep`
/// (meaningful when `rep` has the needle's length).
pub open spec fn replace_result(buf: Seq<u8>, pat: Seq<u8>, rep: Seq<u8>) -> Seq<u8> {
    let occ = occurrences(buf, pat);
    Seq::new(
        buf.len(),
        |i: int|
            if covered(occ, pat.len() as int, i) {
                rep[i - cover_start(occ, pat.len() as int, i)]
            } else {
                buf[i]
            },
    )
}

/// The occurrence positions lie in `[lo, buflen - plen]`, each a real match
/// start, and consecutive positions are at least `plen` apart.
pub open spec fn occ_wf(occ: Seq<int>, plen: int, lo: int, buflen: int) -> bool {
    &&& forall|k: int| 0 <= k < occ.len() ==> lo <= #[trigger] occ[k] && occ[k] + plen <= buflen
    &&& forall|k: int| 0 <= k < occ.len() - 1 ==> #[trigger] occ[k] + plen <= occ[k + 1]
}

/// The occurrence list is well-formed and every listed position is a match.
pub proof fn lemma_occurrences_wf(buf: Seq<u8>, pat: Seq<u8>, from: int)
    requires
        pat.len() >= 1,
        from >= 0,
    ensures
        occ_wf(occurrences_from(buf, pat, from), pat.len() as int, from, buf.len() as int),
        forall|k: int|
            0 <= k < occurrences_from(buf, pat, from).len() ==> match_at(
                buf,
                pat,
                #[trigger] occurrences_from(buf, pat, from)[k],
            ),
    decreases buf.len() - from,
{
    let occ = occurrences_from(buf, pat, from);
    if from + pat.len() > buf.len() {
    } else if match_at(buf, pat, from) {
        lemma_occurrences_wf(buf, pat, from + pat.len() as int);
        let tail = occurrences_from(buf, pat, from + pat.len() as int);
        assert forall|k: int| 0 <= k < occ.len() implies from <= #[trigger] occ[k] && occ[k]
            + pat.len() <= buf.len() && match_at(buf, pat, occ[k]) by {
            if k > 0 {
                assert(occ[k] == tail[k - 1]);
            }
        }
        assert forall|k: int| 0 <= k < occ.len() - 1 implies #[trigger] occ[k] + pat.len()
            <= occ[k + 1] by {
            if k > 0 {
                assert(occ[k] == tail[k - 1]);
                assert(occ[k + 1] == tail[k]);
            } else {
                assert(occ[1] == tail[0]);
            }
        }
    } else {
        lemma_occurrences_wf(buf, pat, from + 1);
    }
}

/// Positions at least `plen` apart pairwise, from the adjacent gaps.
proof fn lemma_occ_gap(occ: Seq<int>, plen: int, k1: int, k2: int)
    requires
        forall|k: int| 0 <= k < occ.len() - 1 ==> #[trigger] occ[k] + plen <= occ[k + 1],
        plen >= 1,
        0 <= k1 < k2 < occ.len(),
    ensures
        occ[k1] + plen <= occ[k2],
    decreases k2 - k1,
{
    if k1 + 1 < k2 {
        lemma_occ_gap(occ, plen, k1 + 1, k2);
    }
}

/// Inside a matched region the covering start is unique.
proof fn lemma_cover_at(occ: Seq<int>, plen: int, k: int, i: int)
    requires
        forall|k: int| 0 <= k < occ.len() - 1 ==> #[trigger] occ[k] + plen <= occ[k + 1],
        plen >= 1,
        0 <= k < occ.len(),
        occ[k] <= i < occ[k] + plen,
    ensures
        covered(occ, plen, i),
        cover_start(occ, plen, i) == occ[k],
{
    let k2 = choose|k2: int| 0 <= k2 < occ.len() && #[trigger] occ[k2] <= i < occ[k2] + plen;
    if k2 < k {
        lemma_occ_gap(occ, plen, k2, k);
    } else if k < k2 {
        lemma_occ_gap(occ, plen, k, k2);
    }
}

/// Replacing every non-overlapping occurrence of a needle by the needle
/// itself leaves a buffer unchanged.
pub proof fn lemma_raw_replace_round_trip(buf: Seq<u8>, needle: Seq<u8>)
    requires
        needle.len() >= 1,
    ensures
        replace_result(buf, needle, needle) == buf,
{
    let occ = occurrences(buf, needle);
    let plen = needle.len() as int;
    lemma_occurrences_wf(buf, needle, 0);
    assert forall|i: int| 0 <= i < buf.len() implies replace_result(buf, needle, needle)[i]
        == buf[i] by {
        if covered(occ, plen, i) {
            let k = choose|k: int| 0 <= k < occ.len() && #[trigger] occ[k] <= i < occ[k] + plen;
            lemma_cover_at(occ, plen, k, i);
            assert(match_at(buf, needle, occ[k]));
            assert(buf.subrange(occ[k], occ[k] + plen)[i - occ[k]] == buf[i]);
        }
    }
    assert(replace_result(buf, needle, needle) =~= buf);
}

/// Why a replacement could not be applied.
#[derive(Clone, Debug, PartialEq, Eq, Structural)]
pub enum FilterError {
    /// Tried to replace an empty needle.
    EmptyReplace,
    /// The replacement's length differs from the needle's.
    MismatchReplaceLen,
    /// Expected to replace a needle but it was not found.
    ReplacementNotFound,
}

/// Whether `pat` occurs in `buffer` at position `i`.
fn matches_at(buffer: &Vec<u8>, pat: &[u8], i: usize) -> (r: bool)
    requires
        i + pat@.len() <= buffer@.len(),
    ensures
        r == match_at(buffer@, pat@, i as int),
{
    let n = buffer.len();
    let mut j: usize = 0;
    while j < pat.len()
        invariant
            j <= pat@.len(),
            n == buffer@.len(),
            i + pat@.len() <= buffer@.len(),
            forall|k: int| 0 <= k < j ==> buffer@[i + k] == pat@[k],
        decreases pat@.len() - j,
    {
        if buffer[i + j] != pat[j] {
            assert(buffer@.subrange(i as int, i + pat@.len())[j as int] != pat@[j as int]);
            return false;
        }
        j = j + 1;
    }
    assert(buffer@.subrange(i as int, i + pat@.len()) =~= pat@);
    true
}

/// Finds the non-overlapping occurrences of `pat` in `buffer`, left to
/// right.
#[verifier::loop_isolation(false)]
fn find_positions(buffer: &Vec<u8>, pat: &[u8]) -> (positions: Vec<usize>)
    requires
        pat@.len() >= 1,
    ensures
        positions@.map_values(|p: usize| p as int) == occurrences(buffer@, pat@),
{
    let m = pat.len();
    let n = buffer.len();
    let ghost occ = occurrences(buffer@, pat@);
    let mut positions: Vec<usize> = Vec::new();
    let mut i: usize = 0;
    while i < n && n - i >= m
        invariant
            i <= n,
            occ == positions@.map_values(|p: usize| p as int) + occurrences_from(
                buffer@,
                pat@,
                i as int,
            ),
        decreases n - i,
    {
        if matches_at(buffer, pat, i) {
            let ghost pre = positions@;
            positions.push(i);
            proof {
                assert(positions@.map_values(|p: usize| p as int) =~= pre.map_values(
                    |p: usize| p as int,
                ).push(i as int));
                assert(occurrences_from(buffer@, pat@, i as int) == seq![i as int]
                    + occurrences_from(buffer@, pat@, i + m));
                assert(occ =~= positions@.map_values(|p: usize| p as int) + occurrences_from(
                    buffer@,
                    pat@,
                    i + m,
                ));
            }
            i = i + m;
        } else {
            i = i + 1;
        }
    }
    proof {
        assert(occurrences_from(buffer@, pat@, i as int) =~= Seq::<int>::empty());
        assert(occ =~= positions@.map_values(|p: usize| p as int));
    }
    positions
}

/// Copies `buffer`, overwriting the matched region at each listed position
/// with `replacement`.
#[verifier::loop_isolation(false)]
#[verifier::rlimit(30)]
fn apply_replacements(buffer: &Vec<u8>, pat: &[u8], positions: &Vec<usize>, replacement: &[u8])
    -> (r: Vec<u8>)
    requires
        pat@.len() >= 1,
        replacement@.len() == pat@.len(),
        positions@.map_values(|p: usize| p as int) == occurrences(buffer@, pat@),
    ensures
        r@ == replace_result(buffer@, pat@, replacement@),
{
    let m = pat.len();
    let n = buffer.len();
    let ghost occ = occurrences(buffer@, pat@);
    let ghost out = replace_result(buffer@, pat@, replacement@);
    proof {
        lemma_occurrences_wf(buffer@, pat@, 0);
    }

    let mut result: Vec<u8> = Vec::new();
    let mut idx: usize = 0;
    let mut t: usize = 0;
    while idx < n
        invariant
            idx <= n,
            t <= positions@.len(),
            forall|k: int| 0 <= k < t ==> #[trigger] occ[k] + m <= idx,
            t < occ.len() ==> idx <= occ[t as int],
            result@ == out.subrange(0, idx as int),
        decreases n - idx,
    {
        if t < positions.len() && positions[t] == idx {
            let mut j: usize = 0;
            while j < m
                invariant
                    j <= m,
                    t < positions@.len(),
                    idx == occ[t as int],
                    idx + m <= n,
                    result@ == out.subrange(0, idx as int + j as int),
                decreases m - j,
            {
                result.push(replacement[j]);
                proof {
                    lemma_cover_at(occ, m as int, t as int, idx + j);
                    assert(out[idx + j] == replacement@[j as int]);
                    assert(result@ =~= out.subrange(0, idx as int + j as int + 1));
                }
                j = j + 1;
            }
            t = t + 1;
            proof {
                assert forall|k: int| 0 <= k < t implies #[trigger] occ[k] + m <= idx + m by {
                    if k < t - 1 {
                        lemma_occ_gap(occ, m as int, k, t - 1);
                    }
                }
                if t < occ.len() {
                    lemma_occ_gap(occ, m as int, t - 1, t as int);
                }
            }
            idx = idx + m;
        } else {
            proof {
                if covered(occ, m as int, idx as int) {
                    let k = choose|k: int|
                        0 <= k < occ.len() && #[trigger] occ[k] <= idx < occ[k] + m;
                    if k < t {
                    } else {
                        if t < occ.len() && k > t {
                            lemma_occ_gap(occ, m as int, t as int, k);
                        }
                    }
                }
                assert(!covered(occ, m as int, idx as int));
                assert(out[idx as int] == buffer@[idx as int]);
            }
            result.push(buffer[idx]);
            proof {
                assert(result@ =~= out.subrange(0, idx as int + 1));
            }
            idx = idx + 1;
        }
    }
    proof {
        assert(out.subrange(0, n as int) =~= out);
    }
    result
}

/// Replaces every non-overlapping occurrence of `to_replace` in `buffer`
/// with the same-length `replacement`, in place, and returns the occurrence
/// count. Fails (leaving the buffer untouched) on an empty needle or a
/// length mismatch.
pub fn raw_replace(buffer: &mut Vec<u8>, to_replace: &[u8], replacement: &[u8]) -> (r: Result<
    usize,
    FilterError,
>)
    ensures
        to_replace@.len() == 0 ==> r == Err::<usize, FilterError>(FilterError::EmptyReplace)
            && final(buffer)@ == old(buffer)@,
        to_replace@.len() != 0 && to_replace@.len() != replacement@.len() ==> r == Err::<
            usize,
            FilterError,
        >(FilterError::MismatchReplaceLen) && final(buffer)@ == old(buffer)@,
        to_replace@.len() != 0 && to_replace@.len() == replacement@.len() ==> {
            &&& r == Ok::<usize, FilterError>(occurrences(old(buffer)@, to_replace@).len() as usize)
            &&& final(buffer)@ == replace_result(old(buffer)@, to_replace@, replacement@)
        },
{
    if to_replace.len() == 0 {
        return Err(FilterError::EmptyReplace);
    }
    if to_replace.len() != replacement.len() {
        return Err(FilterError::MismatchReplaceLen);
    }

    let positions = find_positions(buffer, to_replace);
    let result = apply_replacements(buffer, to_replace, &positions, replacement);
    let count = positions.len();
    proof {
        assert(positions@.map_values(|p: usize| p as int).len() == positions@.len());
    }
    *buffer = result;
    Ok(count)
}

/// Replaces occurrences of `to_replace` in `buffer` with `replacement`,
/// comparing the strings' byte encodings.
pub fn string_replace(buffer: &mut Vec<u8>, to_replace: &str, replacement: &str) -> (r: Result<
    usize,
    FilterError,
>)
    ensures
        to_replace.spec_bytes().len() == 0 ==> r == Err::<usize, FilterError>(
            FilterError::EmptyReplace,
        ) && final(buffer)@ == old(buffer)@,
        to_replace.spec_bytes().len() != 0 && to_replace.spec_bytes().len()
            != replacement.spec_bytes().len() ==> r == Err::<usize, FilterError>(
            FilterError::MismatchReplaceLen,
        ) && final(buffer)@ == old(buffer)@,
        to_replace.spec_bytes().len() != 0 && to_replace.spec_bytes().len()
            == replacement.spec_bytes().len() ==> {
            &&& r == Ok::<usize, FilterError>(
                occurrences(old(buffer)@, to_replace.spec_bytes()).len() as usize,
            )
            &&& final(buffer)@ == replace_result(
                old(buffer)@,
                to_replace.spec_bytes(),
                replacement.spec_bytes(),
            )
        },
{
    raw_replace(buffer, to_replace.as_bytes(), replacement.as_bytes())
}

/// The deterministic infinite generator over a finite alphabet. A dynamic
/// list of cursors advances like an odometer across the alphabet, so the
/// output stream is a function of the alphabet alone.
pub struct InfiniteSequence {
    pub source: Vec<u8>,
    pub pointers: Vec<usize>,
    pub pos: usize,
}

/// The position the generator reads from next.
pub open spec fn step_pos(ptr_count: int, pos: int) -> int {
    if pos >= 1 {
        pos - 1
    } else {
        ptr_count - 1
    }
}

/// Resets an out-of-range cursor, growing the list when it is the last one.
pub open spec fn norm_ptrs(src_len: int, ptrs: Seq<int>, pos: int) -> Seq<int> {
    if ptrs[pos] >= src_len {
        (if pos == ptrs.len() - 1 {
            ptrs.push(0)
        } else {
            ptrs
        }).update(pos, 0)
    } else {
        ptrs
    }
}

/// One odometer carry starting at cursor `i`: each cursor that wraps resets
/// to zero and carries into the next; a fresh cursor is appended when the
/// carry runs off the end.
pub open spec fn incr_ptrs(src_len: int, ptrs: Seq<int>, i: int) -> Seq<int>
    decreases ptrs.len() - i,
    when 0 <= i
{
    if i >= ptrs.len() {
        ptrs.push(0)
    } else if ptrs[i] + 1 >= src_len {
        incr_ptrs(src_len, ptrs.update(i, 0), i + 1)
    } else {
        ptrs.update(i, ptrs[i] + 1)
    }
}

/// One generator step: the new cursor list, the new position, and the byte
/// produced.
pub open spec fn step_state(src: Seq<u8>, ptrs: Seq<int>, pos: int) -> (Seq<int>, int, u8) {
    let pos1 = step_pos(ptrs.len() as int, pos);
    let ptrs1 = norm_ptrs(src.len() as int, ptrs, pos1);
    let out = src[ptrs1[pos1]];
    let ptrs2 = if pos1 == 0 {
        incr_ptrs(src.len() as int, ptrs1, 0)
    } else {
        ptrs1
    };
    (ptrs2, pos1, out)
}

/// The next `k` bytes the generator produces from the given state.
pub open spec fn run_from(src: Seq<u8>, ptrs: Seq<int>, pos: int, k: nat) -> Seq<u8>
    decreases k,
{
    if k == 0 {
        Seq::empty()
    } else {
        let (ptrs2, pos2, out) = step_state(src, ptrs, pos);
        seq![out] + run_from(src, ptrs2, pos2, (k - 1) as nat)
    }
}

/// The state after the generator produces `k` bytes.
pub open spec fn run_state(src: Seq<u8>, ptrs: Seq<int>, pos: int, k: nat) -> (Seq<int>, int)
    decreases k,
{
    if k == 0 {
        (ptrs, pos)
    } else {
        let (ptrs2, pos2, out) = step_state(src, ptrs, pos);
        run_state(src, ptrs2, pos2, (k - 1) as nat)
    }
}

/// The first `k` bytes a freshly created generator over `src` produces.
pub open spec fn stream_prefix(src: Seq<u8>, k: nat) -> Seq<u8> {
    run_from(src, seq![0], 0, k)
}

/// A run of `k + 1` bytes is the run of `k` bytes followed by one step from
/// the state reached.
proof fn lemma_run_snoc(src: Seq<u8>, ptrs: Seq<int>, pos: int, k: nat)
    ensures
        ({
            let (ptrs_k, pos_k) = run_state(src, ptrs, pos, k);
            let (ptrs2, pos2, out) = step_state(src, ptrs_k, pos_k);
            &&& run_from(src, ptrs, pos, k + 1) == run_from(src, ptrs, pos, k).push(out)
            &&& run_state(src, ptrs, pos, k + 1) == (ptrs2, pos2)
        }),
    decreases k,
{
    let (ptrs_k, pos_k) = run_state(src, ptrs, pos, k);
    let (ptrs2, pos2, out) = step_state(src, ptrs_k, pos_k);
    if k == 0 {
        assert(run_from(src, ptrs2, pos2, 0) == Seq::<u8>::empty());
        assert(run_from(src, ptrs, pos, 0) == Seq::<u8>::empty());
        assert(run_from(src, ptrs, pos, 1) == seq![out] + run_from(src, ptrs2, pos2, 0));
        assert(run_from(src, ptrs, pos, 1) =~= run_from(src, ptrs, pos, 0).push(out));
        assert(run_state(src, ptrs, pos, 1) == run_state(src, ptrs2, pos2, 0));
    } else {
        let (ptrs_a, pos_a, out_a) = step_state(src, ptrs, pos);
        lemma_run_snoc(src, ptrs_a, pos_a, (k - 1) as nat);
        assert(run_from(src, ptrs, pos, k + 1) == seq![out_a] + run_from(
            src,
            ptrs_a,
            pos_a,
            k as nat,
        ));
        assert(run_from(src, ptrs, pos, k + 1) =~= run_from(src, ptrs, pos, k).push(out));
    }
}

/// The generator produces exactly as many bytes as asked.
pub proof fn lemma_run_len(src: Seq<u8>, ptrs: Seq<int>, pos: int, k: nat)
    ensures
        run_from(src, ptrs, pos, k).len() == k,
    decreases k,
{
    if k > 0 {
        let (ptrs2, pos2, out) = step_state(src, ptrs, pos);
        lemma_run_len(src, ptrs2, pos2, (k - 1) as nat);
    }
}

impl InfiniteSequence {
    /// The cursor list as mathematical integers.
    pub open spec fn ptrs_model(self) -> Seq<int> {
        self.pointers@.map_values(|p: usize| p as int)
    }

    /// A valid generator state: a non-empty alphabet, at least one cursor,
    /// the position inside the list, and every cursor inside the alphabet.
    pub open spec fn wf(self) -> bool {
        &&& self.source@.len() >= 1
        &&& self.pointers@.len() >= 1
        &&& (self.pos as int) < self.pointers@.len()
        &&& forall|k: int|
            0 <= k < self.pointers@.len() ==> (#[trigger] self.pointers@[k]) < self.source@.len()
    }

    /// The state a fresh generator starts in.
    pub open spec fn is_fresh(self) -> bool {
        self.ptrs_model() == seq![0int] && self.pos == 0
    }

    /// The next `k` bytes this generator will produce.
    pub open spec fn upcoming(self, k: nat) -> Seq<u8> {
        run_from(self.source@, self.ptrs_model(), self.pos as int, k)
    }

    /// Creates a generator over a non-empty alphabet.
    pub fn new(source: Vec<u8>) -> (r: InfiniteSequence)
        requires
            source@.len() >= 1,
        ensures
            r.wf(),
            r.is_fresh(),
            r.source@ == source@,
    {
        let mut pointers: Vec<usize> = Vec::new();
        pointers.push(0);
        let r = InfiniteSequence { source, pointers, pos: 0 };
        proof {
            assert(r.ptrs_model() =~= seq![0int]);
        }
        r
    }

    /// Produces the next byte of the stream.
    #[verifier::loop_isolation(false)]
    pub fn next(&mut self) -> (r: u8)
        requires
            old(self).wf(),
        ensures
            final(self).wf(),
            final(self).source@ == old(self).source@,
            ({
                let (ptrs2, pos2, out) = step_state(
                    old(self).source@,
                    old(self).ptrs_model(),
                    old(self).pos as int,
                );
                &&& final(self).ptrs_model() == ptrs2
                &&& final(self).pos as int == pos2
                &&& r == out
            }),
    {
        let ghost ptrs0 = self.ptrs_model();
        let pos1 = if self.pos >= 1 {
            self.pos - 1
        } else {
            self.pointers.len() - 1
        };
        self.pos = pos1;
        if self.pointers[pos1] >= self.source.len() {
            // Mirrors the model's defensive reset; unreachable from a
            // well-formed state.
            if pos1 == self.pointers.len() - 1 {
                self.pointers.push(0);
            }
            self.pointers[pos1] = 0;
        }
        proof {
            assert(self.ptrs_model() =~= norm_ptrs(self.source@.len() as int, ptrs0, pos1 as int));
        }
        let r = self.source[self.pointers[pos1]];
        if pos1 == 0 {
            let ghost ptrs1 = self.ptrs_model();
            Self::odometer_advance(&mut self.pointers, self.source.len());
            proof {
                assert(self.ptrs_model() == incr_ptrs(self.source@.len() as int, ptrs1, 0));
            }
        }
        r
    }

    /// Advances the cursor list one odometer step.
    #[verifier::loop_isolation(false)]
    fn odometer_advance(pointers: &mut Vec<usize>, src_len: usize)
        requires
            src_len >= 1,
            old(pointers)@.len() >= 1,
            forall|k: int|
                0 <= k < old(pointers)@.len() ==> (#[trigger] old(pointers)@[k]) < src_len,
        ensures
            final(pointers)@.map_values(|p: usize| p as int) == incr_ptrs(
                src_len as int,
                old(pointers)@.map_values(|p: usize| p as int),
                0,
            ),
            final(pointers)@.len() >= old(pointers)@.len(),
            forall|k: int|
                0 <= k < final(pointers)@.len() ==> (#[trigger] final(pointers)@[k]) < src_len,
    {
        let ghost start = old(pointers)@.map_values(|p: usize| p as int);
        let mut i: usize = 0;
        while i < pointers.len()
            invariant
                i <= pointers@.len(),
                pointers@.len() == old(pointers)@.len(),
                forall|k: int| 0 <= k < pointers@.len() ==> (#[trigger] pointers@[k]) < src_len,
                forall|k: int| 0 <= k < i ==> (#[trigger] pointers@[k]) == 0,
                incr_ptrs(src_len as int, start, 0) == incr_ptrs(
                    src_len as int,
                    pointers@.map_values(|p: usize| p as int),
                    i as int,
                ),
            decreases pointers@.len() - i,
        {
            let ghost cur = pointers@.map_values(|p: usize| p as int);
            let p = pointers[i];
            if p + 1 >= src_len {
                pointers[i] = 0;
                proof {
                    assert(pointers@.map_values(|q: usize| q as int) =~= cur.update(i as int, 0));
                }
                i = i + 1;
            } else {
                pointers[i] = p + 1;
                proof {
                    assert(pointers@.map_values(|q: usize| q as int) =~= cur.update(
                        i as int,
                        p as int + 1,
                    ));
                }
                return ;
            }
        }
        let ghost cur = pointers@.map_values(|p: usize| p as int);
        pointers.push(0);
        proof {
            assert(pointers@.map_values(|p: usize| p as int) =~= cur.push(0));
        }
    }

    /// Produces the next `n` bytes of the stream.
    pub fn take_n(&mut self, n: usize) -> (r: Vec<u8>)
        requires
            old(self).wf(),
        ensures
            final(self).wf(),
            final(self).source@ == old(self).source@,
            r@ == old(self).upcoming(n as nat),
            (final(self).ptrs_model(), final(self).pos as int) == run_state(
                old(self).source@,
                old(self).ptrs_model(),
                old(self).pos as int,
                n as nat,
            ),
    {
        let ghost src = self.source@;
        let ghost ptrs0 = self.ptrs_model();
        let ghost pos0 = self.pos as int;
        let mut r: Vec<u8> = Vec::new();
        let mut i: usize = 0;
        while i < n
            invariant
                i <= n,
                self.wf(),
                self.source@ == src,
                r@ == run_from(src, ptrs0, pos0, i as nat),
                (self.ptrs_model(), self.pos as int) == run_state(src, ptrs0, pos0, i as nat),
            decreases n - i,
        {
            proof {
                lemma_run_snoc(src, ptrs0, pos0, i as nat);
            }
            let b = self.next();
            r.push(b);
            i = i + 1;
        }
        r
    }
}

/// Two fresh generators over the same alphabet produce identical first-`k`
/// outputs, for every `k`.
pub proof fn lemma_generator_deterministic(a: InfiniteSequence, b: InfiniteSequence, k: nat)
    requires
        a.is_fresh(),
        b.is_fresh(),
        a.source@ == b.source@,
    ensures
        a.upcoming(k) == b.upcoming(k),
{
}

/// Draws of distinct lengths give distinct outputs: the streams differ as
/// sequences because their lengths differ.
pub proof fn lemma_distinct_lengths_distinct(src: Seq<u8>, k1: nat, k2: nat)
    requires
        k1 != k2,
    ensures
        stream_prefix(src, k1) != stream_prefix(src, k2),
{
    lemma_run_len(src, seq![0], 0, k1);
    lemma_run_len(src, seq![0], 0, k2);
}

/// The censor alphabet: the lower-case then upper-case ASCII letters.
pub open spec fn censor_alphabet() -> Seq<u8> {
    Seq::new(
        52,
        |i: int|
            if i < 26 {
                (97 + i) as u8
            } else {
                (65 + i - 26) as u8
            },
    )
}

/// Builds the censor alphabet.
fn make_alphabet() -> (r: Vec<u8>)
    ensures
        r@ == censor_alphabet(),
{
    let mut r: Vec<u8> = Vec::new();
    let mut c: u8 = 97;
    while c <= 122
        invariant
            97 <= c <= 123,
            r@.len() == c - 97,
            forall|i: int| 0 <= i < r@.len() ==> r@[i] == censor_alphabet()[i],
        decreases 123 - c,
    {
        r.push(c);
        c = c + 1;
    }
    let mut d: u8 = 65;
    while d <= 90
        invariant
            65 <= d <= 91,
            r@.len() == 26 + d - 65,
            forall|i: int| 0 <= i < r@.len() ==> r@[i] == censor_alphabet()[i],
        decreases 91 - d,
    {
        r.push(d);
        d = d + 1;
    }
    proof {
        assert(r@ =~= censor_alphabet());
    }
    r
}

/// The UTF-8 byte encoding of a string's text.
pub open spec fn text_bytes(s: String) -> Seq<u8> {
    vstd::utf8::encode_utf8(s@)
}

/// The byte encodings of a list of names.
pub open spec fn byte_needles(names: Seq<String>) -> Seq<Seq<u8>> {
    names.map_values(|s: String| text_bytes(s))
}

/// The byte lengths of a list of names.
pub open spec fn chunk_lens(names: Seq<String>) -> Seq<nat> {
    names.map_values(|s: String| text_bytes(s).len())
}

/// The consecutive chunks a generator in the given state deals out, one per
/// requested length.
pub open spec fn chunks_from(src: Seq<u8>, ptrs: Seq<int>, pos: int, lens: Seq<nat>) -> Seq<
    Seq<u8>,
>
    decreases lens.len(),
{
    if lens.len() == 0 {
        Seq::empty()
    } else {
        let (ptrs2, pos2) = run_state(src, ptrs, pos, lens[0]);
        seq![run_from(src, ptrs, pos, lens[0])] + chunks_from(src, ptrs2, pos2, lens.drop_first())
    }
}

/// The length-matched censored replacements for a list of names, dealt by a
/// fresh generator over the censor alphabet.
pub open spec fn censor_chunks(names: Seq<String>) -> Seq<Seq<u8>> {
    chunks_from(censor_alphabet(), seq![0], 0, chunk_lens(names))
}

/// A buffer after replacing each needle with its replacement, in order,
/// starting at needle `j`.
pub open spec fn apply_names(
    data: Seq<u8>,
    needles: Seq<Seq<u8>>,
    reps: Seq<Seq<u8>>,
    j: int,
) -> Seq<u8>
    decreases needles.len() - j,
    when 0 <= j
{
    if j >= needles.len() {
        data
    } else {
        apply_names(replace_result(data, needles[j], reps[j]), needles, reps, j + 1)
    }
}

/// The distinct byte chunks, in order of first appearance.
pub open spec fn dedup_bytes(chunks: Seq<Seq<u8>>) -> Seq<Seq<u8>>
    decreases chunks.len(),
{
    if chunks.len() == 0 {
        Seq::empty()
    } else {
        let prior = dedup_bytes(chunks.drop_last());
        if prior.contains(chunks.last()) {
            prior
        } else {
            prior.push(chunks.last())
        }
    }
}

/// Every byte of the sequence is ASCII.
pub open spec fn all_bytes_ascii(v: Seq<u8>) -> bool {
    forall|i: int| 0 <= i < v.len() ==> (#[trigger] v[i]) < 128
}

/// A valid generator state over the model types.
pub open spec fn state_wf(src: Seq<u8>, ptrs: Seq<int>, pos: int) -> bool {
    &&& src.len() >= 1
    &&& ptrs.len() >= 1
    &&& 0 <= pos < ptrs.len()
    &&& forall|k: int| 0 <= k < ptrs.len() ==> 0 <= #[trigger] ptrs[k] < src.len()
}

proof fn lemma_incr_in_range(src_len: int, ptrs: Seq<int>, i: int)
    requires
        src_len >= 1,
        forall|k: int| 0 <= k < ptrs.len() ==> 0 <= #[trigger] ptrs[k] < src_len,
        0 <= i,
    ensures
        incr_ptrs(src_len, ptrs, i).len() >= ptrs.len(),
        forall|k: int|
            0 <= k < incr_ptrs(src_len, ptrs, i).len() ==> 0 <= #[trigger] incr_ptrs(
                src_len,
                ptrs,
                i,
            )[k] < src_len,
    decreases ptrs.len() - i,
{
    if i >= ptrs.len() {
    } else if ptrs[i] + 1 >= src_len {
        lemma_incr_in_range(src_len, ptrs.update(i, 0), i + 1);
    }
}

/// One step from a valid state reaches a valid state and produces a byte of
/// the alphabet.
proof fn lemma_step_wf(src: Seq<u8>, ptrs: Seq<int>, pos: int)
    requires
        state_wf(src, ptrs, pos),
    ensures
        ({
            let (ptrs2, pos2, out) = step_state(src, ptrs, pos);
            &&& state_wf(src, ptrs2, pos2)
            &&& src.contains(out)
        }),
{
    let pos1 = step_pos(ptrs.len() as int, pos);
    let ptrs1 = norm_ptrs(src.len() as int, ptrs, pos1);
    assert(src[ptrs1[pos1]] == src[ptrs[pos1]]);
    if pos1 == 0 {
        lemma_incr_in_range(src.len() as int, ptrs1, 0);
    }
}

/// A run from a valid state reaches a valid state and produces bytes of the
/// alphabet.
proof fn lemma_run_wf(src: Seq<u8>, ptrs: Seq<int>, pos: int, k: nat)
    requires
        state_wf(src, ptrs, pos),
    ensures
        ({
            let (ptrs2, pos2) = run_state(src, ptrs, pos, k);
            &&& state_wf(src, ptrs2, pos2)
            &&& forall|i: int|
                0 <= i < run_from(src, ptrs, pos, k).len() ==> src.contains(
                    #[trigger] run_from(src, ptrs, pos, k)[i],
                )
        }),
    decreases k,
{
    if k > 0 {
        let (ptrs_a, pos_a, out) = step_state(src, ptrs, pos);
        lemma_step_wf(src, ptrs, pos);
        lemma_run_wf(src, ptrs_a, pos_a, (k - 1) as nat);
        assert forall|i: int| 0 <= i < run_from(src, ptrs, pos, k).len() implies src.contains(
            #[trigger] run_from(src, ptrs, pos, k)[i],
        ) by {
            if i > 0 {
                assert(run_from(src, ptrs, pos, k)[i] == run_from(
                    src,
                    ptrs_a,
                    pos_a,
                    (k - 1) as nat,
                )[i - 1]);
            }
        }
    }
}

/// Relies on String::from_utf8_lossy: ASCII bytes decode to a string with
/// exactly those bytes.
#[verifier::external_body]
fn ascii_bytes_to_string(bytes: &Vec<u8>) -> (r: String)
    requires
        all_bytes_ascii(bytes@),
    ensures
        text_bytes(r) == bytes@,
{
    String::from_utf8_lossy(bytes).into_owned()
}

/// Deals a length-matched replacement chunk for each name.
#[verifier::loop_isolation(false)]
fn build_replacements(names: &Vec<String>, generator: &mut InfiniteSequence) -> (r: Vec<Vec<u8>>)
    requires
        old(generator).wf(),
        all_bytes_ascii(old(generator).source@),
    ensures
        final(generator).wf(),
        r@.len() == names@.len(),
        r@.map_values(|v: Vec<u8>| v@) == chunks_from(
            old(generator).source@,
            old(generator).ptrs_model(),
            old(generator).pos as int,
            chunk_lens(names@),
        ),
        forall|k: int|
            0 <= k < r@.len() ==> (#[trigger] r@[k])@.len() == text_bytes(names@[k]).len(),
        forall|k: int| 0 <= k < r@.len() ==> all_bytes_ascii((#[trigger] r@[k])@),
{
    let ghost src = old(generator).source@;
    let ghost ptrs0 = old(generator).ptrs_model();
    let ghost pos0 = old(generator).pos as int;
    let ghost lens = chunk_lens(names@);
    let mut r: Vec<Vec<u8>> = Vec::new();
    proof {
        assert(lens.skip(0) =~= lens);
        assert(r@.map_values(|v: Vec<u8>| v@) =~= Seq::<Seq<u8>>::empty());
        assert(Seq::<Seq<u8>>::empty() + chunks_from(src, ptrs0, pos0, lens) =~= chunks_from(
            src,
            ptrs0,
            pos0,
            lens,
        ));
    }
    let mut k: usize = 0;
    while k < names.len()
        invariant
            k <= names@.len(),
            r@.len() == k,
            generator.wf(),
            generator.source@ == src,
            chunks_from(src, ptrs0, pos0, lens) == r@.map_values(|v: Vec<u8>| v@) + chunks_from(
                src,
                generator.ptrs_model(),
                generator.pos as int,
                lens.skip(k as int),
            ),
            forall|j: int|
                0 <= j < r@.len() ==> (#[trigger] r@[j])@.len() == text_bytes(names@[j]).len(),
            forall|j: int| 0 <= j < r@.len() ==> all_bytes_ascii((#[trigger] r@[j])@),
        decreases names@.len() - k,
    {
        let len_k = names[k].as_str().as_bytes().len();
        let ghost pre = r@;
        let ghost ptrs_k = generator.ptrs_model();
        let ghost pos_k = generator.pos as int;
        proof {
            assert(state_wf(src, ptrs_k, pos_k));
            lemma_run_wf(src, ptrs_k, pos_k, len_k as nat);
            lemma_run_len(src, ptrs_k, pos_k, len_k as nat);
        }
        let chunk = generator.take_n(len_k);
        r.push(chunk);
        proof {
            assert(lens.skip(k as int)[0] == text_bytes(names@[k as int]).len());
            assert(lens.skip(k as int).drop_first() =~= lens.skip(k as int + 1));
            assert(chunks_from(src, ptrs_k, pos_k, lens.skip(k as int)) == seq![
                run_from(src, ptrs_k, pos_k, len_k as nat),
            ] + chunks_from(
                src,
                generator.ptrs_model(),
                generator.pos as int,
                lens.skip(k as int + 1),
            ));
            assert(r@.map_values(|v: Vec<u8>| v@) =~= pre.map_values(|v: Vec<u8>| v@).push(
                r@.last()@,
            ));
            assert(chunks_from(src, ptrs0, pos0, lens) =~= r@.map_values(|v: Vec<u8>| v@)
                + chunks_from(
                src,
                generator.ptrs_model(),
                generator.pos as int,
                lens.skip(k as int + 1),
            ));
        }
        k = k + 1;
    }
    proof {
        assert(lens.skip(names@.len() as int) =~= Seq::<nat>::empty());
        assert(chunks_from(src, ptrs0, pos0, lens) =~= r@.map_values(|v: Vec<u8>| v@));
    }
    r
}

/// Rewrites one payload, replacing each name's bytes with its chunk.
#[verifier::loop_isolation(false)]
fn censor_packet(data: &mut Vec<u8>, names: &Vec<String>, reps: &Vec<Vec<u8>>)
    requires
        names@.len() == reps@.len(),
        forall|k: int| 0 <= k < names@.len() ==> text_bytes(#[trigger] names@[k]).len() >= 1,
        forall|k: int|
            0 <= k < names@.len() ==> (#[trigger] reps@[k])@.len() == text_bytes(names@[k]).len(),
    ensures
        final(data)@ == apply_names(
            old(data)@,
            byte_needles(names@),
            reps@.map_values(|v: Vec<u8>| v@),
            0,
        ),
{
    let ghost data0 = data@;
    let ghost needles = byte_needles(names@);
    let ghost repsv = reps@.map_values(|v: Vec<u8>| v@);
    let mut k: usize = 0;
    while k < names.len()
        invariant
            k <= names@.len(),
            apply_names(data0, needles, repsv, 0) == apply_names(data@, needles, repsv, k as int),
        decreases names@.len() - k,
    {
        let ghost before = data@;
        let _replaced = raw_replace(data, names[k].as_str().as_bytes(), reps[k].as_slice());
        proof {
            assert(data@ == replace_result(before, needles[k as int], repsv[k as int]));
            assert(apply_names(before, needles, repsv, k as int) == apply_names(
                data@,
                needles,
                repsv,
                k as int + 1,
            ));
        }
        k = k + 1;
    }
}

fn byte_list_contains(v: &Vec<Vec<u8>>, x: &Vec<u8>) -> (r: bool)
    ensures
        r == v@.map_values(|c: Vec<u8>| c@).contains(x@),
{
    let ghost mapped = v@.map_values(|c: Vec<u8>| c@);
    let mut j: usize = 0;
    while j < v.len()
        invariant
            j <= v@.len(),
            mapped == v@.map_values(|c: Vec<u8>| c@),
            forall|k: int| 0 <= k < j ==> (#[trigger] mapped[k]) != x@,
        decreases v@.len() - j,
    {
        if bytes_eq(&v[j], x) {
            assert(mapped[j as int] == x@);
            return true;
        }
        j = j + 1;
    }
    false
}

fn bytes_eq(a: &Vec<u8>, b: &Vec<u8>) -> (r: bool)
    ensures
        r == (a@ == b@),
{
    if a.len() != b.len() {
        return false;
    }
    let mut j: usize = 0;
    while j < a.len()
        invariant
            j <= a@.len(),
            a@.len() == b@.len(),
            forall|k: int| 0 <= k < j ==> a@[k] == b@[k],
        decreases a@.len() - j,
    {
        if a[j] != b[j] {
            return false;
        }
        j = j + 1;
    }
    proof {
        assert(a@ =~= b@);
    }
    true
}

/// Replaces every player name in a replay with a censored version: each
/// name gets a length-matched chunk from a fresh generator over the censor
/// alphabet, every `FromServer` payload is rewritten with each mapping in
/// order, and the structured response keeps the distinct censored names.
/// Fails, leaving the replay untouched, when a rewrite would use an empty
/// needle: a player name is empty and a `FromServer` packet exists.
#[verifier::loop_isolation(false)]
pub fn packet_name_replace(query_replay: &mut QueryReplay) -> (r: Result<(), FilterError>)
    ensures
        ({
            let names0 = old(query_replay).value.player_names@;
            let has_empty = exists|k: int|
                0 <= k < names0.len() && text_bytes(#[trigger] names0[k]).len() == 0;
            let has_server_packet = exists|i: int|
                0 <= i < old(query_replay).packets@.len() && (#[trigger] old(
                    query_replay,
                ).packets@[i]).direction is FromServer;
            &&& (r is Err <==> has_empty && has_server_packet)
            &&& r is Err ==> r == Err::<(), FilterError>(FilterError::EmptyReplace)
                && *final(query_replay) == *old(query_replay)
            &&& r is Ok ==> ({
                let needles = byte_needles(names0);
                let reps = censor_chunks(names0);
                &&& final(query_replay).query == old(query_replay).query
                &&& final(query_replay).server == old(query_replay).server
                &&& final(query_replay).replay_version == old(query_replay).replay_version
                &&& final(query_replay).value.name == old(query_replay).value.name
                &&& final(query_replay).value.map == old(query_replay).value.map
                &&& final(query_replay).value.has_password == old(query_replay).value.has_password
                &&& final(query_replay).value.players_online
                    == old(query_replay).value.players_online
                &&& final(query_replay).value.players_maximum
                    == old(query_replay).value.players_maximum
                &&& final(query_replay).value.player_names@.map_values(|s: String| text_bytes(s))
                    == dedup_bytes(reps)
                &&& final(query_replay).packets@.len() == old(query_replay).packets@.len()
                &&& forall|i: int|
                    #![trigger final(query_replay).packets@[i]]
                    0 <= i < old(query_replay).packets@.len() ==> ({
                        let p0 = old(query_replay).packets@[i];
                        let p1 = final(query_replay).packets@[i];
                        &&& p1.direction == p0.direction
                        &&& p1.protocol == p0.protocol
                        &&& p1.src_port == p0.src_port
                        &&& p1.dst_port == p0.dst_port
                        &&& p1.data@ == if p0.direction is FromServer {
                            apply_names(p0.data@, needles, reps, 0)
                        } else {
                            p0.data@
                        }
                    })
            })
        }),
{
    let ghost names0 = query_replay.value.player_names@;
    let ghost packets0 = query_replay.packets@;

    // An empty name would be an empty needle; reject it up front when a
    // rewrite would actually use it, before touching anything.
    let mut has_empty = false;
    let n_names = query_replay.value.player_names.len();
    let mut k: usize = 0;
    while k < n_names
        invariant
            k <= names0.len(),
            has_empty == exists|j: int|
                0 <= j < k && text_bytes(#[trigger] names0[j]).len() == 0,
        decreases n_names - k,
    {
        if query_replay.value.player_names[k].as_str().as_bytes().len() == 0 {
            proof {
                assert(text_bytes(names0[k as int]).len() == 0);
            }
            has_empty = true;
        }
        k = k + 1;
    }

    let mut has_server_packet = false;
    let n_packets = query_replay.packets.len();
    let mut m: usize = 0;
    while m < n_packets
        invariant
            m <= packets0.len(),
            has_server_packet == exists|j: int|
                0 <= j < m && (#[trigger] packets0[j]).direction is FromServer,
        decreases n_packets - m,
    {
        if query_replay.packets[m].direction == PacketDirection::FromServer {
            proof {
                assert(packets0[m as int].direction is FromServer);
            }
            has_server_packet = true;
        }
        m = m + 1;
    }

    if has_empty && has_server_packet {
        return Err(FilterError::EmptyReplace);
    }

    let alphabet = make_alphabet();
    let mut generator = InfiniteSequence::new(alphabet);
    let reps = build_replacements(&query_replay.value.player_names, &mut generator);
    let ghost needles = byte_needles(names0);
    let ghost repsv = reps@.map_values(|v: Vec<u8>| v@);
    proof {
        assert(repsv == censor_chunks(names0));
    }

    // Rewrite every server-originated payload. A rewrite only happens at a
    // `FromServer` packet, where the check above rules out empty needles.
    let mut i: usize = 0;
    while i < n_packets
        invariant
            i <= n_packets,
            query_replay.value == old(query_replay).value,
            query_replay.query == old(query_replay).query,
            query_replay.server == old(query_replay).server,
            query_replay.replay_version == old(query_replay).replay_version,
            query_replay.packets@.len() == old(query_replay).packets@.len(),
            forall|j: int|
                i <= j < n_packets ==> #[trigger] query_replay.packets@[j] == old(
                    query_replay,
                ).packets@[j],
            forall|j: int|
                #![trigger query_replay.packets@[j]]
                0 <= j < i ==> ({
                    let p0 = old(query_replay).packets@[j];
                    let p1 = query_replay.packets@[j];
                    &&& p1.direction == p0.direction
                    &&& p1.protocol == p0.protocol
                    &&& p1.src_port == p0.src_port
                    &&& p1.dst_port == p0.dst_port
                    &&& p1.data@ == if p0.direction is FromServer {
                        apply_names(p0.data@, needles, repsv, 0)
                    } else {
                        p0.data@
                    }
                }),
        decreases n_packets - i,
    {
        if query_replay.packets[i].direction == PacketDirection::FromServer {
            proof {
                assert(packets0[i as int].direction is FromServer);
                assert(has_server_packet);
                assert(forall|j: int|
                    0 <= j < names0.len() ==> text_bytes(#[trigger] names0[j]).len() >= 1);
            }
            censor_packet(&mut query_replay.packets[i].data, &query_replay.value.player_names, &reps);
        }
        i = i + 1;
    }

    // Keep the distinct censored names, in order of first appearance.
    let mut kept: Vec<Vec<u8>> = Vec::new();
    let mut k2: usize = 0;
    while k2 < reps.len()
        invariant
            k2 <= reps@.len(),
            kept@.map_values(|c: Vec<u8>| c@) == dedup_bytes(repsv.take(k2 as int)),
            forall|j: int| 0 <= j < kept@.len() ==> all_bytes_ascii((#[trigger] kept@[j])@),
        decreases reps@.len() - k2,
    {
        let ghost pre = kept@;
        proof {
            assert(repsv.take(k2 as int + 1).drop_last() =~= repsv.take(k2 as int));
            assert(repsv.take(k2 as int + 1).last() == repsv[k2 as int]);
        }
        if !byte_list_contains(&kept, &reps[k2]) {
            kept.push(reps[k2].clone());
            proof {
                assert(kept@.map_values(|c: Vec<u8>| c@) =~= pre.map_values(|c: Vec<u8>| c@).push(
                    repsv[k2 as int],
                ));
            }
        }
        k2 = k2 + 1;
    }
    proof {
        assert(repsv.take(repsv.len() as int) =~= repsv);
    }

    let mut new_names: Vec<String> = Vec::new();
    let mut k3: usize = 0;
    while k3 < kept.len()
        invariant
            k3 <= kept@.len(),
            new_names@.map_values(|s: String| text_bytes(s)) == kept@.map_values(
                |c: Vec<u8>| c@,
            ).take(k3 as int),
        decreases kept@.len() - k3,
    {
        let ghost pre = new_names@;
        let s = ascii_bytes_to_string(&kept[k3]);
        new_names.push(s);
        proof {
            assert(new_names@.map_values(|s2: String| text_bytes(s2)) =~= pre.map_values(
                |s2: String| text_bytes(s2),
            ).push(kept@[k3 as int]@));
            assert(kept@.map_values(|c: Vec<u8>| c@).take(k3 as int + 1) =~= kept@.map_values(
                |c: Vec<u8>| c@,
            ).take(k3 as int).push(kept@[k3 as int]@));
        }
        k3 = k3 + 1;
    }
    proof {
        assert(kept@.map_values(|c: Vec<u8>| c@).take(kept@.len() as int) =~= kept@.map_values(
            |c: Vec<u8>| c@,
        ));
    }

    query_replay.value.player_names = new_names;
    Ok(())
}

} // verus!
