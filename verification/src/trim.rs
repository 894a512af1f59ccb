//! Silence trimming of a recording: which fixed-size blocks to keep, given
//! the voice-activity decision of each block. Every block within a margin
//! of a speech block is kept, so that sound onsets and tails survive; the
//! kept blocks are returned as maximal runs.
//!
//! Voice detection itself (a neural model over floating-point samples)
//! happens outside the library.
use vstd::prelude::*;

verus! {

/// Block length of the trimming pass, in ms.
pub const CHUNK_MS: u64 = 100;

/// Margin kept before and after speech, in ms.
pub const PAD_MS: u64 = 300;

/// Block `k` lies within `pad` blocks of one of the speech blocks before `upto`.
pub open spec fn near_speech_before(flags: Seq<bool>, pad: int, upto: int, k: int) -> bool {
    exists|s: int| 0 <= s < upto && s < flags.len() && #[trigger] flags[s] && s - pad <= k <= s + pad
}

/// Block `k` lies within `pad` blocks of a speech block.
pub open spec fn near_speech(flags: Seq<bool>, pad: int, k: int) -> bool {
    near_speech_before(flags, pad, flags.len() as int, k)
}

/// Non-empty block ranges `[start, end)` inside `0..n`, in order, each
/// separated from the next by at least one block.
pub open spec fn separated_runs(r: Seq<(usize, usize)>, n: int) -> bool {
    &&& forall|m: int| 0 <= m < r.len() ==> (#[trigger] r[m]).0 < r[m].1 <= n
    &&& forall|a: int, b: int| 0 <= a < b < r.len() ==> (#[trigger] r[a]).1 < (#[trigger] r[b]).0
}

/// Block `k` lies in one of the ranges.
pub open spec fn covered(r: Seq<(usize, usize)>, k: int) -> bool {
    exists|m: int| 0 <= m < r.len() && (#[trigger] r[m]).0 <= k < r[m].1
}

/// A run `[i, j)` of speech blocks covers, with its margins, exactly the
/// blocks from `i - pad` (at least 0) up to `j + pad`.
proof fn lemma_run_coverage(flags: Seq<bool>, pad: int, i: int, j: int, k: int)
    requires
        0 <= i < j <= flags.len(),
        pad >= 0,
        forall|s: int| i <= s < j ==> #[trigger] flags[s],
        0 <= k,
    ensures
        near_speech_before(flags, pad, j, k) <==> (near_speech_before(flags, pad, i, k) || (i - pad <= k
            < j + pad)),
{
    if i - pad <= k < j + pad {
        let s = if k < i {
            i
        } else if k >= j {
            j - 1
        } else {
            k
        };
        assert(flags[s]);
    }
    if near_speech_before(flags, pad, j, k) && !near_speech_before(flags, pad, i, k) {
        let s = choose|s: int| 0 <= s < j && s < flags.len() && #[trigger] flags[s] && s - pad <= k <= s + pad;
        assert(s >= i);
    }
}

/// The kept ranges of blocks: the maximal runs of blocks within `pad`
/// blocks of a speech block (`flags[k]` tells whether block `k` holds
/// speech).
pub fn speech_ranges(flags: &[bool], pad: usize) -> (r: Vec<(usize, usize)>)
    ensures
        separated_runs(r@, flags@.len() as int),
        forall|k: int| 0 <= k < flags@.len() ==> (covered(r@, k) <==> near_speech(flags@, pad as int, k)),
{
    let n = flags.len();
    let mut r: Vec<(usize, usize)> = Vec::new();
    let mut i: usize = 0;
    while i < n
        invariant
            n == flags@.len(),
            i <= n,
            separated_runs(r@, n as int),
            forall|k: int| 0 <= k < n ==> (covered(r@, k) <==> near_speech_before(flags@, pad as int, i as int, k)),
            r@.len() > 0 ==> r@.last().0 <= (if i >= pad { i - pad } else { 0 }),
        decreases n - i,
    {
        if !flags[i] {
            proof {
                assert forall|k: int| 0 <= k < n implies (near_speech_before(flags@, pad as int, i + 1, k)
                    <==> near_speech_before(flags@, pad as int, i as int, k)) by {
                    if near_speech_before(flags@, pad as int, i + 1, k) {
                        let s = choose|s: int|
                            0 <= s < i + 1 && s < flags@.len() && #[trigger] flags@[s] && s - pad <= k <= s + pad;
                        assert(s != i);
                    }
                }
            }
            i += 1;
            continue;
        }
        let start: usize = if i >= pad {
            i - pad
        } else {
            0
        };
        let mut j: usize = i;
        while j < n && flags[j]
            invariant
                n == flags@.len(),
                i <= j <= n,
                forall|s: int| i <= s < j ==> #[trigger] flags@[s],
            decreases n - j,
        {
            j += 1;
        }
        let end: usize = if pad >= n - j {
            n
        } else {
            j + pad
        };
        proof {
            assert(j > i);
            assert forall|k: int| 0 <= k < n implies (near_speech_before(flags@, pad as int, j as int, k) <==> (
            near_speech_before(flags@, pad as int, i as int, k) || (start <= k < end))) by {
                lemma_run_coverage(flags@, pad as int, i as int, j as int, k);
            }
        }
        let ghost old_r = r@;
        let len = r.len();
        if len > 0 && start <= r[len - 1].1 {
            let last = r[len - 1];
            let new_end = if end > last.1 {
                end
            } else {
                last.1
            };
            r.set(len - 1, (last.0, new_end));
            proof {
                assert forall|k: int| 0 <= k < n implies (covered(r@, k) <==> near_speech_before(
                    flags@,
                    pad as int,
                    j as int,
                    k,
                )) by {
                    if covered(r@, k) {
                        let m = choose|m: int| 0 <= m < r@.len() && (#[trigger] r@[m]).0 <= k < r@[m].1;
                        if m < len - 1 {
                            assert(old_r[m] == r@[m]);
                            assert(covered(old_r, k));
                        } else if k < last.1 {
                            assert(covered(old_r, k));
                        }
                    }
                    if near_speech_before(flags@, pad as int, j as int, k) {
                        if covered(old_r, k) {
                            let m = choose|m: int| 0 <= m < old_r.len() && (#[trigger] old_r[m]).0 <= k < old_r[m].1;
                            if m < len - 1 {
                                assert(r@[m] == old_r[m]);
                            } else {
                                assert(r@[len - 1].0 <= k < r@[len - 1].1);
                            }
                        } else {
                            assert(r@[len - 1].0 <= k < r@[len - 1].1);
                        }
                    }
                }
                assert forall|a: int, b: int| 0 <= a < b < r@.len() implies (#[trigger] r@[a]).1 < (
                #[trigger] r@[b]).0 by {
                    assert(old_r[a].1 < old_r[b].0);
                }
            }
        } else {
            r.push((start, end));
            proof {
                assert forall|k: int| 0 <= k < n implies (covered(r@, k) <==> near_speech_before(
                    flags@,
                    pad as int,
                    j as int,
                    k,
                )) by {
                    if covered(r@, k) {
                        let m = choose|m: int| 0 <= m < r@.len() && (#[trigger] r@[m]).0 <= k < r@[m].1;
                        if m < len {
                            assert(old_r[m] == r@[m]);
                            assert(covered(old_r, k));
                        }
                    }
                    if near_speech_before(flags@, pad as int, j as int, k) {
                        if covered(old_r, k) {
                            let m = choose|m: int| 0 <= m < old_r.len() && (#[trigger] old_r[m]).0 <= k < old_r[m].1;
                            assert(r@[m] == old_r[m]);
                        } else {
                            assert(r@[len as int].0 <= k < r@[len as int].1);
                        }
                    }
                }
                assert forall|a: int, b: int| 0 <= a < b < r@.len() implies (#[trigger] r@[a]).1 < (
                #[trigger] r@[b]).0 by {
                    if b < len {
                        assert(old_r[a].1 < old_r[b].0);
                    } else if a < len - 1 {
                        assert(old_r[a].1 < old_r[len - 1].0);
                        assert(old_r[len - 1].0 < old_r[len - 1].1);
                    }
                }
            }
        }
        i = j;
    }
    r
}

/// The sample range `[from, to)` of a block range, for blocks of `chunk`
/// samples in a recording of `len` samples (the last block may be short).
pub fn block_samples(range: (usize, usize), chunk: usize, len: usize) -> (r: (usize, usize))
    requires
        range.0 * chunk <= usize::MAX,
        range.1 * chunk <= usize::MAX,
    ensures
        r.0 == range.0 * chunk,
        r.1 == if range.1 * chunk < len {
            range.1 * chunk
        } else {
            len as int
        },
{
    let from = range.0 * chunk;
    let to = range.1 * chunk;
    (from, if to < len {
        to
    } else {
        len
    })
}

} // verus!
