//! Greedy partition of a sequence into capped runs of equal items.
//!
//! Both the run-length coder (runs of equal pixels, at most 128 long) and the
//! run merger (runs of frames with the same algorithm, at most 32 long) cut
//! their input the same way: starting at an index, take as many equal items
//! as there are, but never more than the cap.

use vstd::prelude::*;

verus! {

/// Number of items that follow `s[start]` directly and repeat it, counted up
/// to `max`.
pub open spec fn repeats<T>(s: Seq<T>, start: int, max: int) -> nat
    decreases max,
{
    if max > 0 && 0 <= start && start + 1 < s.len() && s[start + 1] == s[start] {
        1 + repeats(s, start + 1, max - 1)
    } else {
        0
    }
}

/// The repeats stay within the sequence and within `max`.
pub proof fn lemma_repeats_bound<T>(s: Seq<T>, start: int, max: int)
    requires
        0 <= start < s.len(),
        0 <= max,
    ensures
        repeats(s, start, max) <= max,
        start + 1 + repeats(s, start, max) <= s.len(),
    decreases max,
{
    if max > 0 && start + 1 < s.len() && s[start + 1] == s[start] {
        lemma_repeats_bound(s, start + 1, max - 1);
    }
}

/// Length of the run that starts at `start`: the item `s[start]` and those
/// that repeat it, at most `cap` items in all.
pub open spec fn capped_run_len<T>(s: Seq<T>, start: int, cap: int) -> nat {
    1 + repeats(s, start, cap - 1)
}

/// Whether `n` items from `start` on form one full run under `cap`: they are
/// all equal, and the run can not be extended, because the cap is reached,
/// the sequence ends, or the next item differs.
pub open spec fn is_capped_run<T>(s: Seq<T>, start: int, cap: int, n: int) -> bool {
    &&& 1 <= n <= cap
    &&& 0 <= start
    &&& start + n <= s.len()
    &&& forall|i: int| start <= i < start + n ==> #[trigger] s[i] == s[start]
    &&& (n == cap || start + n == s.len() || s[start + n] != s[start])
}

/// A stretch of equal items that can not be extended is the run that
/// `capped_run_len` measures.
pub proof fn lemma_capped_run_unique<T>(s: Seq<T>, start: int, cap: int, n: int)
    requires
        is_capped_run(s, start, cap, n),
    ensures
        capped_run_len(s, start, cap) == n,
    decreases n,
{
    if n > 1 {
        assert(s[start + 1] == s[start]);
        assert forall|i: int| start + 1 <= i < start + n implies #[trigger] s[i] == s[start
            + 1] by {
            assert(s[i] == s[start]);
        }
        lemma_capped_run_unique(s, start + 1, cap - 1, n - 1);
    }
}

/// The run measured by `capped_run_len` is a full run: within the sequence,
/// within the cap, made of equal items, and not extensible.
pub proof fn lemma_capped_run_len<T>(s: Seq<T>, start: int, cap: int)
    requires
        0 <= start < s.len(),
        1 <= cap,
    ensures
        is_capped_run(s, start, cap, capped_run_len(s, start, cap) as int),
    decreases cap,
{
    if cap > 1 && start + 1 < s.len() && s[start + 1] == s[start] {
        lemma_capped_run_len(s, start + 1, cap - 1);
        let m = capped_run_len(s, start + 1, cap - 1);
        assert forall|i: int| start <= i < start + 1 + m implies #[trigger] s[i] == s[start] by {
            if i > start {
                assert(s[i] == s[start + 1]);
            }
        }
    }
}

} // verus!
