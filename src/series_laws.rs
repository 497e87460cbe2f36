//! Laws that relate the series operations to one another.

use vstd::prelude::*;

use crate::series::{cumulated, ints, prefix_sum, range_sum, rises_over, unroll_state, unrolled_seq, window_diff};

verus! {

/// The trailing `w`-slot sums of `d`: slot `i` holds the sum of
/// `d[i-w+1 ..= i]`, the slots before the first counting as zero.
pub open spec fn trailing_sums(d: Seq<u64>, w: int) -> Seq<int> {
    Seq::new(d.len(), |i: int| range_sum(d, if i - w + 1 < 0 { 0 } else { i - w + 1 }, i + 1))
}

proof fn lemma_prefix_sum_nonneg_all(s: Seq<u64>)
    ensures
        forall|a: int, b: int| 0 <= a <= b <= s.len() ==> 0 <= #[trigger] prefix_sum(s, a) <= #[trigger] prefix_sum(s, b),
{
    assert forall|a: int, b: int| 0 <= a <= b <= s.len() implies 0 <= #[trigger] prefix_sum(s, a) <= #[trigger] prefix_sum(s, b) by {
        crate::series::lemma_prefix_sum_mono(s, a, b);
    }
}

/// After a running total, the window difference over `w` slots yields, from
/// slot `w` on, the sum of the original slots `i-w+1 ..= i`, and zero
/// before; a running total never falls, so `diff` accepts it.
pub proof fn lemma_cumsum_window(s: Seq<u64>, c: Seq<u64>, w: int)
    requires
        ints(c) == cumulated(s),
        0 <= w,
    ensures
        rises_over(c, w),
        forall|i: int| w <= i < s.len() ==> #[trigger] window_diff(c, w)[i] == range_sum(s, i - w + 1, i + 1),
        forall|i: int| 0 <= i < w && i < s.len() ==> #[trigger] window_diff(c, w)[i] == 0,
{
    lemma_prefix_sum_nonneg_all(s);
    assert(c.len() == s.len()) by {
        assert(ints(c).len() == c.len());
    }
    assert forall|i: int| 0 <= i < c.len() implies #[trigger] c[i] as int == prefix_sum(s, i + 1) by {
        assert(ints(c)[i] == c[i] as int);
    }
    assert forall|i: int| w <= i < c.len() implies #[trigger] c[i - w] <= c[i] by {
        assert(c[i - w] as int == prefix_sum(s, i - w + 1));
        assert(c[i] as int == prefix_sum(s, i + 1));
    }
    assert forall|i: int| w <= i < s.len() implies #[trigger] window_diff(c, w)[i] == range_sum(s, i - w + 1, i + 1) by {
        assert(c[i - w] as int == prefix_sum(s, i - w + 1));
        assert(c[i] as int == prefix_sum(s, i + 1));
    }
}

/// A running total followed by a one-slot difference gives back the series,
/// except that the first slot becomes zero.
pub proof fn lemma_cumsum_diff_inverse(s: Seq<u64>, c: Seq<u64>)
    requires
        ints(c) == cumulated(s),
    ensures
        rises_over(c, 1),
        window_diff(c, 1) == Seq::new(s.len(), |i: int| if i == 0 { 0 } else { s[i] as int }),
{
    lemma_cumsum_window(s, c, 1);
    assert(c.len() == s.len()) by {
        assert(ints(c).len() == c.len());
    }
    assert forall|i: int| 1 <= i < s.len() implies #[trigger] window_diff(c, 1)[i] == s[i] as int by {
        assert(window_diff(c, 1)[i] == range_sum(s, i, i + 1));
    }
    assert(window_diff(c, 1) =~= Seq::new(s.len(), |i: int| if i == 0 { 0 } else { s[i] as int }));
}

proof fn lemma_unroll_exact(d: Seq<u64>, s: Seq<u64>, w: int, n: int)
    requires
        0 < w,
        ints(s) == trailing_sums(d, w),
        0 <= n <= d.len(),
    ensures
        unroll_state(s, w, n).0 == ints(d).subrange(0, n),
        unroll_state(s, w, n).1 == 0,
    decreases n,
{
    assert(s.len() == d.len()) by {
        assert(ints(s).len() == s.len());
    }
    if n == 0 {
        assert(ints(d).subrange(0, 0) =~= Seq::<int>::empty());
    } else {
        lemma_unroll_exact(d, s, w, n - 1);
        let i = n - 1;
        let prev = unroll_state(s, w, n - 1);
        assert(s[i] as int == ints(s)[i]);
        let lo = if i - w + 1 < 0 { 0 } else { i - w + 1 };
        assert(s[i] as int == prefix_sum(d, i + 1) - prefix_sum(d, lo));
        if i > 0 {
            let lo1 = if i - 1 - w + 1 < 0 { 0 } else { i - 1 - w + 1 };
            assert(s[i - 1] as int == ints(s)[i - 1]);
            assert(s[i - 1] as int == prefix_sum(d, i) - prefix_sum(d, lo1));
            if i >= w {
                assert(prev.0[i - w] == ints(d)[i - w]);
                assert(prefix_sum(d, lo) == prefix_sum(d, lo1) + d[i - w]);
            }
        }
        let step = (s[i] as int) - (if i > 0 { s[i - 1] as int } else { 0 })
            + (if i < w { 0 } else { prev.0[i - w] });
        assert(step == d[i] as int);
        assert(unroll_state(s, w, n).0 =~= ints(d).subrange(0, n));
    }
}

/// Where the input holds the trailing `w`-slot sums of non-negative daily
/// values `d`, unrolling recovers `d` exactly, and a running total of it
/// followed by a `w`-slot difference gives back the input from slot `w` on
/// (the first `w` slots of a difference are zero).
pub proof fn lemma_unroll_sum_identity(d: Seq<u64>, s: Seq<u64>, w: int, c: Seq<u64>)
    requires
        0 < w,
        ints(s) == trailing_sums(d, w),
        ints(c) == cumulated(d),
    ensures
        unrolled_seq(s, w) == ints(d),
        rises_over(c, w),
        forall|i: int| w <= i < s.len() ==> #[trigger] window_diff(c, w)[i] == s[i] as int,
{
    assert(s.len() == d.len()) by {
        assert(ints(s).len() == s.len());
    }
    lemma_unroll_exact(d, s, w, d.len() as int);
    assert(ints(d).subrange(0, d.len() as int) =~= ints(d));
    lemma_cumsum_window(d, c, w);
    assert forall|i: int| w <= i < s.len() implies #[trigger] window_diff(c, w)[i] == s[i] as int by {
        assert(ints(s)[i] == s[i] as int);
    }
}

} // verus!
