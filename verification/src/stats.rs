use vstd::prelude::*;

verus! {

/// The sum of a sequence of durations.
pub open spec fn sum64(s: Seq<u64>) -> int
    decreases s.len(),
{
    if s.len() == 0 {
        0
    } else {
        sum64(s.drop_last()) + s.last()
    }
}

/// The least duration; meaningful when the sequence is not empty.
pub open spec fn min64(s: Seq<u64>) -> u64
    decreases s.len(),
{
    if s.len() <= 1 {
        s[0]
    } else {
        let m = min64(s.drop_last());
        if s.last() < m {
            s.last()
        } else {
            m
        }
    }
}

/// The greatest duration; meaningful when the sequence is not empty.
pub open spec fn max64(s: Seq<u64>) -> u64
    decreases s.len(),
{
    if s.len() <= 1 {
        s[0]
    } else {
        let m = max64(s.drop_last());
        if s.last() > m {
            s.last()
        } else {
            m
        }
    }
}

/// The sum of a sequence of integers.
pub open spec fn sum_int(s: Seq<int>) -> int
    decreases s.len(),
{
    if s.len() == 0 {
        0
    } else {
        sum_int(s.drop_last()) + s.last()
    }
}

/// The least element; meaningful when the sequence is not empty.
pub open spec fn min_int(s: Seq<int>) -> int
    decreases s.len(),
{
    if s.len() <= 1 {
        s[0]
    } else {
        let m = min_int(s.drop_last());
        if s.last() < m {
            s.last()
        } else {
            m
        }
    }
}

/// The greatest element; meaningful when the sequence is not empty.
pub open spec fn max_int(s: Seq<int>) -> int
    decreases s.len(),
{
    if s.len() <= 1 {
        s[0]
    } else {
        let m = max_int(s.drop_last());
        if s.last() > m {
            s.last()
        } else {
            m
        }
    }
}

/// The sum of `n` durations is at most `n` times the largest representable
/// one.
pub proof fn lemma_sum64_bound(s: Seq<u64>)
    ensures
        0 <= sum64(s) <= s.len() * (u64::MAX as int),
    decreases s.len(),
{
    if s.len() == 0 {
    } else {
        lemma_sum64_bound(s.drop_last());
        assert((s.len() - 1) * (u64::MAX as int) + u64::MAX as int == s.len() * (u64::MAX as int))
            by (nonlinear_arith);
    }
}

/// The least recorded duration.
pub fn vec_min(v: &Vec<u64>) -> (r: u64)
    requires
        v@.len() > 0,
    ensures
        r == min64(v@),
{
    let n = v.len();
    let mut best: u64 = v[0];
    let mut i: usize = 1;
    while i < n
        invariant
            1 <= i <= n,
            n == v@.len(),
            best == min64(v@.take(i as int)),
        decreases n - i,
    {
        proof {
            assert(v@.take(i as int + 1).drop_last() =~= v@.take(i as int));
        }
        let x = v[i];
        if x < best {
            best = x;
        }
        i = i + 1;
    }
    proof {
        assert(v@.take(n as int) =~= v@);
    }
    best
}

/// The greatest recorded duration.
pub fn vec_max(v: &Vec<u64>) -> (r: u64)
    requires
        v@.len() > 0,
    ensures
        r == max64(v@),
{
    let n = v.len();
    let mut best: u64 = v[0];
    let mut i: usize = 1;
    while i < n
        invariant
            1 <= i <= n,
            n == v@.len(),
            best == max64(v@.take(i as int)),
        decreases n - i,
    {
        proof {
            assert(v@.take(i as int + 1).drop_last() =~= v@.take(i as int));
        }
        let x = v[i];
        if x > best {
            best = x;
        }
        i = i + 1;
    }
    proof {
        assert(v@.take(n as int) =~= v@);
    }
    best
}

/// The mean recorded duration, rounded down.
pub fn vec_avg(v: &Vec<u64>) -> (r: u64)
    requires
        v@.len() > 0,
    ensures
        r == sum64(v@) / (v@.len() as int),
{
    let n = v.len();
    let mut sum: u128 = 0;
    let mut i: usize = 0;
    proof {
        lemma_sum64_bound(v@);
    }
    while i < n
        invariant
            i <= n,
            n == v@.len(),
            sum == sum64(v@.take(i as int)),
            sum <= (i as int) * (u64::MAX as int),
        decreases n - i,
    {
        proof {
            assert(v@.take(i as int + 1).drop_last() =~= v@.take(i as int));
            assert((i as int + 1) * (u64::MAX as int) == (i as int) * (u64::MAX as int)
                + u64::MAX as int) by (nonlinear_arith);
        }
        sum = sum + v[i] as u128;
        i = i + 1;
    }
    proof {
        assert(v@.take(n as int) =~= v@);
        lemma_avg_fits(sum as int, n as int);
    }
    (sum / (n as u128)) as u64
}

/// A nonnegative sum of durations divided by their count fits in a duration.
proof fn lemma_avg_fits(sum: int, n: int)
    requires
        n >= 1,
        0 <= sum <= n * (u64::MAX as int),
    ensures
        0 <= sum / n <= u64::MAX as int,
{
    assert(sum / n <= u64::MAX as int) by (nonlinear_arith)
        requires
            n >= 1,
            sum <= n * (u64::MAX as int),
    ;
    assert(sum / n >= 0) by (nonlinear_arith)
        requires
            n >= 1,
            sum >= 0,
    ;
}

} // verus!
