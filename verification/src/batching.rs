//! Cutting a data set into batches, and sizing the work of each thread.
use vstd::prelude::*;

verus! {

/// `a / b` rounded up.
pub open spec fn ceil_div_spec(a: int, b: int) -> int {
    (a + b - 1) / b
}

/// `a / b` rounded up, for a positive `b`; never overflows.
pub fn ceil_div(a: usize, b: usize) -> (r: usize)
    requires
        b > 0,
    ensures
        r == ceil_div_spec(a as int, b as int),
{
    let q = a / b;
    let rem = a % b;
    proof {
        assert(a == b * q + rem && rem < b) by (nonlinear_arith)
            requires q == a / b, rem == a % b, b > 0;
        if rem == 0 {
            assert((a + b - 1) / (b as int) == q) by (nonlinear_arith)
                requires a == b * q, b > 0, q >= 0;
        } else {
            assert((a + b - 1) / (b as int) == q + 1) by (nonlinear_arith)
                requires a == b * q + rem, 0 < rem < b, q >= 0;
        }
        assert(q * b <= a) by (nonlinear_arith)
            requires a == b * q + rem, rem >= 0, b > 0, q >= 0;
    }
    if rem != 0 {
        assert(q < a) by (nonlinear_arith)
            requires a == b * q + rem, rem > 0, b > 0, q >= 0;
        q + 1
    } else {
        q
    }
}

/// Range `k` of the batches of `bs` samples out of `n`: `[k * bs, min((k + 1) * bs, n))`.
pub open spec fn batch_range(n: int, bs: int, k: int) -> (int, int) {
    (k * bs, if (k + 1) * bs <= n {
        (k + 1) * bs
    } else {
        n
    })
}

/// The batches cut `[0, n)` into consecutive, nonempty ranges of at most `bs`
/// samples: the first starts at 0, each ends where the next starts, and the
/// last ends at `n`; there are none when `n` is 0.
pub proof fn lemma_batches_partition(n: int, bs: int)
    requires
        n >= 0,
        bs > 0,
    ensures
        n == 0 ==> ceil_div_spec(n, bs) == 0,
        n > 0 ==> ceil_div_spec(n, bs) >= 1 && batch_range(n, bs, 0).0 == 0 && batch_range(
            n,
            bs,
            ceil_div_spec(n, bs) - 1,
        ).1 == n,
        forall|k: int|
            0 <= k < ceil_div_spec(n, bs) - 1 ==> (#[trigger] batch_range(n, bs, k)).1
                == batch_range(n, bs, k + 1).0,
        forall|k: int|
            0 <= k < ceil_div_spec(n, bs) ==> (#[trigger] batch_range(n, bs, k)).0 < batch_range(
                n,
                bs,
                k,
            ).1 <= batch_range(n, bs, k).0 + bs,
{
    let c = ceil_div_spec(n, bs);
    assert(c * bs >= n && (c - 1) * bs < n && c >= 0) by (nonlinear_arith)
        requires c == (n + bs - 1) / bs, n >= 0, bs > 0;
    if n == 0 {
        assert(c == 0) by (nonlinear_arith)
            requires c == (n + bs - 1) / bs, n == 0, bs > 0;
    }
    assert forall|k: int| 0 <= k < c - 1 implies (#[trigger] batch_range(n, bs, k)).1
        == batch_range(n, bs, k + 1).0 by {
        assert((k + 1) * bs <= (c - 1) * bs) by (nonlinear_arith)
            requires k + 1 <= c - 1, bs > 0;
    }
    assert forall|k: int| 0 <= k < c implies (#[trigger] batch_range(n, bs, k)).0 < batch_range(
        n,
        bs,
        k,
    ).1 <= batch_range(n, bs, k).0 + bs by {
        assert(k * bs <= (c - 1) * bs && (k + 1) * bs == k * bs + bs) by (nonlinear_arith)
            requires k <= c - 1, bs > 0;
    }
    if n > 0 {
        assert(c >= 1);
        assert(0 * bs == 0);
        assert((c - 1 + 1) * bs == c * bs);
    }
}

/// The half-open index ranges of consecutive batches of `bs` samples out of
/// `n`, the last one possibly shorter.
pub fn batch_ranges(n: usize, bs: usize) -> (ranges: Vec<(usize, usize)>)
    requires
        bs > 0,
    ensures
        ranges@.len() == ceil_div_spec(n as int, bs as int),
        forall|k: int|
            0 <= k < ranges@.len() ==> (#[trigger] ranges@[k]).0 == batch_range(n as int, bs as int, k).0
                && ranges@[k].1 == batch_range(n as int, bs as int, k).1,
{
    let mut ranges: Vec<(usize, usize)> = Vec::new();
    let mut s: usize = 0;
    assert(ranges@.len() * bs == 0) by (nonlinear_arith)
        requires ranges@.len() == 0;
    while s < n
        invariant
            bs > 0,
            s <= n,
            s == ranges@.len() * bs,
            forall|k: int|
                0 <= k < ranges@.len() ==> (#[trigger] ranges@[k]).0 == batch_range(n as int, bs as int, k).0
                    && ranges@[k].1 == batch_range(n as int, bs as int, k).1,
        decreases n - s,
    {
        let ghost k = ranges@.len() as int;
        let end = if n - s < bs { n } else { s + bs };
        proof {
            assert((k + 1) * bs == s + bs) by (nonlinear_arith)
                requires s == k * bs;
        }
        ranges.push((s, end));
        if end == n {
            proof {
                let len = ranges@.len() as int;
                assert(ceil_div_spec(n as int, bs as int) == len) by (nonlinear_arith)
                    requires len == k + 1, k * bs < n, n <= (k + 1) * bs, bs > 0;
            }
            return ranges;
        }
        s = end;
    }
    proof {
        let len = ranges@.len() as int;
        assert(ceil_div_spec(n as int, bs as int) == len) by (nonlinear_arith)
            requires n == len * bs, bs > 0, len >= 0;
    }
    ranges
}

/// The smallest multiple of `m` that is at least `x`.
pub open spec fn next_multiple(x: int, m: int) -> int {
    if x % m == 0 {
        x
    } else {
        x + (m - x % m)
    }
}

/// The number of samples each evaluation thread takes: an even share of `n`
/// among `threads`, rounded up to whole batches of `eval_bs`, and at least one
/// batch.
pub open spec fn eval_chunk_size_spec(n: int, threads: int, eval_bs: int) -> int {
    let share = next_multiple(ceil_div_spec(n, threads), eval_bs);
    if share >= eval_bs {
        share
    } else {
        eval_bs
    }
}

/// Samples per evaluation thread (see [`eval_chunk_size_spec`]).
pub fn eval_chunk_size(n: usize, threads: usize, eval_bs: usize) -> (r: usize)
    requires
        threads > 0,
        eval_bs > 0,
        next_multiple(ceil_div_spec(n as int, threads as int), eval_bs as int) <= usize::MAX,
    ensures
        r == eval_chunk_size_spec(n as int, threads as int, eval_bs as int),
{
    let share = ceil_div(n, threads);
    let rem = share % eval_bs;
    let rounded = if rem == 0 { share } else { share + (eval_bs - rem) };
    if rounded >= eval_bs {
        rounded
    } else {
        eval_bs
    }
}

} // verus!
