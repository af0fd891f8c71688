//! The confusion matrix of a classifier over the ten digit classes, and the
//! ranking of its most frequent confusions.
use vstd::prelude::*;
use crate::utils::num_matches;

verus! {

broadcast use vstd::seq_lib::group_to_multiset_ensures;

/// Number of classes: the ten digits.
pub const NUM_CLASSES: usize = 10;

/// The number of samples below `n` whose label is `r` and whose prediction is `p`.
pub open spec fn pair_count(labels: Seq<usize>, predicted: Seq<usize>, n: int, r: int, p: int) -> nat
    decreases n,
{
    if n <= 0 {
        0
    } else {
        pair_count(labels, predicted, n - 1, r, p) + if labels[n - 1] == r && predicted[n - 1]
            == p {
            1nat
        } else {
            0nat
        }
    }
}

proof fn lemma_pair_count_bound(labels: Seq<usize>, predicted: Seq<usize>, n: int, r: int, p: int)
    requires
        n >= 0,
    ensures
        pair_count(labels, predicted, n, r, p) <= n,
    decreases n,
{
    if n > 0 {
        lemma_pair_count_bound(labels, predicted, n - 1, r, p);
    }
}

/// The confusion matrix of the first `predicted@.len()` samples: entry
/// `[r][p]` counts the samples of true class `r` that were predicted as `p`.
pub fn confusion_matrix(labels: &[usize], predicted: &[usize]) -> (conf: Vec<Vec<usize>>)
    requires
        labels@.len() >= predicted@.len(),
        forall|i: int| 0 <= i < predicted@.len() ==> #[trigger] labels@[i] < NUM_CLASSES,
        forall|i: int| 0 <= i < predicted@.len() ==> #[trigger] predicted@[i] < NUM_CLASSES,
    ensures
        conf@.len() == NUM_CLASSES,
        forall|r: int| 0 <= r < NUM_CLASSES ==> (#[trigger] conf@[r])@.len() == NUM_CLASSES,
        forall|r: int, p: int|
            0 <= r < NUM_CLASSES && 0 <= p < NUM_CLASSES ==> #[trigger] conf@[r]@[p] == pair_count(
                labels@,
                predicted@,
                predicted@.len() as int,
                r,
                p,
            ),
        forall|r: int|
            0 <= r < NUM_CLASSES ==> row_sum(#[trigger] conf@[r]@, NUM_CLASSES as int) == class_count(
                labels@,
                predicted@.len() as int,
                r,
            ),
        diagonal_sum(conf@, NUM_CLASSES as int) == num_matches(
            predicted@,
            labels@,
            predicted@.len() as int,
        ),
{
    let n = predicted.len();
    let mut counts: Vec<usize> = Vec::new();
    for k in 0..100
        invariant
            counts@.len() == k,
            forall|q: int| 0 <= q < k ==> #[trigger] counts@[q] == 0,
    {
        counts.push(0);
    }
    for i in 0..n
        invariant
            n == predicted@.len(),
            labels@.len() >= n,
            forall|q: int| 0 <= q < n ==> #[trigger] labels@[q] < NUM_CLASSES,
            forall|q: int| 0 <= q < n ==> #[trigger] predicted@[q] < NUM_CLASSES,
            counts@.len() == 100,
            forall|r: int, p: int|
                0 <= r < 10 && 0 <= p < 10 ==> #[trigger] counts@[r * 10 + p] == pair_count(
                    labels@,
                    predicted@,
                    i as int,
                    r,
                    p,
                ),
    {
        let actual = labels[i];
        let pred = predicted[i];
        let idx = actual * 10 + pred;
        proof {
            lemma_pair_count_bound(labels@, predicted@, i as int, actual as int, pred as int);
        }
        let updated = counts[idx] + 1;
        counts.set(idx, updated);
        proof {
            assert forall|r: int, p: int| 0 <= r < 10 && 0 <= p < 10 implies #[trigger] counts@[r
                * 10 + p] == pair_count(labels@, predicted@, i + 1, r, p) by {
                if r != actual || p != pred {
                    assert(r * 10 + p != idx);
                }
            }
        }
    }
    let mut conf: Vec<Vec<usize>> = Vec::new();
    for r in 0..NUM_CLASSES
        invariant
            counts@.len() == 100,
            conf@.len() == r,
            forall|a: int| 0 <= a < r ==> (#[trigger] conf@[a])@.len() == NUM_CLASSES,
            forall|a: int, p: int|
                0 <= a < r && 0 <= p < NUM_CLASSES ==> #[trigger] conf@[a]@[p] == counts@[a * 10 + p],
    {
        let mut row: Vec<usize> = Vec::new();
        for p in 0..NUM_CLASSES
            invariant
                counts@.len() == 100,
                r < 10,
                row@.len() == p,
                forall|b: int| 0 <= b < p ==> #[trigger] row@[b] == counts@[r * 10 + b],
        {
            row.push(counts[r * 10 + p]);
        }
        conf.push(row);
    }
    proof {
        let ni = n as int;
        assert forall|r: int| 0 <= r < NUM_CLASSES implies row_sum(
            #[trigger] conf@[r]@,
            NUM_CLASSES as int,
        ) == class_count(labels@, ni, r) by {
            lemma_row_sum_is_pair_row_sum(conf@[r]@, labels@, predicted@, ni, r, NUM_CLASSES as int);
            lemma_row_counts_class(labels@, predicted@, ni, r);
        }
        lemma_diagonal_sum_is_pair_trace(conf@, labels@, predicted@, ni, NUM_CLASSES as int);
        lemma_diagonal_counts_hits(labels@, predicted@, ni);
    }
    conf
}

/// The sum of the diagonal entries of the first `k` rows.
pub open spec fn diagonal_sum(conf: Seq<Vec<usize>>, k: int) -> int
    decreases k,
{
    if k <= 0 {
        0
    } else {
        diagonal_sum(conf, k - 1) + conf[k - 1]@[k - 1]
    }
}

proof fn lemma_row_sum_is_pair_row_sum(
    row: Seq<usize>,
    labels: Seq<usize>,
    predicted: Seq<usize>,
    n: int,
    r: int,
    k: int,
)
    requires
        0 <= k <= row.len(),
        forall|p: int| 0 <= p < k ==> row[p] == pair_count(labels, predicted, n, r, p),
    ensures
        row_sum(row, k) == pair_row_sum(labels, predicted, n, r, k),
    decreases k,
{
    if k > 0 {
        lemma_row_sum_is_pair_row_sum(row, labels, predicted, n, r, k - 1);
    }
}

proof fn lemma_diagonal_sum_is_pair_trace(
    conf: Seq<Vec<usize>>,
    labels: Seq<usize>,
    predicted: Seq<usize>,
    n: int,
    k: int,
)
    requires
        0 <= k <= conf.len(),
        forall|r: int| 0 <= r < k ==> k <= (#[trigger] conf[r])@.len(),
        forall|r: int, p: int|
            0 <= r < k && 0 <= p < k ==> #[trigger] conf[r]@[p] == pair_count(labels, predicted, n, r, p),
    ensures
        diagonal_sum(conf, k) == pair_trace(labels, predicted, n, k),
    decreases k,
{
    if k > 0 {
        lemma_diagonal_sum_is_pair_trace(conf, labels, predicted, n, k - 1);
        assert(conf[k - 1]@[k - 1] == pair_count(labels, predicted, n, k - 1, k - 1));
    }
}

/// The sum over predicted classes `p < k` of the samples below `n` of true class `r`
/// predicted as `p`.
pub open spec fn pair_row_sum(labels: Seq<usize>, predicted: Seq<usize>, n: int, r: int, k: int) -> int
    decreases k,
{
    if k <= 0 {
        0
    } else {
        pair_row_sum(labels, predicted, n, r, k - 1) + pair_count(labels, predicted, n, r, k - 1)
    }
}

/// The sum over classes `r < k` of the samples below `n` of true class `r`
/// predicted as `r`: the trace of the first `k` rows.
pub open spec fn pair_trace(labels: Seq<usize>, predicted: Seq<usize>, n: int, k: int) -> int
    decreases k,
{
    if k <= 0 {
        0
    } else {
        pair_trace(labels, predicted, n, k - 1) + pair_count(labels, predicted, n, k - 1, k - 1)
    }
}

/// The number of samples below `n` whose label is `r`.
pub open spec fn class_count(labels: Seq<usize>, n: int, r: int) -> nat
    decreases n,
{
    if n <= 0 {
        0
    } else {
        class_count(labels, n - 1, r) + if labels[n - 1] == r {
            1nat
        } else {
            0nat
        }
    }
}

/// The number of samples below `n` whose label is one of the classes `r < k`.
pub open spec fn class_total(labels: Seq<usize>, n: int, k: int) -> int
    decreases k,
{
    if k <= 0 {
        0
    } else {
        class_total(labels, n, k - 1) + class_count(labels, n, k - 1)
    }
}

proof fn lemma_pair_row_sum_step(labels: Seq<usize>, predicted: Seq<usize>, n: int, r: int, k: int)
    requires
        n >= 1,
        k >= 0,
    ensures
        pair_row_sum(labels, predicted, n, r, k) == pair_row_sum(labels, predicted, n - 1, r, k) + if labels[n - 1] == r && 0 <= predicted[n - 1] < k {
            1int
        } else {
            0int
        },
    decreases k,
{
    if k > 0 {
        lemma_pair_row_sum_step(labels, predicted, n, r, k - 1);
    }
}

/// Row `r` of the confusion matrix adds up to the number of samples whose
/// true class is `r`: each row holds one class's samples.
pub proof fn lemma_row_counts_class(labels: Seq<usize>, predicted: Seq<usize>, n: int, r: int)
    requires
        0 <= n <= predicted.len(),
        n <= labels.len(),
        forall|i: int| 0 <= i < n ==> #[trigger] predicted[i] < NUM_CLASSES,
    ensures
        pair_row_sum(labels, predicted, n, r, NUM_CLASSES as int) == class_count(labels, n, r),
    decreases n,
{
    if n > 0 {
        lemma_row_counts_class(labels, predicted, n - 1, r);
        lemma_pair_row_sum_step(labels, predicted, n, r, NUM_CLASSES as int);
    } else {
        lemma_pair_row_sum_zero(labels, predicted, r, NUM_CLASSES as int);
    }
}

proof fn lemma_pair_row_sum_zero(labels: Seq<usize>, predicted: Seq<usize>, r: int, k: int)
    requires
        k >= 0,
    ensures
        pair_row_sum(labels, predicted, 0, r, k) == 0,
    decreases k,
{
    if k > 0 {
        lemma_pair_row_sum_zero(labels, predicted, r, k - 1);
    }
}

proof fn lemma_pair_trace_step(labels: Seq<usize>, predicted: Seq<usize>, n: int, k: int)
    requires
        n >= 1,
        k >= 0,
    ensures
        pair_trace(labels, predicted, n, k) == pair_trace(labels, predicted, n - 1, k) + if labels[n - 1] == predicted[n - 1] && 0 <= labels[n - 1] < k {
            1int
        } else {
            0int
        },
    decreases k,
{
    if k > 0 {
        lemma_pair_trace_step(labels, predicted, n, k - 1);
    }
}

proof fn lemma_pair_trace_zero(labels: Seq<usize>, predicted: Seq<usize>, k: int)
    requires
        k >= 0,
    ensures
        pair_trace(labels, predicted, 0, k) == 0,
    decreases k,
{
    if k > 0 {
        lemma_pair_trace_zero(labels, predicted, k - 1);
    }
}

/// The diagonal of the confusion matrix adds up to the number of correct
/// predictions, as `count_correct` counts them: the diagonal holds the hits.
pub proof fn lemma_diagonal_counts_hits(labels: Seq<usize>, predicted: Seq<usize>, n: int)
    requires
        0 <= n <= predicted.len(),
        n <= labels.len(),
        forall|i: int| 0 <= i < n ==> #[trigger] labels[i] < NUM_CLASSES,
    ensures
        pair_trace(labels, predicted, n, NUM_CLASSES as int) == num_matches(predicted, labels, n),
    decreases n,
{
    if n > 0 {
        lemma_diagonal_counts_hits(labels, predicted, n - 1);
        lemma_pair_trace_step(labels, predicted, n, NUM_CLASSES as int);
    } else {
        lemma_pair_trace_zero(labels, predicted, NUM_CLASSES as int);
    }
}

proof fn lemma_class_total_step(labels: Seq<usize>, n: int, k: int)
    requires
        n >= 1,
        k >= 0,
    ensures
        class_total(labels, n, k) == class_total(labels, n - 1, k) + if 0 <= labels[n - 1] < k {
            1int
        } else {
            0int
        },
    decreases k,
{
    if k > 0 {
        lemma_class_total_step(labels, n, k - 1);
    }
}

proof fn lemma_class_total_zero(labels: Seq<usize>, k: int)
    requires
        k >= 0,
    ensures
        class_total(labels, 0, k) == 0,
    decreases k,
{
    if k > 0 {
        lemma_class_total_zero(labels, k - 1);
    }
}

/// Every sample falls in exactly one row: the rows' class counts add up to
/// the number of samples.
pub proof fn lemma_rows_cover_samples(labels: Seq<usize>, n: int)
    requires
        0 <= n <= labels.len(),
        forall|i: int| 0 <= i < n ==> #[trigger] labels[i] < NUM_CLASSES,
    ensures
        class_total(labels, n, NUM_CLASSES as int) == n,
    decreases n,
{
    if n > 0 {
        lemma_rows_cover_samples(labels, n - 1);
        lemma_class_total_step(labels, n, NUM_CLASSES as int);
    } else {
        lemma_class_total_zero(labels, NUM_CLASSES as int);
    }
}

/// The number of samples of true class `r`: the sum of row `r` of the matrix.
pub open spec fn row_sum(row: Seq<usize>, n: int) -> int
    decreases n,
{
    if n <= 0 {
        0
    } else {
        row_sum(row, n - 1) + row[n - 1]
    }
}

/// The sum of the entries of one row of a confusion matrix.
pub fn row_total(row: &[usize]) -> (t: usize)
    requires
        row_sum(row@, row@.len() as int) <= usize::MAX,
    ensures
        t == row_sum(row@, row@.len() as int),
{
    let mut t: usize = 0;
    for i in 0..row.len()
        invariant
            row_sum(row@, row@.len() as int) <= usize::MAX,
            t == row_sum(row@, i as int),
    {
        proof {
            lemma_row_sum_monotone(row@, i + 1, row@.len() as int);
        }
        t = t + row[i];
    }
    t
}

proof fn lemma_row_sum_monotone(row: Seq<usize>, i: int, j: int)
    requires
        0 <= i <= j <= row.len(),
    ensures
        row_sum(row, i) <= row_sum(row, j),
    decreases j - i,
{
    if i < j {
        lemma_row_sum_monotone(row, i, j - 1);
    }
}

/// The largest off-diagonal entry of a square matrix, or 1 when all of them
/// are smaller than 1: the count that the heat map's error colors scale to.
pub fn max_off_diagonal(conf: &[Vec<usize>]) -> (m: usize)
    requires
        forall|r: int| 0 <= r < conf@.len() ==> (#[trigger] conf@[r])@.len() == conf@.len(),
    ensures
        m >= 1,
        forall|r: int, p: int|
            0 <= r < conf@.len() && 0 <= p < conf@.len() && r != p ==> #[trigger] conf@[r]@[p] <= m,
        m == 1 || exists|r: int, p: int|
            0 <= r < conf@.len() && 0 <= p < conf@.len() && r != p && #[trigger] conf@[r]@[p] == m,
{
    let n = conf.len();
    let mut m: usize = 1;
    for r in 0..n
        invariant
            n == conf@.len(),
            forall|a: int| 0 <= a < n ==> (#[trigger] conf@[a])@.len() == n,
            m >= 1,
            forall|a: int, p: int|
                0 <= a < r && 0 <= p < n && a != p ==> #[trigger] conf@[a]@[p] <= m,
            m == 1 || exists|a: int, p: int|
                0 <= a < n && 0 <= p < n && a != p && #[trigger] conf@[a]@[p] == m,
    {
        for p in 0..n
            invariant
                n == conf@.len(),
                r < n,
                forall|a: int| 0 <= a < n ==> (#[trigger] conf@[a])@.len() == n,
                m >= 1,
                forall|a: int, q: int|
                    0 <= a < r && 0 <= q < n && a != q ==> #[trigger] conf@[a]@[q] <= m,
                forall|q: int| 0 <= q < p && r != q ==> #[trigger] conf@[r as int]@[q] <= m,
                m == 1 || exists|a: int, q: int|
                    0 <= a < n && 0 <= q < n && a != q && #[trigger] conf@[a]@[q] == m,
        {
            if r != p && conf[r][p] > m {
                m = conf[r][p];
            }
        }
    }
    m
}

/// The largest diagonal entry of a square matrix, or 1 when all of them are
/// smaller than 1: the count that the heat map's hit colors scale to.
pub fn max_diagonal(conf: &[Vec<usize>]) -> (m: usize)
    requires
        forall|r: int| 0 <= r < conf@.len() ==> (#[trigger] conf@[r])@.len() == conf@.len(),
    ensures
        m >= 1,
        forall|r: int| 0 <= r < conf@.len() ==> #[trigger] conf@[r]@[r] <= m,
        m == 1 || exists|r: int| 0 <= r < conf@.len() && #[trigger] conf@[r]@[r] == m,
{
    let n = conf.len();
    let mut m: usize = 1;
    for r in 0..n
        invariant
            n == conf@.len(),
            forall|a: int| 0 <= a < n ==> (#[trigger] conf@[a])@.len() == n,
            m >= 1,
            forall|a: int| 0 <= a < r ==> #[trigger] conf@[a]@[a] <= m,
            m == 1 || exists|a: int| 0 <= a < n && #[trigger] conf@[a]@[a] == m,
    {
        if conf[r][r] > m {
            m = conf[r][r];
        }
    }
    m
}

/// A confusion: how many samples of true class `.1` were predicted as `.2`.
pub type Confusion = (usize, usize, usize);

/// The confusions among the first `j` columns of row `r`: its nonzero entries
/// off the diagonal, left to right.
pub open spec fn row_confusions(conf: Seq<Vec<usize>>, r: int, j: int) -> Seq<Confusion>
    decreases j,
{
    if j <= 0 {
        Seq::empty()
    } else {
        let prev = row_confusions(conf, r, j - 1);
        let c = conf[r]@[j - 1];
        if r != j - 1 && c > 0 {
            prev.push((c, r as usize, (j - 1) as usize))
        } else {
            prev
        }
    }
}

/// The confusions of the first `r` rows of an `n`-column matrix, row by row.
pub open spec fn confusions_before(conf: Seq<Vec<usize>>, n: int, r: int) -> Seq<Confusion>
    decreases r,
{
    if r <= 0 {
        Seq::empty()
    } else {
        confusions_before(conf, n, r - 1) + row_confusions(conf, r - 1, n)
    }
}

/// All confusions of a square matrix, in row-major order.
pub open spec fn confusions(conf: Seq<Vec<usize>>) -> Seq<Confusion> {
    confusions_before(conf, conf.len() as int, conf.len() as int)
}

/// `a` ranks before `b`: it is more frequent, or as frequent and earlier in
/// row-major order. This is where a stable sort by decreasing count puts it.
pub open spec fn ranks_before(a: Confusion, b: Confusion) -> bool {
    ||| a.0 > b.0
    ||| a.0 == b.0 && (a.1 < b.1 || (a.1 == b.1 && a.2 < b.2))
}

/// Every entry of `s` ranks before every later one.
pub open spec fn ranked(s: Seq<Confusion>) -> bool {
    forall|a: int, b: int| 0 <= a < b < s.len() ==> ranks_before(#[trigger] s[a], #[trigger] s[b])
}

/// `x` comes before cell `(r, j)` in row-major order.
pub open spec fn cell_before(x: Confusion, r: int, j: int) -> bool {
    x.1 < r || (x.1 == r && x.2 < j)
}

/// Ranking decides the order completely: two ranked sequences holding the
/// same entries are equal, so `ranked_confusions` has exactly one possible result.
pub proof fn lemma_ranking_is_unique(s: Seq<Confusion>, t: Seq<Confusion>)
    requires
        ranked(s),
        ranked(t),
        s.to_multiset() == t.to_multiset(),
    ensures
        s == t,
    decreases s.len(),
{
    assert(s.to_multiset().len() == s.len());
    assert(t.to_multiset().len() == t.len());
    assert(s.len() == t.len());
    if s.len() == 0 {
        assert(s =~= t);
        return;
    }
    assert(t.to_multiset().count(s[0]) > 0);
    assert(t.contains(s[0]));
    let j = choose|j: int| 0 <= j < t.len() && t[j] == s[0];
    assert(s.to_multiset().count(t[0]) > 0);
    assert(s.contains(t[0]));
    let i = choose|i: int| 0 <= i < s.len() && s[i] == t[0];
    if i > 0 && j > 0 {
        assert(ranks_before(s[0], s[i]));
        assert(ranks_before(t[0], t[j]));
        assert(false);
    }
    assert(s[0] == t[0]);
    let s1 = s.drop_first();
    let t1 = t.drop_first();
    assert(s1 =~= s.remove(0));
    assert(t1 =~= t.remove(0));
    assert(s1.to_multiset() == s.to_multiset().remove(s[0]));
    assert(t1.to_multiset() == t.to_multiset().remove(t[0]));
    assert forall|a: int, b: int| 0 <= a < b < s1.len() implies ranks_before(
        #[trigger] s1[a],
        #[trigger] s1[b],
    ) by {
        assert(ranks_before(s[a + 1], s[b + 1]));
    }
    assert forall|a: int, b: int| 0 <= a < b < t1.len() implies ranks_before(
        #[trigger] t1[a],
        #[trigger] t1[b],
    ) by {
        assert(ranks_before(t[a + 1], t[b + 1]));
    }
    lemma_ranking_is_unique(s1, t1);
    assert forall|k: int| 0 <= k < s.len() implies s[k] == t[k] by {
        if k > 0 {
            assert(s[k] == s1[k - 1]);
            assert(t[k] == t1[k - 1]);
        }
    }
    assert(s =~= t);
}

/// The confusions (off-diagonal nonzero entries) of a square matrix, most
/// frequent first; among equally frequent ones, in row-major order.
pub fn ranked_confusions(conf: &[Vec<usize>]) -> (out: Vec<Confusion>)
    requires
        forall|r: int| 0 <= r < conf@.len() ==> (#[trigger] conf@[r])@.len() == conf@.len(),
    ensures
        out@.to_multiset() == confusions(conf@).to_multiset(),
        ranked(out@),
{
    let n = conf.len();
    let mut out: Vec<Confusion> = Vec::new();
    for r in 0..n
        invariant
            n == conf@.len(),
            forall|a: int| 0 <= a < n ==> (#[trigger] conf@[a])@.len() == n,
            out@.to_multiset() == confusions_before(conf@, n as int, r as int).to_multiset(),
            ranked(out@),
            forall|q: int| 0 <= q < out@.len() ==> cell_before(#[trigger] out@[q], r as int, 0),
    {
        let row = &conf[r];
        for j in 0..n
            invariant
                n == conf@.len(),
                r < n,
                row@ == conf@[r as int]@,
                row@.len() == n,
                out@.to_multiset() == (confusions_before(conf@, n as int, r as int)
                    + row_confusions(conf@, r as int, j as int)).to_multiset(),
                ranked(out@),
                forall|q: int| 0 <= q < out@.len() ==> cell_before(#[trigger] out@[q], r as int, j as int),
        {
            let c = row[j];
            let ghost before = confusions_before(conf@, n as int, r as int);
            let ghost prefix = row_confusions(conf@, r as int, j as int);
            if r != j && c > 0 {
                let e: Confusion = (c, r, j);
                let mut pos: usize = 0;
                while pos < out.len() && out[pos].0 >= c
                    invariant
                        pos <= out@.len(),
                        forall|q: int| 0 <= q < pos ==> (#[trigger] out@[q]).0 >= c,
                    decreases out@.len() - pos,
                {
                    pos = pos + 1;
                }
                let ghost old_out = out@;
                proof {
                    assert forall|q: int| pos <= q < old_out.len() implies (#[trigger] old_out[q]).0 < c by {
                        if q > pos {
                            assert(ranks_before(old_out[pos as int], old_out[q]));
                        }
                    }
                }
                out.insert(pos, e);
                proof {
                    assert(out@ == old_out.insert(pos as int, e));
                    assert forall|a: int, b: int| 0 <= a < b < out@.len() implies ranks_before(
                        #[trigger] out@[a],
                        #[trigger] out@[b],
                    ) by {
                        if b < pos {
                            assert(ranks_before(old_out[a], old_out[b]));
                        } else if b == pos {
                            assert(old_out[a].0 >= c);
                            assert(cell_before(old_out[a], r as int, j as int));
                        } else if a == pos {
                            assert(old_out[b - 1].0 < c);
                        } else if a < pos {
                            assert(ranks_before(old_out[a], old_out[b - 1]));
                        } else {
                            assert(ranks_before(old_out[a - 1], old_out[b - 1]));
                        }
                    }
                    assert(row_confusions(conf@, r as int, j + 1) == prefix.push(e));
                    assert(before + prefix.push(e) =~= (before + prefix).push(e));
                    assert forall|q: int| 0 <= q < out@.len() implies cell_before(
                        #[trigger] out@[q],
                        r as int,
                        j + 1,
                    ) by {
                        if q < pos {
                            assert(cell_before(old_out[q], r as int, j as int));
                        } else if q > pos {
                            assert(cell_before(old_out[q - 1], r as int, j as int));
                        }
                    }
                }
            } else {
                proof {
                    assert(row_confusions(conf@, r as int, j + 1) == prefix);
                    assert forall|q: int| 0 <= q < out@.len() implies cell_before(
                        #[trigger] out@[q],
                        r as int,
                        j + 1,
                    ) by {
                        assert(cell_before(out@[q], r as int, j as int));
                    }
                }
            }
        }
        proof {
            assert(confusions_before(conf@, n as int, r + 1) == confusions_before(
                conf@,
                n as int,
                r as int,
            ) + row_confusions(conf@, r as int, n as int));
            assert forall|q: int| 0 <= q < out@.len() implies cell_before(
                #[trigger] out@[q],
                r + 1,
                0,
            ) by {
                assert(cell_before(out@[q], r as int, n as int));
                assert(out@[q].2 < n || out@[q].1 < r);
            }
        }
    }
    out
}

} // verus!
