//! Picking the predicted class of a probability row, and counting the
//! predictions that match their labels.
use vstd::prelude::*;
use vstd::std_specs::cmp::PartialOrdIs;
use vstd::std_specs::cmp::PartialOrdSpec;

verus! {

/// The index that a left-to-right scan for a strictly greater entry ends on
/// among the first `n` entries of `v`: the scan starts at index 0 and moves to
/// index `i` whenever `v[i]` compares greater than the entry it holds.
pub open spec fn scan_argmax<T: PartialOrd>(v: Seq<T>, n: int) -> int
    decreases n,
{
    if n <= 1 {
        0
    } else {
        let m = scan_argmax(v, n - 1);
        if v[n - 1].is_gt(&v[m]) {
            n - 1
        } else {
            m
        }
    }
}

/// For totally ordered entries (here `u64`), the scan ends on the first
/// greatest entry: no entry is greater, and every earlier entry is smaller.
pub proof fn lemma_scan_finds_first_greatest(v: Seq<u64>, n: int)
    requires
        1 <= n <= v.len(),
    ensures
        0 <= scan_argmax(v, n) < n,
        forall|j: int| 0 <= j < n ==> #[trigger] v[j] <= v[scan_argmax(v, n)],
        forall|j: int| 0 <= j < scan_argmax(v, n) ==> #[trigger] v[j] < v[scan_argmax(v, n)],
    decreases n,
{
    if n > 1 {
        lemma_scan_finds_first_greatest(v, n - 1);
        let m = scan_argmax(v, n - 1);
        assert(v[n - 1].is_gt(&v[m]) <==> v[n - 1] > v[m]);
    }
}

/// The scan's index over the first `n` entries of `v`.
pub open spec fn prefix_argmax<T: PartialOrd>(v: Seq<T>, n: usize) -> int {
    scan_argmax(v, n as int)
}

/// `T`'s comparison operators agree with its specified ordering.
pub open spec fn follows_order<T: PartialOrd>() -> bool {
    T::obeys_partial_cmp_spec()
}

/// The index of the entry that the scan for the greatest entry of `v` keeps:
/// the first index whose entry no later entry compares greater than.
/// An empty row gives 0.
pub fn argmax<T: PartialOrd>(v: &[T]) -> (idx: usize)
    ensures
        v@.len() == 0 ==> idx == 0,
        v@.len() > 0 ==> idx < v@.len(),
        follows_order::<T>() ==> idx == prefix_argmax(v@, v.len()),
{
    let mut max_idx: usize = 0;
    let n = v.len();
    if n == 0 {
        return 0;
    }
    let mut i: usize = 1;
    while i < n
        invariant
            n == v@.len(),
            1 <= i <= n,
            max_idx < i,
            follows_order::<T>() ==> max_idx == prefix_argmax(v@, i),
        decreases n - i,
    {
        if v[i] > v[max_idx] {
            max_idx = i;
        }
        i = i + 1;
    }
    max_idx
}

/// The number of positions below `n` where `predicted` and `labels` agree.
pub open spec fn num_matches(predicted: Seq<usize>, labels: Seq<usize>, n: int) -> nat
    decreases n,
{
    if n <= 0 {
        0
    } else {
        num_matches(predicted, labels, n - 1) + if predicted[n - 1] == labels[n - 1] {
            1nat
        } else {
            0nat
        }
    }
}

proof fn lemma_num_matches_bound(predicted: Seq<usize>, labels: Seq<usize>, n: int)
    requires
        n >= 0,
    ensures
        num_matches(predicted, labels, n) <= n,
    decreases n,
{
    if n > 0 {
        lemma_num_matches_bound(predicted, labels, n - 1);
    }
}

/// The number of samples whose predicted class equals their label.
pub fn count_correct(predicted: &[usize], labels: &[usize]) -> (c: usize)
    requires
        predicted@.len() == labels@.len(),
    ensures
        c == num_matches(predicted@, labels@, predicted@.len() as int),
{
    let mut c: usize = 0;
    for i in 0..predicted.len()
        invariant
            predicted@.len() == labels@.len(),
            c == num_matches(predicted@, labels@, i as int),
    {
        proof {
            lemma_num_matches_bound(predicted@, labels@, i as int);
        }
        if predicted[i] == labels[i] {
            c = c + 1;
        }
    }
    c
}

/// Last epoch shown when a run has no epochs.
pub const DEFAULT_LAST_EPOCH: u32 = 300;

/// The largest epoch of a training log, or [`DEFAULT_LAST_EPOCH`] for an empty one.
pub open spec fn last_epoch(epochs: Seq<u32>) -> int {
    if epochs.len() == 0 {
        DEFAULT_LAST_EPOCH as int
    } else {
        max_entry(epochs, epochs.len() as int)
    }
}

/// The largest of the first `n` entries (for `n >= 1`).
pub open spec fn max_entry(s: Seq<u32>, n: int) -> int
    decreases n,
{
    if n <= 1 {
        s[0] as int
    } else if s[n - 1] > max_entry(s, n - 1) {
        s[n - 1] as int
    } else {
        max_entry(s, n - 1)
    }
}

/// The last epoch of a nonempty log is its largest entry: no entry exceeds
/// it, and it is one of the entries.
pub proof fn lemma_last_epoch_is_largest(epochs: Seq<u32>)
    requires
        epochs.len() > 0,
    ensures
        forall|i: int| 0 <= i < epochs.len() ==> #[trigger] epochs[i] <= last_epoch(epochs),
        exists|i: int| 0 <= i < epochs.len() && #[trigger] epochs[i] == last_epoch(epochs),
{
    lemma_max_entry_is_largest(epochs, epochs.len() as int);
}

proof fn lemma_max_entry_is_largest(s: Seq<u32>, n: int)
    requires
        1 <= n <= s.len(),
    ensures
        forall|i: int| 0 <= i < n ==> #[trigger] s[i] <= max_entry(s, n),
        exists|i: int| 0 <= i < n && #[trigger] s[i] == max_entry(s, n),
    decreases n,
{
    if n > 1 {
        lemma_max_entry_is_largest(s, n - 1);
        let w = choose|i: int| 0 <= i < n - 1 && #[trigger] s[i] == max_entry(s, n - 1);
        if s[n - 1] > max_entry(s, n - 1) {
            assert(s[n - 1] == max_entry(s, n));
        } else {
            assert(s[w] == max_entry(s, n));
        }
    } else {
        assert(s[0] == max_entry(s, n));
    }
}

/// The end of the epoch axis of a training chart: ten past the last epoch.
pub fn epoch_axis_end(epochs: &[u32]) -> (end: u32)
    requires
        last_epoch(epochs@) + 10 <= u32::MAX,
    ensures
        end == last_epoch(epochs@) + 10,
        epochs@.len() == 0 ==> end == DEFAULT_LAST_EPOCH + 10,
        forall|i: int| 0 <= i < epochs@.len() ==> #[trigger] epochs@[i] + 10 <= end,
        epochs@.len() > 0 ==> exists|i: int|
            0 <= i < epochs@.len() && #[trigger] epochs@[i] + 10 == end,
{
    proof {
        if epochs@.len() > 0 {
            lemma_last_epoch_is_largest(epochs@);
        }
    }
    if epochs.len() == 0 {
        return DEFAULT_LAST_EPOCH + 10;
    }
    let mut m = epochs[0];
    for i in 1..epochs.len()
        invariant
            epochs@.len() >= 1,
            m == max_entry(epochs@, i as int),
    {
        if epochs[i] > m {
            m = epochs[i];
        }
    }
    m + 10
}

} // verus!
