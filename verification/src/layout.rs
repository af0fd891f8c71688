//! Memory layout of the network: the shape of each layer, and where the
//! parameters of each layer, and the cached values of each layer for a batch,
//! start inside one flat buffer.
use vstd::prelude::*;

verus! {

/// The sum of the first `i` entries of `s`.
pub open spec fn psum(s: Seq<int>, i: int) -> int
    decreases i,
{
    if i <= 0 {
        0
    } else {
        psum(s, i - 1) + s[i - 1]
    }
}

/// The entries of `s`, as mathematical integers.
pub open spec fn as_ints(s: Seq<usize>) -> Seq<int> {
    s.map_values(|x: usize| x as int)
}

/// The sum of all entries of `s`.
pub open spec fn total(s: Seq<int>) -> int {
    psum(s, s.len() as int)
}

/// Prefix sums of a sequence of non-negative entries never decrease.
pub proof fn lemma_psum_monotone(s: Seq<int>, i: int, j: int)
    requires
        0 <= i <= j <= s.len(),
        forall|k: int| 0 <= k < s.len() ==> s[k] >= 0,
    ensures
        0 <= psum(s, i) <= psum(s, j),
    decreases j - i,
{
    if i < j {
        lemma_psum_monotone(s, i, j - 1);
    } else {
        lemma_psum_nonneg(s, i);
    }
}

proof fn lemma_psum_nonneg(s: Seq<int>, i: int)
    requires
        0 <= i <= s.len(),
        forall|k: int| 0 <= k < s.len() ==> s[k] >= 0,
    ensures
        psum(s, i) >= 0,
    decreases i,
{
    if i > 0 {
        lemma_psum_nonneg(s, i - 1);
    }
}

/// The start offsets of consecutive segments of the given sizes in one flat
/// buffer, followed by the buffer's total length.
pub fn prefix_offsets(sizes: &[usize]) -> (offsets: Vec<usize>)
    requires
        total(as_ints(sizes@)) <= usize::MAX,
    ensures
        offsets@.len() == sizes@.len() + 1,
        forall|i: int| 0 <= i <= sizes@.len() ==> #[trigger] offsets@[i] == psum(as_ints(sizes@), i),
{
    let ghost s = as_ints(sizes@);
    let mut offsets: Vec<usize> = Vec::new();
    let mut acc: usize = 0;
    offsets.push(0);
    for i in 0..sizes.len()
        invariant
            s == as_ints(sizes@),
            total(s) <= usize::MAX,
            acc == psum(s, i as int),
            offsets@.len() == i + 1,
            forall|k: int| 0 <= k <= i ==> #[trigger] offsets@[k] == psum(s, k),
    {
        proof {
            lemma_psum_monotone(s, i + 1, s.len() as int);
        }
        acc = acc + sizes[i];
        offsets.push(acc);
    }
    offsets
}

/// Number of weights of each layer of a network with the given layer widths:
/// layer `i` maps `arch[i]` inputs to `arch[i + 1]` outputs.
pub open spec fn weight_counts(arch: Seq<usize>) -> Seq<int> {
    Seq::new((arch.len() - 1) as nat, |i: int| arch[i + 1] * arch[i])
}

/// Number of biases of each layer: one per output.
pub open spec fn bias_counts(arch: Seq<usize>) -> Seq<int> {
    Seq::new((arch.len() - 1) as nat, |i: int| arch[i + 1] as int)
}

/// The shape of a fully connected network and where each layer's weights
/// (row-major, `rows x cols`) and biases start in the flat parameter buffers.
pub struct MlpShape {
    /// `(rows, cols)` of each layer: outputs by inputs.
    pub dims: Vec<(usize, usize)>,
    /// Start of each layer's weights, then the total number of weights.
    pub w_offsets: Vec<usize>,
    /// Start of each layer's biases, then the total number of biases.
    pub b_offsets: Vec<usize>,
}

impl MlpShape {
    /// The shape that `arch` describes, as the network's constructor lays it out.
    pub open spec fn describes(self, arch: Seq<usize>) -> bool {
        &&& self.dims@.len() == arch.len() - 1
        &&& forall|i: int|
            0 <= i < self.dims@.len() ==> #[trigger] self.dims@[i] == (arch[i + 1], arch[i])
        &&& self.w_offsets@.len() == arch.len()
        &&& forall|i: int|
            0 <= i < arch.len() ==> #[trigger] self.w_offsets@[i] == psum(weight_counts(arch), i)
        &&& self.b_offsets@.len() == arch.len()
        &&& forall|i: int|
            0 <= i < arch.len() ==> #[trigger] self.b_offsets@[i] == psum(bias_counts(arch), i)
    }

    /// Lays out a network whose layer widths, input first, are `architecture`.
    pub fn new(architecture: &[usize]) -> (shape: Self)
        requires
            architecture@.len() >= 1,
            total(weight_counts(architecture@)) <= usize::MAX,
            total(bias_counts(architecture@)) <= usize::MAX,
        ensures
            shape.describes(architecture@),
    {
        let ghost arch = architecture@;
        let ghost wc = weight_counts(arch);
        let ghost bc = bias_counts(arch);
        let n_layers = architecture.len() - 1;
        let mut dims: Vec<(usize, usize)> = Vec::with_capacity(n_layers);
        let mut w_sizes: Vec<usize> = Vec::with_capacity(n_layers);
        let mut b_sizes: Vec<usize> = Vec::with_capacity(n_layers);
        for i in 0..n_layers
            invariant
                arch == architecture@,
                n_layers == arch.len() - 1,
                wc == weight_counts(arch),
                bc == bias_counts(arch),
                total(wc) <= usize::MAX,
                dims@.len() == i,
                w_sizes@.len() == i,
                b_sizes@.len() == i,
                forall|k: int| 0 <= k < i ==> #[trigger] dims@[k] == (arch[k + 1], arch[k]),
                forall|k: int| 0 <= k < i ==> #[trigger] w_sizes@[k] == wc[k],
                forall|k: int| 0 <= k < i ==> #[trigger] b_sizes@[k] == bc[k],
        {
            let n_in = architecture[i];
            let n_out = architecture[i + 1];
            proof {
                assert forall|k: int| 0 <= k < wc.len() implies wc[k] >= 0 by {
                    assert(arch[k + 1] * arch[k] >= 0) by (nonlinear_arith)
                        requires arch[k + 1] >= 0, arch[k] >= 0;
                }
                lemma_psum_monotone(wc, i as int, i + 1);
                lemma_psum_monotone(wc, i + 1, wc.len() as int);
            }
            dims.push((n_out, n_in));
            w_sizes.push(n_out * n_in);
            b_sizes.push(n_out);
        }
        assert(as_ints(w_sizes@) =~= wc);
        assert(as_ints(b_sizes@) =~= bc);
        let w_offsets = prefix_offsets(&w_sizes);
        let b_offsets = prefix_offsets(&b_sizes);
        MlpShape { dims, w_offsets, b_offsets }
    }
}

/// In a network laid out from `arch`, each layer reads what the previous layer
/// writes, and each layer's weights and biases fill exactly the segment between
/// its offset and the next one.
pub proof fn lemma_shape_segments(shape: MlpShape, arch: Seq<usize>)
    requires
        arch.len() >= 1,
        shape.describes(arch),
    ensures
        forall|i: int|
            0 <= i < shape.dims@.len() - 1 ==> (#[trigger] shape.dims@[i + 1]).1 == shape.dims@[i].0,
        forall|i: int|
            0 <= i < shape.dims@.len() ==> shape.w_offsets@[i + 1] - shape.w_offsets@[i]
                == (#[trigger] shape.dims@[i]).0 * shape.dims@[i].1,
        forall|i: int|
            0 <= i < shape.dims@.len() ==> shape.b_offsets@[i + 1] - shape.b_offsets@[i]
                == (#[trigger] shape.dims@[i]).0,
        shape.w_offsets@[0] == 0,
        shape.b_offsets@[0] == 0,
{
    assert forall|i: int| 0 <= i < shape.dims@.len() implies shape.w_offsets@[i + 1]
        - shape.w_offsets@[i] == (#[trigger] shape.dims@[i]).0 * shape.dims@[i].1 by {
        assert(shape.w_offsets@[i + 1] == psum(weight_counts(arch), i + 1));
        assert(shape.w_offsets@[i] == psum(weight_counts(arch), i));
    }
    assert forall|i: int| 0 <= i < shape.dims@.len() implies shape.b_offsets@[i + 1]
        - shape.b_offsets@[i] == (#[trigger] shape.dims@[i]).0 by {
        assert(shape.b_offsets@[i + 1] == psum(bias_counts(arch), i + 1));
        assert(shape.b_offsets@[i] == psum(bias_counts(arch), i));
    }
    assert(shape.w_offsets@[0] == psum(weight_counts(arch), 0));
    assert(shape.b_offsets@[0] == psum(bias_counts(arch), 0));
}

/// Sizes of the per-layer outputs of a batch: `bs` rows of each layer's width.
pub open spec fn output_counts(dims: Seq<(usize, usize)>, bs: usize) -> Seq<int> {
    Seq::new(dims.len(), |i: int| bs * dims[i].0)
}

/// Sizes of the activations of a batch: the input, then each layer's output.
pub open spec fn activation_counts(dims: Seq<(usize, usize)>, bs: usize) -> Seq<int> {
    seq![bs * dims[0].1].add(output_counts(dims, bs))
}

proof fn lemma_psum_prepend(x: int, s: Seq<int>, i: int)
    requires
        0 <= i <= s.len(),
    ensures
        psum(seq![x].add(s), i + 1) == x + psum(s, i),
    decreases i,
{
    let t = seq![x].add(s);
    if i > 0 {
        lemma_psum_prepend(x, s, i - 1);
        assert(t[i] == s[i - 1]);
        assert(psum(t, i + 1) == psum(t, i) + t[i]);
        assert(psum(s, i) == psum(s, i - 1) + s[i - 1]);
    } else {
        assert(t[0] == x);
        assert(psum(t, 1) == psum(t, 0) + t[0]);
        assert(psum(t, 0) == 0);
    }
}

/// Where the cached values of each layer of a batch start in the flat cache
/// buffers, each list followed by the buffer's total length.
pub struct CacheLayout {
    /// Pre-activations of each layer.
    pub p_offsets: Vec<usize>,
    /// The input, then the activations of each layer.
    pub a_offsets: Vec<usize>,
    /// Back-propagated errors of each layer.
    pub d_offsets: Vec<usize>,
    /// Dropout masks of each layer.
    pub dm_offsets: Vec<usize>,
}

impl CacheLayout {
    /// Lays out the cache for batches of `batch_size` samples through layers
    /// of the given `(rows, cols)` shapes.
    pub fn new(dims: &[(usize, usize)], batch_size: usize) -> (layout: Self)
        requires
            dims@.len() >= 1,
            total(activation_counts(dims@, batch_size)) <= usize::MAX,
        ensures
            layout.a_offsets@.len() == dims@.len() + 2,
            forall|i: int|
                0 <= i < dims@.len() + 2 ==> #[trigger] layout.a_offsets@[i] == psum(
                    activation_counts(dims@, batch_size),
                    i,
                ),
            layout.p_offsets@.len() == dims@.len() + 1,
            forall|i: int|
                0 <= i < dims@.len() + 1 ==> #[trigger] layout.p_offsets@[i] == psum(
                    output_counts(dims@, batch_size),
                    i,
                ),
            layout.d_offsets@ == layout.p_offsets@,
            layout.dm_offsets@ == layout.p_offsets@,
            layout.a_offsets@[0] == 0,
            layout.a_offsets@[1] == batch_size * dims@[0].1,
            forall|i: int|
                0 <= i < dims@.len() ==> layout.a_offsets@[i + 2] - layout.a_offsets@[i + 1]
                    == batch_size * (#[trigger] dims@[i]).0,
            forall|i: int|
                0 <= i < dims@.len() ==> layout.p_offsets@[i + 1] - layout.p_offsets@[i]
                    == batch_size * (#[trigger] dims@[i]).0,
    {
        let ghost oc = output_counts(dims@, batch_size);
        let ghost ac = activation_counts(dims@, batch_size);
        proof {
            assert forall|k: int| 0 <= k < ac.len() implies ac[k] >= 0 by {
                if k == 0 {
                    assert(batch_size * dims@[0].1 >= 0) by (nonlinear_arith)
                        requires batch_size >= 0, dims@[0].1 >= 0;
                } else {
                    assert(ac[k] == oc[k - 1]);
                    assert(batch_size * dims@[k - 1].0 >= 0) by (nonlinear_arith)
                        requires batch_size >= 0, dims@[k - 1].0 >= 0;
                }
            }
            lemma_psum_monotone(ac, 1, ac.len() as int);
            lemma_psum_prepend(batch_size * dims@[0].1, oc, oc.len() as int);
            assert(ac.len() == oc.len() + 1);
        }
        assert(psum(ac, 1) == psum(ac, 0) + ac[0]);
        assert(ac[0] == batch_size * dims@[0].1);
        let mut out_sizes: Vec<usize> = Vec::new();
        let mut act_sizes: Vec<usize> = Vec::new();
        act_sizes.push(batch_size * dims[0].1);
        for i in 0..dims.len()
            invariant
                oc == output_counts(dims@, batch_size),
                ac == activation_counts(dims@, batch_size),
                total(ac) <= usize::MAX,
                forall|k: int| 0 <= k < ac.len() ==> ac[k] >= 0,
                out_sizes@.len() == i,
                act_sizes@.len() == i + 1,
                forall|k: int| 0 <= k < i ==> #[trigger] out_sizes@[k] == oc[k],
                forall|k: int| 0 <= k <= i ==> #[trigger] act_sizes@[k] == ac[k],
        {
            proof {
                lemma_psum_monotone(ac, i + 1, i + 2);
                lemma_psum_monotone(ac, i + 2, ac.len() as int);
                lemma_psum_monotone(ac, 0, i + 1);
            }
            let size = batch_size * dims[i].0;
            out_sizes.push(size);
            act_sizes.push(size);
        }
        assert(as_ints(out_sizes@) =~= oc);
        assert(as_ints(act_sizes@) =~= ac);
        let p_offsets = prefix_offsets(&out_sizes);
        let a_offsets = prefix_offsets(&act_sizes);
        let d_offsets = prefix_offsets(&out_sizes);
        let dm_offsets = prefix_offsets(&out_sizes);
        proof {
            assert(d_offsets@ =~= p_offsets@);
            assert(dm_offsets@ =~= p_offsets@);
            assert forall|i: int| 0 <= i < dims@.len() implies a_offsets@[i + 2] - a_offsets@[i + 1]
                == batch_size * (#[trigger] dims@[i]).0 by {
                assert(a_offsets@[i + 2] == psum(ac, i + 2));
                assert(a_offsets@[i + 1] == psum(ac, i + 1));
                assert(ac[i + 1] == oc[i]);
            }
            assert forall|i: int| 0 <= i < dims@.len() implies p_offsets@[i + 1] - p_offsets@[i]
                == batch_size * (#[trigger] dims@[i]).0 by {
                assert(p_offsets@[i + 1] == psum(oc, i + 1));
                assert(p_offsets@[i] == psum(oc, i));
            }
            assert(a_offsets@[0] == psum(ac, 0));
            assert(a_offsets@[1] == psum(ac, 1));
            assert(psum(ac, 1) == psum(ac, 0) + ac[0]);
        }
        CacheLayout { p_offsets, a_offsets, d_offsets, dm_offsets }
    }
}

} // verus!
