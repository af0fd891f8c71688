//! The arguments handed to the BLAS matrix products: how a row-major product
//! with given strides becomes a CBLAS call, how the cuBLAS products swap their
//! operands to work on row-major data, and the launch grid of a GPU kernel.
use vstd::prelude::*;

verus! {

/// Whether BLAS reads a matrix operand as stored or transposed.
#[derive(Debug, Clone, Copy, PartialEq, Eq, Structural)]
pub enum Transpose {
    NoTrans,
    Trans,
}

/// The integer arguments of one `cblas_sgemm` call in row-major layout.
#[derive(Debug, Clone, Copy, PartialEq, Eq, Structural)]
pub struct CblasGemmArgs {
    pub trans_a: Transpose,
    pub trans_b: Transpose,
    pub m: i32,
    pub n: i32,
    pub k: i32,
    pub lda: i32,
    pub ldb: i32,
    pub ldc: i32,
}

/// How an operand with row stride `rs` and column stride `cs` is read: as
/// stored with leading dimension `rs` when its columns are contiguous, else
/// transposed with leading dimension `cs`.
pub open spec fn operand_spec(rs: isize, cs: isize) -> (Transpose, i32) {
    if cs == 1 {
        (Transpose::NoTrans, rs as i32)
    } else {
        (Transpose::Trans, cs as i32)
    }
}

/// Offset of element `(i, l)` of `op(X)` in row-major storage with leading
/// dimension `ld`, where `op` reads `X` as stored or transposed.
pub open spec fn row_major_at(t: Transpose, i: int, l: int, ld: int) -> int {
    match t {
        Transpose::NoTrans => i * ld + l,
        Transpose::Trans => l * ld + i,
    }
}

/// Offset of element `(i, l)` of `op(X)` in column-major storage with
/// leading dimension `ld`.
pub open spec fn col_major_at(t: Transpose, i: int, l: int, ld: int) -> int {
    match t {
        Transpose::NoTrans => i + l * ld,
        Transpose::Trans => l + i * ld,
    }
}

/// Where one of an operand's strides is 1 and the other fits in an `i32`,
/// CBLAS reads element `(i, l)` where the strides place it: at
/// `i * rs + l * cs`.
pub proof fn lemma_cblas_operand_addresses(rs: isize, cs: isize, i: int, l: int)
    requires
        cs == 1 || rs == 1,
        i32::MIN <= rs <= i32::MAX,
        i32::MIN <= cs <= i32::MAX,
    ensures
        row_major_at(operand_spec(rs, cs).0, i, l, operand_spec(rs, cs).1 as int) == i * rs + l * cs,
{
    if cs == 1 {
        assert(operand_spec(rs, cs).1 == rs);
    } else {
        assert(operand_spec(rs, cs).1 == cs);
        assert(l * cs + i == i * rs + l * cs) by (nonlinear_arith)
            requires rs == 1;
    }
}

/// The `cblas_sgemm` arguments for `C = alpha * A * B + beta * C` with `A`
/// of `m x k`, `B` of `k x n` and `C` of `m x n`, each given by its row and
/// column strides (the column stride of `C` is 1).
pub fn cblas_gemm_args(
    m: usize,
    k: usize,
    n: usize,
    rsa: isize,
    csa: isize,
    rsb: isize,
    csb: isize,
    rsc: isize,
) -> (args: CblasGemmArgs)
    ensures
        (args.trans_a, args.lda) == operand_spec(rsa, csa),
        (args.trans_b, args.ldb) == operand_spec(rsb, csb),
        args.ldc == rsc as i32,
        args.m == m as i32,
        args.n == n as i32,
        args.k == k as i32,
{
    let (trans_a, lda) = if csa == 1 {
        (Transpose::NoTrans, rsa as i32)
    } else {
        (Transpose::Trans, csa as i32)
    };
    let (trans_b, ldb) = if csb == 1 {
        (Transpose::NoTrans, rsb as i32)
    } else {
        (Transpose::Trans, csb as i32)
    };
    CblasGemmArgs {
        trans_a,
        trans_b,
        m: m as i32,
        n: n as i32,
        k: k as i32,
        lda,
        ldb,
        ldc: rsc as i32,
    }
}

/// The integer arguments of one column-major cuBLAS `sgemm` call. The
/// operands are handed to cuBLAS in swapped order (`B` first, then `A`), so
/// that the column-major product `C^T = B^T * A^T` fills the row-major `C`.
#[derive(Debug, Clone, Copy, PartialEq, Eq, Structural)]
pub struct CublasGemmArgs {
    pub transa: Transpose,
    pub transb: Transpose,
    pub m: i32,
    pub n: i32,
    pub k: i32,
    pub lda: i32,
    pub ldb: i32,
    pub ldc: i32,
}

/// The swapped cuBLAS arguments for the row-major `C (m x n) = A (m x k) * B (k x n)`.
pub open spec fn cublas_gemm_spec(m: usize, k: usize, n: usize) -> CublasGemmArgs {
    CublasGemmArgs {
        transa: Transpose::NoTrans,
        transb: Transpose::NoTrans,
        m: n as i32,
        n: m as i32,
        k: k as i32,
        lda: n as i32,
        ldb: k as i32,
        ldc: n as i32,
    }
}

/// cuBLAS arguments for the row-major `C (m x n) = A (m x k) * B (k x n)`.
pub fn cublas_gemm_args(m: usize, k: usize, n: usize) -> (args: CublasGemmArgs)
    ensures
        args == cublas_gemm_spec(m, k, n),
{
    CublasGemmArgs {
        transa: Transpose::NoTrans,
        transb: Transpose::NoTrans,
        m: n as i32,
        n: m as i32,
        k: k as i32,
        lda: n as i32,
        ldb: k as i32,
        ldc: n as i32,
    }
}

/// The swapped cuBLAS arguments for the row-major `C (m x n) = A^T * B`.
pub open spec fn cublas_gemm_ta_spec(m: usize, k: usize, n: usize) -> CublasGemmArgs {
    CublasGemmArgs {
        transa: Transpose::NoTrans,
        transb: Transpose::Trans,
        m: n as i32,
        n: m as i32,
        k: k as i32,
        lda: n as i32,
        ldb: m as i32,
        ldc: n as i32,
    }
}

/// cuBLAS arguments for the row-major `C (m x n) = A^T * B`, with `A` stored
/// as `k x m` and `B` as `k x n`.
pub fn cublas_gemm_ta_args(m: usize, k: usize, n: usize) -> (args: CublasGemmArgs)
    ensures
        args == cublas_gemm_ta_spec(m, k, n),
{
    CublasGemmArgs {
        transa: Transpose::NoTrans,
        transb: Transpose::Trans,
        m: n as i32,
        n: m as i32,
        k: k as i32,
        lda: n as i32,
        ldb: m as i32,
        ldc: n as i32,
    }
}

/// The swapped cuBLAS arguments for the row-major `C (m x n) = A * B^T`.
pub open spec fn cublas_gemm_tb_spec(m: usize, k: usize, n: usize) -> CublasGemmArgs {
    CublasGemmArgs {
        transa: Transpose::Trans,
        transb: Transpose::NoTrans,
        m: n as i32,
        n: m as i32,
        k: k as i32,
        lda: k as i32,
        ldb: k as i32,
        ldc: n as i32,
    }
}

/// cuBLAS arguments for the row-major `C (m x n) = A * B^T`, with `A` stored
/// as `m x k` and `B` as `n x k`.
pub fn cublas_gemm_tb_args(m: usize, k: usize, n: usize) -> (args: CublasGemmArgs)
    ensures
        args == cublas_gemm_tb_spec(m, k, n),
{
    CublasGemmArgs {
        transa: Transpose::Trans,
        transb: Transpose::NoTrans,
        m: n as i32,
        n: m as i32,
        k: k as i32,
        lda: k as i32,
        ldb: k as i32,
        ldc: n as i32,
    }
}

/// With dimensions that fit in an `i32`, the swapped column-major call of
/// [`cublas_gemm_args`] reads `B` and `A` and writes `C` exactly where their
/// row-major storage holds element `(r, c)` of `C = A * B` and its terms
/// `A(r, l)`, `B(l, c)`.
pub proof fn lemma_cublas_gemm_addresses_row_major(m: usize, k: usize, n: usize, r: int, c: int, l: int)
    requires
        m <= i32::MAX,
        k <= i32::MAX,
        n <= i32::MAX,
        0 <= r < m,
        0 <= c < n,
        0 <= l < k,
    ensures
        ({
            let a = cublas_gemm_spec(m, k, n);
            &&& a.m == n && a.n == m && a.k == k
            &&& col_major_at(a.transa, c, l, a.lda as int) == l * n + c
            &&& col_major_at(a.transb, l, r, a.ldb as int) == r * k + l
            &&& col_major_at(Transpose::NoTrans, c, r, a.ldc as int) == r * n + c
        }),
{
    assert(l * n + c == c + l * n);
    assert(r * k + l == l + r * k);
}

/// The same for [`cublas_gemm_ta_args`]: `C = A^T * B` with `A` stored
/// `k x m`, so the term `A^T(r, l)` sits at `l * m + r`.
pub proof fn lemma_cublas_gemm_ta_addresses_row_major(m: usize, k: usize, n: usize, r: int, c: int, l: int)
    requires
        m <= i32::MAX,
        k <= i32::MAX,
        n <= i32::MAX,
        0 <= r < m,
        0 <= c < n,
        0 <= l < k,
    ensures
        ({
            let a = cublas_gemm_ta_spec(m, k, n);
            &&& a.m == n && a.n == m && a.k == k
            &&& col_major_at(a.transa, c, l, a.lda as int) == l * n + c
            &&& col_major_at(a.transb, l, r, a.ldb as int) == l * m + r
            &&& col_major_at(Transpose::NoTrans, c, r, a.ldc as int) == r * n + c
        }),
{
    assert(l * n + c == c + l * n);
    assert(r + l * m == l * m + r);
}

/// The same for [`cublas_gemm_tb_args`]: `C = A * B^T` with `B` stored
/// `n x k`, so the term `B^T(l, c)` sits at `c * k + l`.
pub proof fn lemma_cublas_gemm_tb_addresses_row_major(m: usize, k: usize, n: usize, r: int, c: int, l: int)
    requires
        m <= i32::MAX,
        k <= i32::MAX,
        n <= i32::MAX,
        0 <= r < m,
        0 <= c < n,
        0 <= l < k,
    ensures
        ({
            let a = cublas_gemm_tb_spec(m, k, n);
            &&& a.m == n && a.n == m && a.k == k
            &&& col_major_at(a.transa, c, l, a.lda as int) == c * k + l
            &&& col_major_at(a.transb, l, r, a.ldb as int) == r * k + l
            &&& col_major_at(Transpose::NoTrans, c, r, a.ldc as int) == r * n + c
        }),
{
    assert(l + c * k == c * k + l);
    assert(l + r * k == r * k + l);
}

/// Threads per block of the element-wise GPU kernels.
pub const BLOCK_SIZE: u32 = 256;

/// A one-dimensional kernel launch: blocks in the grid and threads per block.
#[derive(Debug, Clone, Copy, PartialEq, Eq, Structural)]
pub struct LaunchDims {
    pub grid: u32,
    pub block: u32,
}

/// The launch of an element-wise kernel over `n` elements: blocks of
/// [`BLOCK_SIZE`] threads, as many as cover all elements (the count taken
/// modulo 2^32, as the kernel's `u32` launch arguments hold it).
pub fn launch_cfg(n: usize) -> (dims: LaunchDims)
    requires
        (#[verifier::truncate] (n as u32)) + BLOCK_SIZE <= u32::MAX,
    ensures
        dims.block == BLOCK_SIZE,
        dims.grid == ((#[verifier::truncate] (n as u32)) + BLOCK_SIZE - 1) / (BLOCK_SIZE as int),
        dims.grid * BLOCK_SIZE >= (#[verifier::truncate] (n as u32)),
        dims.grid * BLOCK_SIZE < (#[verifier::truncate] (n as u32)) + BLOCK_SIZE,
{
    let n32 = #[verifier::truncate] (n as u32);
    let grid = (n32 + BLOCK_SIZE - 1) / BLOCK_SIZE;
    assert(grid * 256 >= n32 && grid * 256 < n32 + 256) by (nonlinear_arith)
        requires grid == (n32 + 255) / 256;
    LaunchDims { grid, block: BLOCK_SIZE }
}

} // verus!
