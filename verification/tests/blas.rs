use mlp::blas::{
    cblas_gemm_args, cublas_gemm_args, cublas_gemm_ta_args, cublas_gemm_tb_args, launch_cfg,
    CblasGemmArgs, CublasGemmArgs, LaunchDims, Transpose,
};

#[test]
fn forward_product_reads_weights_transposed() {
    // Z (bs x rows) = A (bs x cols) * W^T, W stored rows x cols.
    let args = cblas_gemm_args(32, 784, 1024, 784, 1, 1, 784, 1024);
    assert_eq!(
        args,
        CblasGemmArgs {
            trans_a: Transpose::NoTrans,
            trans_b: Transpose::Trans,
            m: 32,
            n: 1024,
            k: 784,
            lda: 784,
            ldb: 784,
            ldc: 1024,
        }
    );
}

#[test]
fn weight_gradient_reads_deltas_transposed() {
    let args = cblas_gemm_args(10, 32, 512, 1, 10, 512, 1, 512);
    assert_eq!(args.trans_a, Transpose::Trans);
    assert_eq!(args.lda, 10);
    assert_eq!(args.trans_b, Transpose::NoTrans);
    assert_eq!(args.ldb, 512);
    assert_eq!((args.m, args.n, args.k, args.ldc), (10, 512, 32, 512));
}

#[test]
fn cublas_products_swap_dimensions() {
    assert_eq!(
        cublas_gemm_args(2, 3, 4),
        CublasGemmArgs {
            transa: Transpose::NoTrans,
            transb: Transpose::NoTrans,
            m: 4,
            n: 2,
            k: 3,
            lda: 4,
            ldb: 3,
            ldc: 4,
        }
    );
    let ta = cublas_gemm_ta_args(2, 3, 4);
    assert_eq!((ta.transa, ta.transb), (Transpose::NoTrans, Transpose::Trans));
    assert_eq!((ta.m, ta.n, ta.k, ta.lda, ta.ldb, ta.ldc), (4, 2, 3, 4, 2, 4));
    let tb = cublas_gemm_tb_args(2, 3, 4);
    assert_eq!((tb.transa, tb.transb), (Transpose::Trans, Transpose::NoTrans));
    assert_eq!((tb.m, tb.n, tb.k, tb.lda, tb.ldb, tb.ldc), (4, 2, 3, 3, 3, 4));
}

#[test]
fn launch_covers_every_element() {
    assert_eq!(launch_cfg(0), LaunchDims { grid: 0, block: 256 });
    assert_eq!(launch_cfg(1), LaunchDims { grid: 1, block: 256 });
    assert_eq!(launch_cfg(256), LaunchDims { grid: 1, block: 256 });
    assert_eq!(launch_cfg(257), LaunchDims { grid: 2, block: 256 });
    assert_eq!(launch_cfg(512 * 2048).grid, 4096);
}

fn row_major_at(t: Transpose, i: i64, l: i64, ld: i64) -> i64 {
    match t {
        Transpose::NoTrans => i * ld + l,
        Transpose::Trans => l * ld + i,
    }
}

fn col_major_at(t: Transpose, i: i64, l: i64, ld: i64) -> i64 {
    match t {
        Transpose::NoTrans => i + l * ld,
        Transpose::Trans => l + i * ld,
    }
}

#[test]
fn cblas_reads_operands_where_strides_place_them() {
    for &(rs, cs) in &[(784isize, 1isize), (1, 784), (1, 10), (512, 1)] {
        let args = cblas_gemm_args(3, 5, 7, rs, cs, rs, cs, 7);
        for i in 0..4i64 {
            for l in 0..4i64 {
                let at = i * rs as i64 + l * cs as i64;
                assert_eq!(row_major_at(args.trans_a, i, l, args.lda as i64), at);
                assert_eq!(row_major_at(args.trans_b, i, l, args.ldb as i64), at);
            }
        }
    }
}

#[test]
fn cublas_calls_address_row_major_storage() {
    let (m, k, n) = (2i64, 3i64, 4i64);
    let nn = cublas_gemm_args(2, 3, 4);
    let ta = cublas_gemm_ta_args(2, 3, 4);
    let tb = cublas_gemm_tb_args(2, 3, 4);
    for r in 0..m {
        for c in 0..n {
            for l in 0..k {
                assert_eq!(col_major_at(nn.transa, c, l, nn.lda as i64), l * n + c);
                assert_eq!(col_major_at(nn.transb, l, r, nn.ldb as i64), r * k + l);
                assert_eq!(col_major_at(ta.transa, c, l, ta.lda as i64), l * n + c);
                assert_eq!(col_major_at(ta.transb, l, r, ta.ldb as i64), l * m + r);
                assert_eq!(col_major_at(tb.transa, c, l, tb.lda as i64), c * k + l);
                assert_eq!(col_major_at(tb.transb, l, r, tb.ldb as i64), r * k + l);
                for a in [nn, ta, tb] {
                    assert_eq!(c + r * a.ldc as i64, r * n + c);
                }
            }
        }
    }
}
