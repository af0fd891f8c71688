use mlp::layout::{prefix_offsets, CacheLayout, MlpShape};

#[test]
fn prefix_offsets_of_sizes() {
    assert_eq!(prefix_offsets(&[3, 0, 4, 1]), vec![0, 3, 3, 7, 8]);
    assert_eq!(prefix_offsets(&[]), vec![0]);
}

#[test]
fn lays_out_the_default_network() {
    let shape = MlpShape::new(&[784, 2048, 1024, 10]);
    assert_eq!(shape.dims, vec![(2048, 784), (1024, 2048), (10, 1024)]);
    let w0 = 2048 * 784;
    let w1 = w0 + 1024 * 2048;
    let w2 = w1 + 10 * 1024;
    assert_eq!(shape.w_offsets, vec![0, w0, w1, w2]);
    assert_eq!(shape.b_offsets, vec![0, 2048, 3072, 3082]);
}

#[test]
fn layers_chain_and_segments_fit() {
    let shape = MlpShape::new(&[4, 8, 5, 3]);
    for i in 0..shape.dims.len() {
        let (rows, cols) = shape.dims[i];
        assert_eq!(shape.w_offsets[i + 1] - shape.w_offsets[i], rows * cols);
        assert_eq!(shape.b_offsets[i + 1] - shape.b_offsets[i], rows);
        if i + 1 < shape.dims.len() {
            assert_eq!(shape.dims[i + 1].1, rows);
        }
    }
    assert_eq!(*shape.w_offsets.last().unwrap(), 4 * 8 + 8 * 5 + 5 * 3);
}

#[test]
fn single_width_network_has_no_layers() {
    let shape = MlpShape::new(&[7]);
    assert!(shape.dims.is_empty());
    assert_eq!(shape.w_offsets, vec![0]);
    assert_eq!(shape.b_offsets, vec![0]);
}

#[test]
fn lays_out_a_batch_cache() {
    let layout = CacheLayout::new(&[(3, 2), (1, 3)], 4);
    assert_eq!(layout.a_offsets, vec![0, 8, 20, 24]);
    assert_eq!(layout.p_offsets, vec![0, 12, 16]);
    assert_eq!(layout.d_offsets, layout.p_offsets);
    assert_eq!(layout.dm_offsets, layout.p_offsets);
}

#[test]
fn cache_for_single_sample_matches_layer_widths() {
    let shape = MlpShape::new(&[2, 3, 2]);
    let layout = CacheLayout::new(&shape.dims, 1);
    assert_eq!(layout.a_offsets, vec![0, 2, 5, 7]);
    assert_eq!(layout.p_offsets, vec![0, 3, 5]);
}

#[test]
fn empty_batch_cache_has_empty_segments() {
    let layout = CacheLayout::new(&[(10, 784)], 0);
    assert_eq!(layout.a_offsets, vec![0, 0, 0]);
    assert_eq!(layout.p_offsets, vec![0, 0]);
}
