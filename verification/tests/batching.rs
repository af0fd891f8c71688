use mlp::batching::{batch_ranges, ceil_div, eval_chunk_size};

#[test]
fn ceil_div_rounds_up() {
    assert_eq!(ceil_div(5, 2), 3);
    assert_eq!(ceil_div(4, 2), 2);
    assert_eq!(ceil_div(0, 8), 0);
    assert_eq!(ceil_div(60000, 256), 235);
    assert_eq!(ceil_div(usize::MAX, 1), usize::MAX);
    assert_eq!(ceil_div(usize::MAX, 2), usize::MAX / 2 + 1);
}

#[test]
fn batch_ranges_cover_the_data() {
    assert_eq!(batch_ranges(5, 2), vec![(0, 2), (2, 4), (4, 5)]);
    assert_eq!(batch_ranges(6, 3), vec![(0, 3), (3, 6)]);
    assert_eq!(batch_ranges(0, 4), vec![]);
    assert_eq!(batch_ranges(3, 10), vec![(0, 3)]);
}

#[test]
fn batch_ranges_partition_mnist() {
    let r = batch_ranges(60000, 256);
    assert_eq!(r.len(), ceil_div(60000, 256));
    assert_eq!(r[0].0, 0);
    assert_eq!(r.last().unwrap().1, 60000);
    for w in r.windows(2) {
        assert_eq!(w[0].1, w[1].0);
    }
    for &(s, e) in &r {
        assert!(s < e && e - s <= 256);
    }
}

#[test]
fn eval_chunks_are_whole_batches() {
    assert_eq!(eval_chunk_size(10000, 8, 256), 1280);
    assert_eq!(eval_chunk_size(10000, 1, 256), 10240);
    assert_eq!(eval_chunk_size(0, 8, 256), 256);
    assert_eq!(eval_chunk_size(100, 8, 256), 256);
    assert_eq!(eval_chunk_size(512, 2, 256), 256);
}

