use mlp::utils::{argmax, count_correct, epoch_axis_end};

#[test]
fn argmax_picks_first_greatest_probability() {
    assert_eq!(argmax(&[0.1f32, 0.7, 0.7, 0.2]), 1);
    assert_eq!(argmax(&[0.9f32, 0.05, 0.05]), 0);
    assert_eq!(argmax(&[0.0f32, 0.0, 0.0, 1.0]), 3);
}

#[test]
fn argmax_of_empty_and_single() {
    let empty: [f32; 0] = [];
    assert_eq!(argmax(&empty), 0);
    assert_eq!(argmax(&[5.0f32]), 0);
}

#[test]
fn argmax_on_integers() {
    assert_eq!(argmax(&[3u64, 9, 9, 1]), 1);
    assert_eq!(argmax(&[1i32, -4, 7]), 2);
}

#[test]
fn argmax_skips_nan_entries_after_the_first() {
    assert_eq!(argmax(&[0.5f32, f32::NAN, 0.7]), 2);
    assert_eq!(argmax(&[f32::NAN, 0.5, 0.7]), 0);
}

#[test]
fn counts_correct_predictions() {
    assert_eq!(count_correct(&[1, 2, 3, 4], &[1, 0, 3, 0]), 2);
    assert_eq!(count_correct(&[], &[]), 0);
    assert_eq!(count_correct(&[7, 7], &[7, 7]), 2);
}

#[test]
fn epoch_axis_extends_past_last_epoch() {
    assert_eq!(epoch_axis_end(&[1, 2, 3]), 13);
    assert_eq!(epoch_axis_end(&[5, 40, 7]), 50);
    assert_eq!(epoch_axis_end(&[]), 310);
}
