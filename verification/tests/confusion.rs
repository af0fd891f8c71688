use mlp::confusion::{
    confusion_matrix, max_diagonal, max_off_diagonal, ranked_confusions, row_total, NUM_CLASSES,
};
use mlp::utils::count_correct;

#[test]
fn counts_label_prediction_pairs() {
    let labels = [3, 3, 5, 0, 3, 9];
    let predicted = [3, 5, 5, 0, 5, 8];
    let conf = confusion_matrix(&labels, &predicted);
    assert_eq!(conf.len(), NUM_CLASSES);
    assert!(conf.iter().all(|row| row.len() == NUM_CLASSES));
    assert_eq!(conf[3][3], 1);
    assert_eq!(conf[3][5], 2);
    assert_eq!(conf[5][5], 1);
    assert_eq!(conf[0][0], 1);
    assert_eq!(conf[9][8], 1);
    let total: usize = conf.iter().map(|r| row_total(r)).sum();
    assert_eq!(total, labels.len());
}

#[test]
fn only_the_first_predictions_count() {
    let conf = confusion_matrix(&[1, 2, 7], &[1, 2]);
    assert_eq!(conf[1][1], 1);
    assert_eq!(conf[2][2], 1);
    assert_eq!(row_total(&conf[7]), 0);
}

#[test]
fn rows_count_classes_and_diagonal_counts_hits() {
    let labels: Vec<usize> = (0..200).map(|i| (i * 7) % 10).collect();
    let predicted: Vec<usize> = (0..200).map(|i| (i * 3) % 10).collect();
    let conf = confusion_matrix(&labels, &predicted);
    for r in 0..NUM_CLASSES {
        assert_eq!(row_total(&conf[r]), labels.iter().filter(|&&l| l == r).count());
    }
    let trace: usize = (0..NUM_CLASSES).map(|i| conf[i][i]).sum();
    assert_eq!(trace, count_correct(&predicted, &labels));
}

#[test]
fn ranks_confusions_by_count_then_position() {
    let mut conf = vec![vec![0usize; 4]; 4];
    conf[0][0] = 50;
    conf[0][2] = 3;
    conf[1][0] = 7;
    conf[2][1] = 3;
    conf[3][2] = 7;
    conf[3][0] = 1;
    conf[2][2] = 9;
    let ranked = ranked_confusions(&conf);
    assert_eq!(ranked, vec![(7, 1, 0), (7, 3, 2), (3, 0, 2), (3, 2, 1), (1, 3, 0)]);
}

#[test]
fn ranking_matches_a_stable_sort_by_count() {
    let labels: Vec<usize> = (0..500).map(|i| (i * 13 + i / 7) % 10).collect();
    let predicted: Vec<usize> = (0..500).map(|i| (i * 31 + i / 3) % 10).collect();
    let conf = confusion_matrix(&labels, &predicted);
    let mut expected = vec![];
    for i in 0..NUM_CLASSES {
        for j in 0..NUM_CLASSES {
            if i != j && conf[i][j] > 0 {
                expected.push((conf[i][j], i, j));
            }
        }
    }
    expected.sort_by(|a, b| b.0.cmp(&a.0));
    assert_eq!(ranked_confusions(&conf), expected);
}

#[test]
fn perfect_classifier_has_no_confusions() {
    let labels = [0, 1, 2, 3];
    let conf = confusion_matrix(&labels, &labels);
    assert!(ranked_confusions(&conf).is_empty());
    assert_eq!(max_off_diagonal(&conf), 1);
    assert_eq!(max_diagonal(&conf), 1);
}

#[test]
fn heat_map_scales() {
    let conf = vec![vec![12, 4, 0], vec![9, 30, 2], vec![0, 0, 0]];
    assert_eq!(max_diagonal(&conf), 30);
    assert_eq!(max_off_diagonal(&conf), 9);
    let zeros = vec![vec![0usize; 3]; 3];
    assert_eq!(max_diagonal(&zeros), 1);
    assert_eq!(max_off_diagonal(&zeros), 1);
}

#[test]
fn row_totals() {
    assert_eq!(row_total(&[1, 2, 3]), 6);
    assert_eq!(row_total(&[]), 0);
}
