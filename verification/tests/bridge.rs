use fleet_bridge::bridge::{correlation_term, correlation_terms, record_correlation, signs_of_means, target_signs, CorrelationTerm, HISTORY_LIMIT};
use fleet_bridge::SignPattern;

#[test]
fn test_signs_of_means_mixed() {
    let sp = signs_of_means(&[false, true]);
    assert_eq!(sp.signs, vec![-1, 1]);
}

#[test]
fn test_signs_of_means_uniform_and_empty() {
    assert_eq!(signs_of_means(&[true, true]).signs, vec![1, 1]);
    assert_eq!(signs_of_means(&[false, false]).signs, vec![-1, -1]);
    assert!(signs_of_means(&[]).is_empty());
}

#[test]
fn test_correlation_perfect_and_opposite() {
    let p = SignPattern::new(vec![1, -1, 1, -1]);
    let perfect = correlation_term(&p, &p);
    assert_eq!(perfect, CorrelationTerm { matching: 4, overlap: 4 });
    let opposite = correlation_term(&p, &p.invert());
    assert_eq!(opposite, CorrelationTerm { matching: 0, overlap: 4 });
}

#[test]
fn test_correlation_over_shorter_pattern() {
    let local = SignPattern::new(vec![1, 1, -1, -1]);
    let foreign = vec![
        SignPattern::new(vec![1, -1]),
        SignPattern::new(vec![]),
        SignPattern::new(vec![1, 1, 1, 1, 1, 1]),
    ];
    let ts = correlation_terms(&local, &foreign);
    assert_eq!(ts.len(), 3);
    assert_eq!(ts[0], CorrelationTerm { matching: 1, overlap: 2 });
    assert_eq!(ts[1], CorrelationTerm { matching: 0, overlap: 0 });
    assert_eq!(ts[2], CorrelationTerm { matching: 2, overlap: 4 });
    assert!(correlation_terms(&local, &[]).is_empty());
}

#[test]
fn test_target_signs_cover_foreign_then_positive() {
    let foreign = SignPattern::new(vec![-1, 1, -1]);
    assert_eq!(target_signs(&foreign, 5), vec![-1, 1, -1, 1, 1]);
    assert_eq!(target_signs(&foreign, 2), vec![-1, 1]);
    assert_eq!(target_signs(&foreign, 0), Vec::<i8>::new());
}

#[test]
fn test_history_records_each_measurement() {
    let mut history: Vec<i32> = Vec::new();
    for k in 0..5 {
        record_correlation(&mut history, k);
    }
    assert_eq!(history, vec![0, 1, 2, 3, 4]);
}

#[test]
fn test_history_keeps_last_entries() {
    let mut history: Vec<usize> = Vec::new();
    for k in 0..(HISTORY_LIMIT + 5) {
        record_correlation(&mut history, k);
    }
    assert_eq!(history.len(), HISTORY_LIMIT);
    assert_eq!(history[0], 5);
    assert_eq!(history[HISTORY_LIMIT - 1], HISTORY_LIMIT + 4);
}
