use fleet_bridge::SignPattern;

#[test]
fn test_sign_pattern_creation() {
    let sp = SignPattern::new(vec![1, -1, 1, -1]);
    assert_eq!(sp.len(), 4);
    assert_eq!(sp.get(0), Some(1));
    assert_eq!(sp.get(1), Some(-1));
}

#[test]
#[should_panic(expected = "Sign must be +1 or -1")]
fn test_invalid_sign() {
    let _ = SignPattern::try_new(vec![0]).expect("Sign must be +1 or -1");
}

#[test]
fn test_sign_pattern_agreement() {
    let a = SignPattern::new(vec![1, -1, 1, -1]);
    let b = SignPattern::new(vec![1, -1, -1, -1]);
    let ratio = a.agreement_count(&b) as f64 / a.len() as f64;
    assert!((ratio - 0.75).abs() < 1e-10);
}

#[test]
fn test_sign_pattern_invert() {
    let a = SignPattern::new(vec![1, -1, 1]);
    let inv = a.invert();
    assert_eq!(inv.signs, vec![-1, 1, -1]);
}

#[test]
fn test_sign_pattern_display() {
    let sp = SignPattern::new(vec![1, -1, 1]);
    let s = sp.to_string();
    assert_eq!(s, "[+, -, +]");
}

#[test]
fn test_display_empty_and_single() {
    assert_eq!(SignPattern::new(vec![]).to_string(), "[]");
    assert_eq!(SignPattern::new(vec![-1]).to_string(), "[-]");
    assert_eq!(SignPattern::new(vec![-1, -1]).to_string(), "[-, -]");
}

#[test]
fn test_try_new_accepts_signs_only() {
    let p = SignPattern::try_new(vec![1, -1, -1]).expect("all entries are signs");
    assert_eq!(p.signs, vec![1, -1, -1]);
    assert!(SignPattern::try_new(vec![1, 2]).is_none());
    assert!(SignPattern::try_new(vec![-128]).is_none());
    assert!(SignPattern::try_new(vec![1, -1, 0]).is_none());
    assert!(SignPattern::try_new(vec![]).is_some());
}

#[test]
fn test_get_past_end() {
    let sp = SignPattern::new(vec![1, -1]);
    assert_eq!(sp.get(1), Some(-1));
    assert_eq!(sp.get(2), None);
    assert_eq!(sp.get(usize::MAX), None);
}

#[test]
fn test_is_empty() {
    assert!(SignPattern::new(vec![]).is_empty());
    assert!(!SignPattern::new(vec![1]).is_empty());
    assert_eq!(SignPattern::new(vec![]).len(), 0);
}

#[test]
fn test_zeros_all_positive() {
    let z = SignPattern::zeros(3);
    assert_eq!(z.signs, vec![1, 1, 1]);
    assert!(SignPattern::zeros(0).is_empty());
}

#[test]
fn test_invert_twice_is_identity() {
    let a = SignPattern::new(vec![1, 1, -1, 1, -1]);
    assert_eq!(a.invert().invert(), a);
    assert_eq!(SignPattern::new(vec![]).invert().signs, Vec::<i8>::new());
}

#[test]
fn test_agreement_count_laws() {
    let a = SignPattern::new(vec![1, -1, -1, 1]);
    let b = SignPattern::new(vec![-1, -1, 1, 1]);
    assert_eq!(a.agreement_count(&a), 4);
    assert_eq!(a.agreement_count(&a.invert()), 0);
    assert_eq!(a.agreement_count(&b), 2);
    assert_eq!(b.agreement_count(&a), 2);
    assert_eq!(a.agreement_count(&b) + a.agreement_count(&b.invert()), 4);
}

#[test]
fn test_matching_prefix() {
    let a = SignPattern::new(vec![1, -1, 1, 1]);
    let b = SignPattern::new(vec![1, 1, 1]);
    assert_eq!(a.matching_prefix(&b, 0), 0);
    assert_eq!(a.matching_prefix(&b, 2), 1);
    assert_eq!(a.matching_prefix(&b, 3), 2);
}
