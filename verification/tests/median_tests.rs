use stats::order::order_key;
use stats::select::median;
use stats::select::sorted_copy;

fn bits_of(xs: &[f64]) -> Vec<u64> {
    xs.iter().map(|x| x.to_bits()).collect()
}

fn median_f64(xs: &[f64]) -> Option<f64> {
    median(&bits_of(xs)).map(f64::from_bits)
}

#[test]
fn test_obscure() {
    assert_eq!(
        Some(-8.0),
        median_f64(&[
            18.0, -25.8, 56.0, -8.0, -90.0, 90.9, 25.8, 100.9, -56.0, -100.89, -100.9, 100.89
        ])
    )
}

#[test]
fn median_empty_is_absent() {
    assert_eq!(None, median_f64(&[]));
}

#[test]
fn median_single_value() {
    assert_eq!(Some(7.5), median_f64(&[7.5]));
}

#[test]
fn median_odd_count_is_exact_middle() {
    assert_eq!(Some(2.0), median_f64(&[3.0, 1.0, 2.0]));
    assert_eq!(Some(-1.0), median_f64(&[4.0, -90.0, -1.0, 25.0, -3.5]));
}

#[test]
fn median_even_count_is_lower_middle() {
    assert_eq!(Some(0.0), median_f64(&[0.0, 0.5, -1.0, 1.0]));
    assert_eq!(Some(1.0), median_f64(&[2.0, 1.0]));
}

#[test]
fn median_is_permutation_invariant() {
    let expected = median_f64(&[18.0, -25.8, 56.0, -8.0, -90.0, 90.9]);
    assert_eq!(expected, median_f64(&[-90.0, 90.9, 18.0, -8.0, 56.0, -25.8]));
    assert_eq!(expected, median_f64(&[90.9, 56.0, 18.0, -8.0, -25.8, -90.0]));
    assert_eq!(expected, median_f64(&[-8.0, 18.0, -90.0, 56.0, 90.9, -25.8]));
}

#[test]
fn median_leaves_the_sample_unchanged() {
    let sample = bits_of(&[5.0, -3.0, 99.25, 0.5, -77.0]);
    let copy = sample.clone();
    let _ = median(&sample);
    assert_eq!(copy, sample);
}

#[test]
fn median_even_tie_prefers_negative_zero() {
    let r = median_f64(&[0.0, -0.0]).unwrap();
    assert_eq!((-0.0f64).to_bits(), r.to_bits());
}

#[test]
fn sorted_copy_sorts_without_touching_the_sample() {
    let xs = [18.0, -25.8, 56.0, -8.0, -90.0, 90.9, 25.8, 100.9];
    let sample = bits_of(&xs);
    let copy = sample.clone();
    let sorted = sorted_copy(&sample);
    assert_eq!(copy, sample);

    let sorted_xs: Vec<f64> = sorted.iter().map(|b| f64::from_bits(*b)).collect();
    for w in sorted_xs.windows(2) {
        assert!(w[0] <= w[1]);
    }
    let mut expected = xs.to_vec();
    expected.sort_by(|a, b| a.partial_cmp(b).unwrap());
    assert_eq!(expected, sorted_xs);
}

#[test]
fn order_key_agrees_with_the_numeric_order() {
    let xs = [
        f64::NEG_INFINITY,
        -1.0e308,
        -2.5,
        -1.0,
        -1.0e-308,
        0.0,
        1.0e-308,
        1.0,
        2.5,
        1.0e308,
        f64::INFINITY,
    ];
    for a in xs.iter() {
        for b in xs.iter() {
            assert_eq!(a <= b, order_key(a.to_bits()) <= order_key(b.to_bits()));
        }
    }
}

#[test]
fn order_key_puts_negative_zero_below_positive_zero() {
    assert!(order_key((-0.0f64).to_bits()) < order_key((0.0f64).to_bits()));
}
