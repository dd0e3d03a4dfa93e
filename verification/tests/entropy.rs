//! Entropy figures: exact factor lists, and their values in bits.

use makepass::entropy::{adjusted_entropy, Entropy};
use makepass::password::PasswordRules;

fn bits(e: &Entropy) -> f64 {
    let plus: f64 = e.factors.iter().map(|&f| (f as f64).log2()).sum();
    let minus: f64 = e.divisors.iter().map(|&d| (d as f64).log2()).sum();
    plus - minus
}

fn pool(n: usize) -> Vec<String> {
    (0..n).map(|i| format!("word{:03}", i)).collect()
}

#[test]
fn words_entropy_is_log_falling_factorial() {
    let rules = PasswordRules::new(pool(16), 4, false, None);
    let e = rules.words_entropy();
    assert_eq!(e.factors, vec![16, 15, 14, 13]);
    assert_eq!(e.divisors, Vec::<usize>::new());
    let expected = 16f64.log2() + 15f64.log2() + 14f64.log2() + 13f64.log2();
    assert!((bits(&e) - expected).abs() < 1e-9);
    assert!((bits(&e) - 15.4147).abs() < 1e-3);
}

#[test]
fn numeral_entropy_is_log2_of_ten_or_zero() {
    let on = PasswordRules::new(pool(4), 2, true, None);
    let e = on.numeral_entropy();
    assert_eq!(e.factors, vec![10]);
    assert!((bits(&e) - 3.3219).abs() < 1e-3);

    let off = PasswordRules::new(pool(4), 2, false, None);
    let z = off.numeral_entropy();
    assert_eq!(z.factors, Vec::<usize>::new());
    assert_eq!(bits(&z), 0.0);
}

#[test]
fn symbol_entropy_of_32_distinct_symbols_is_exactly_5() {
    let alphabet = String::from("!\"#$%&'()*+,-./\\:;<=>?@[]^_`{|}~AB");
    assert_eq!(alphabet.chars().count(), 34);
    let alphabet32: String = alphabet.chars().take(32).collect();
    let rules = PasswordRules::new(pool(4), 2, false, Some(alphabet32));
    let e = rules.symbol_entropy();
    assert_eq!(e.factors, vec![32]);
    assert_eq!(bits(&e), 5.0);
}

#[test]
fn symbol_entropy_counts_distinct_characters_only() {
    let rules = PasswordRules::new(pool(4), 2, false, Some(String::from("aabba")));
    let e = rules.symbol_entropy();
    assert_eq!(e.factors, vec![2]);
}

#[test]
fn symbol_entropy_without_alphabet_is_zero() {
    let rules = PasswordRules::new(pool(4), 2, false, None);
    let e = rules.symbol_entropy();
    assert_eq!(e.factors, Vec::<usize>::new());
    assert_eq!(bits(&e), 0.0);
}

#[test]
fn adjustment_is_zero_when_every_candidate_passed() {
    let e = adjusted_entropy(100000, 100000);
    assert_eq!(e.factors, vec![100000]);
    assert_eq!(e.divisors, vec![100000]);
    assert_eq!(bits(&e), 0.0);
}

#[test]
fn adjustment_is_minus_one_at_half_pass_rate() {
    let e = adjusted_entropy(100, 50);
    assert_eq!(bits(&e), -1.0);
}

#[test]
fn combine_concatenates_factors() {
    let a = adjusted_entropy(8, 4);
    let b = adjusted_entropy(2, 2);
    let c = a.combine(b);
    assert_eq!(c.factors, vec![4, 2]);
    assert_eq!(c.divisors, vec![8, 2]);
}

#[test]
fn total_entropy_collects_all_sources() {
    let rules = PasswordRules::new(pool(16), 4, true, Some(String::from("ab")));
    let e = rules.total_entropy(200, 50);
    assert_eq!(e.factors, vec![16, 15, 14, 13, 10, 2, 50]);
    assert_eq!(e.divisors, vec![200]);
    let expected = 16f64.log2() + 15f64.log2() + 14f64.log2() + 13f64.log2() + 10f64.log2()
        + 1.0 - 2.0;
    assert!((bits(&e) - expected).abs() < 1e-9);
}
