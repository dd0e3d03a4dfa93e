//! Password generation: distinctness, suffixes, rendering, and the
//! distribution of draws.

use makepass::password::{Password, PasswordRules};
use makepass::util::Len;
use rand::rngs::StdRng;
use rand::SeedableRng;

fn pool(words: &[&str]) -> Vec<String> {
    words.iter().map(|w| w.to_string()).collect()
}

#[test]
fn generated_words_are_distinct_and_from_the_pool() {
    let words = pool(&["alpha", "bravo", "charlie", "delta", "echo"]);
    let rules = PasswordRules::new(words.clone(), 3, false, None);
    let mut rng = StdRng::seed_from_u64(7);
    for _ in 0..200 {
        let p = rules.gen_password(&mut rng);
        assert_eq!(p.words.len(), 3);
        for w in &p.words {
            assert!(words.contains(w));
        }
        for i in 0..p.words.len() {
            for j in 0..i {
                assert_ne!(p.words[i], p.words[j]);
            }
        }
        assert_eq!(p.numeral, None);
        assert_eq!(p.symbol, None);
    }
}

#[test]
fn whole_pool_draw_is_a_permutation() {
    let words = pool(&["one", "two", "three", "four"]);
    let rules = PasswordRules::new(words.clone(), 4, false, None);
    let mut rng = StdRng::seed_from_u64(11);
    for _ in 0..50 {
        let p = rules.gen_password(&mut rng);
        let mut seen = p.words.clone();
        seen.sort();
        let mut all = words.clone();
        all.sort();
        assert_eq!(seen, all);
    }
}

#[test]
fn numeral_is_a_single_digit_when_configured() {
    let rules = PasswordRules::new(pool(&["aa", "bb"]), 1, true, None);
    let mut rng = StdRng::seed_from_u64(3);
    for _ in 0..100 {
        let p = rules.gen_password(&mut rng);
        let d = p.numeral.expect("numeral configured");
        assert!(d < 10);
        assert_eq!(p.symbol, None);
    }
}

#[test]
fn symbol_comes_from_the_alphabet() {
    let alphabet = "!@#$";
    let rules = PasswordRules::new(pool(&["aa", "bb"]), 1, false, Some(alphabet.to_string()));
    let mut rng = StdRng::seed_from_u64(5);
    for _ in 0..100 {
        let p = rules.gen_password(&mut rng);
        let c = p.symbol.expect("symbol configured");
        assert!(alphabet.contains(c));
        assert_eq!(p.numeral, None);
    }
}

#[test]
fn render_concatenates_words_then_numeral_then_symbol() {
    let p = Password {
        words: vec!["abc".to_string(), "de".to_string()],
        numeral: Some(7),
        symbol: Some('!'),
    };
    assert_eq!(p.render(), "abcde7!");
}

#[test]
fn render_length_round_trip() {
    // The byte length of the rendered text equals the password's own
    // length, including a multi-byte symbol.
    let p = Password {
        words: vec!["héllo".to_string(), "wörld".to_string()],
        numeral: Some(3),
        symbol: Some('€'),
    };
    let text = p.render();
    assert_eq!(text.len(), p.len());
    assert_eq!(p.len(), 6 + 6 + 1 + 3);

    let rules = PasswordRules::new(
        pool(&["alpha", "bravo", "charlie", "delta"]),
        2,
        true,
        Some("béç".to_string()),
    );
    let mut rng = StdRng::seed_from_u64(13);
    for _ in 0..100 {
        let p = rules.gen_password(&mut rng);
        assert_eq!(p.render().len(), p.len());
    }
}

#[test]
fn stream_passwords_yields_the_requested_count() {
    let rules = PasswordRules::new(pool(&["aa", "bb", "cc"]), 2, true, None);
    let mut rng = StdRng::seed_from_u64(17);
    let ps = rules.stream_passwords(&mut rng, 25);
    assert_eq!(ps.len(), 25);
    for p in &ps {
        assert_eq!(p.words.len(), 2);
        assert!(p.numeral.is_some());
    }
}

fn first_word_counts(seed: u64, trials: usize, words: &[&str]) -> Vec<usize> {
    let rules = PasswordRules::new(pool(words), 1, false, None);
    let mut rng = StdRng::seed_from_u64(seed);
    let mut counts = vec![0usize; words.len()];
    for _ in 0..trials {
        let p = rules.gen_password(&mut rng);
        let idx = words.iter().position(|w| *w == p.words[0]).unwrap();
        counts[idx] += 1;
    }
    counts
}

fn chi_square(counts: &[usize], trials: usize) -> f64 {
    let expected = trials as f64 / counts.len() as f64;
    counts
        .iter()
        .map(|&c| {
            let d = c as f64 - expected;
            d * d / expected
        })
        .sum()
}

#[test]
fn independently_seeded_streams_are_statistically_alike() {
    // Two streams from different seeds should both look uniform over the
    // pool: chi-square against the uniform expectation, 7 degrees of
    // freedom, generous threshold.
    let words = [
        "one", "two", "three", "four", "five", "six", "seven", "eight",
    ];
    let trials = 4000;
    let a = first_word_counts(42, trials, &words);
    let b = first_word_counts(424242, trials, &words);
    let xa = chi_square(&a, trials);
    let xb = chi_square(&b, trials);
    assert!(xa < 40.0, "first stream not uniform enough: {}", xa);
    assert!(xb < 40.0, "second stream not uniform enough: {}", xb);
    assert!((xa - xb).abs() < 40.0);
}
