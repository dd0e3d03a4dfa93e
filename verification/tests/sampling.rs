//! The sampling loop: first success kept, budget counted, exhaustion
//! reported.

use makepass::password::{Password, PasswordRules};
use makepass::sampling::{pick_password, run_sampling, SampleExhausted};
use makepass::util::Bounds;
use rand::rngs::StdRng;
use rand::SeedableRng;

fn pool(words: &[&str]) -> Vec<String> {
    words.iter().map(|w| w.to_string()).collect()
}

fn p(words: &[&str]) -> Password {
    Password {
        words: words.iter().map(|w| w.to_string()).collect(),
        numeral: None,
        symbol: None,
    }
}

#[test]
fn unbounded_run_succeeds_and_counts_the_whole_budget() {
    let rules = PasswordRules::new(pool(&["alpha", "bravo", "charlie"]), 2, true, None);
    let bounds = Bounds { min: 0, max: usize::MAX };
    let mut rng = StdRng::seed_from_u64(1);
    let (pw, count) = run_sampling(&rules, &mut rng, 50, bounds).unwrap();
    assert_eq!(count, 50);
    assert_eq!(pw.words.len(), 2);
    assert_ne!(pw.words[0], pw.words[1]);
}

#[test]
fn impossible_bounds_exhaust_the_budget() {
    // Two five-byte words plus a numeral can never fit in one byte.
    let rules = PasswordRules::new(pool(&["alpha", "bravo", "curio"]), 2, true, None);
    let bounds = Bounds { min: 0, max: 1 };
    let mut rng = StdRng::seed_from_u64(2);
    let e = run_sampling(&rules, &mut rng, 200, bounds).unwrap_err();
    assert_eq!(e, SampleExhausted { sample_size: 200 });
}

#[test]
fn zero_budget_is_exhausted_immediately() {
    let rules = PasswordRules::new(pool(&["alpha", "bravo"]), 1, false, None);
    let bounds = Bounds { min: 0, max: usize::MAX };
    let mut rng = StdRng::seed_from_u64(3);
    let e = run_sampling(&rules, &mut rng, 0, bounds).unwrap_err();
    assert_eq!(e, SampleExhausted { sample_size: 0 });
}

#[test]
fn successful_run_meets_the_bounds() {
    let rules = PasswordRules::new(pool(&["aaa", "bbbb", "ccccc", "dddddd"]), 2, false, None);
    let bounds = Bounds { min: 7, max: 9 };
    let mut rng = StdRng::seed_from_u64(4);
    let (pw, count) = run_sampling(&rules, &mut rng, 1000, bounds).unwrap();
    let len = pw.render().len();
    assert!(7 <= len && len <= 9);
    assert!(1 <= count && count <= 1000);
}

#[test]
fn pick_keeps_the_first_passing_candidate() {
    // Candidates of lengths 2, 6, 2, 8: bounds [5, 10] pass the second
    // and fourth; the second is emitted and both are counted.
    let candidates = vec![p(&["ab"]), p(&["sixsix"]), p(&["cd"]), p(&["eighteig"])];
    let bounds = Bounds { min: 5, max: 10 };
    let (first, count) = pick_password(candidates, bounds).unwrap();
    assert_eq!(first, p(&["sixsix"]));
    assert_eq!(count, 2);
}

#[test]
fn pick_counts_every_passing_candidate() {
    let candidates = vec![p(&["aaaaa"]), p(&["bbbbb"]), p(&["ccccc"])];
    let bounds = Bounds { min: 0, max: usize::MAX };
    let (first, count) = pick_password(candidates, bounds).unwrap();
    assert_eq!(first, p(&["aaaaa"]));
    assert_eq!(count, 3);
}

#[test]
fn pick_with_no_passing_candidate_is_exhaustion() {
    let candidates = vec![p(&["ab"]), p(&["cd"])];
    let bounds = Bounds { min: 5, max: 10 };
    let e = pick_password(candidates, bounds).unwrap_err();
    assert_eq!(e, SampleExhausted { sample_size: 2 });
}
