use aspnav::errors::NavigatorError;
use aspnav::sieve::{SieveOutcome, SieveState};
use aspnav::targets::exclusion_rule;

fn vs(xs: &[&str]) -> Vec<String> {
    xs.iter().map(|x| (*x).to_owned()).collect()
}

#[test]
fn exclusion_rule_forbids_all_false() {
    assert_eq!(exclusion_rule(&vs(&["a", "b"])).unwrap(), ":- not a, not b.");
    assert_eq!(exclusion_rule(&vs(&["e"])).unwrap(), ":- not e.");
    let no_targets: Vec<String> = Vec::new();
    match exclusion_rule(&no_targets) {
        Err(NavigatorError::InvalidInput(_)) => {}
        _ => panic!("an empty target set has no exclusion constraint"),
    }
}

#[test]
fn soe_sieve() {
    // Sieving the running example on targets {a, b}: one model per pick
    // covers both targets with two distinct models.
    let targets = vs(&["a", "b"]);
    let mut sieve = SieveState::new(&targets);
    assert!(!sieve.done());
    assert_eq!(sieve.pick(), Some("a".to_owned()));

    // Searching with assumption `a` yields the model {a, e}.
    assert_eq!(sieve.on_model(&vs(&["a", "e"])), SieveOutcome::Collected);
    assert!(!sieve.done());
    assert_eq!(sieve.pick(), Some("b".to_owned()));

    // Searching with assumption `b` yields the model {b, c, e}.
    assert_eq!(sieve.on_model(&vs(&["b", "c", "e"])), SieveOutcome::Collected);
    assert!(sieve.done());
    assert_eq!(sieve.pick(), None);
    assert_eq!(sieve.collected_count(), 2);

    // Both targets were observed true, each in one collected model.
    assert_eq!(sieve.population(), 2);
    assert_eq!(sieve.covered(), 2);
    assert_eq!(sieve.target_count(), 2);
    let freq = sieve.frequencies().clone();
    assert_eq!(freq, vec![("a".to_owned(), 1), ("b".to_owned(), 1)]);
    let observed = sieve.observed();
    assert_eq!(observed, vs(&["a", "b"]));
}

#[test]
fn sieve_resolves_opportunistically() {
    // One model resolving several targets at once resolves them in a batch.
    let targets = vs(&["b", "c", "e"]);
    let mut sieve = SieveState::new(&targets);
    assert_eq!(sieve.on_model(&vs(&["b", "c", "e"])), SieveOutcome::Collected);
    assert!(sieve.done());
    assert_eq!(sieve.collected_count(), 1);
    assert_eq!(sieve.population(), 3);
    assert_eq!(sieve.observed(), vs(&["b", "c", "e"]));
}

#[test]
fn sieve_skips_unhelpful_models() {
    let targets = vs(&["a", "d"]);
    let mut sieve = SieveState::new(&targets);
    assert_eq!(sieve.on_model(&vs(&["a", "e"])), SieveOutcome::Collected);
    // A model without any unresolved target contributes nothing: the drain
    // goes on.
    assert_eq!(sieve.on_model(&vs(&["a", "e"])), SieveOutcome::Nothing);
    assert_eq!(sieve.on_model(&vs(&["b", "c", "e"])), SieveOutcome::Nothing);
    assert!(!sieve.done());
    assert_eq!(sieve.on_model(&vs(&["b", "d", "e"])), SieveOutcome::Collected);
    assert!(sieve.done());
    assert_eq!(sieve.collected_count(), 2);
}

#[test]
fn sieve_deduplicates_targets() {
    let targets = vs(&["a", "a", "b"]);
    let sieve = SieveState::new(&targets);
    // The unresolved set and the frequency table hold each target once; the
    // diagnostics' target count keeps the repetition.
    assert_eq!(sieve.frequencies().len(), 2);
    assert_eq!(sieve.target_count(), 3);
    assert_eq!(sieve.pick(), Some("a".to_owned()));
}

#[test]
fn sieve_coverage_failure_keeps_partial_results() {
    // Target x is not reachable: the caller stops early after the engine
    // reports unsatisfiability, keeping what was covered so far.
    let targets = vs(&["a", "x"]);
    let mut sieve = SieveState::new(&targets);
    assert_eq!(sieve.on_model(&vs(&["a", "e"])), SieveOutcome::Collected);
    assert!(!sieve.done());
    assert_eq!(sieve.pick(), Some("x".to_owned()));
    assert_eq!(sieve.covered(), 1);
    assert_eq!(sieve.population(), 1);
    assert_eq!(sieve.observed(), vs(&["a"]));
}
