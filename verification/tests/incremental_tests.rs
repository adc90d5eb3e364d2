use aspnav::consequence::{BravePhase, CautiousPhase};
use aspnav::targets::{conjunction_rule, dedup_texts};

fn vs(xs: &[&str]) -> Vec<String> {
    xs.iter().map(|x| (*x).to_owned()).collect()
}

#[test]
fn conjunction_rule_forbids_all_true() {
    assert_eq!(conjunction_rule(&vs(&["a", "b"])).unwrap(), ":- a, b.");
    assert_eq!(conjunction_rule(&vs(&["e"])).unwrap(), ":- e.");
    let no_targets: Vec<String> = Vec::new();
    assert!(conjunction_rule(&no_targets).is_err());
}

#[test]
fn dedup_texts_keeps_first_occurrences() {
    assert_eq!(dedup_texts(&vs(&["a", "b", "a", "e", "b"])), vs(&["a", "b", "e"]));
    assert_eq!(dedup_texts(&Vec::new()), Vec::<String>::new());
}

#[test]
fn brave_phase_resolves_in_batches() {
    // The running example under the empty route, targets = all atoms. One
    // model per tested atom; each resolves every target it shows true.
    let mut phase = BravePhase::new(&vs(&["a", "b", "c", "d", "e"]));
    assert_eq!(phase.pick(), Some("a".to_owned()));
    phase.on_model(&vs(&["a", "e"]));
    assert_eq!(phase.pick(), Some("b".to_owned()));
    phase.on_model(&vs(&["b", "c", "e"]));
    assert_eq!(phase.pick(), Some("d".to_owned()));
    phase.on_model(&vs(&["b", "d", "e"]));
    assert!(phase.done());
    let mut brave = phase.brave_atoms();
    brave.sort();
    assert_eq!(brave, vs(&["a", "b", "c", "d", "e"]));
}

#[test]
fn brave_phase_drops_unsatisfiable_targets() {
    // Under route [a], neither b, c nor d can ever hold.
    let mut phase = BravePhase::new(&vs(&["a", "b", "c", "d", "e"]));
    phase.on_model(&vs(&["a", "e"]));
    assert_eq!(phase.pick(), Some("b".to_owned()));
    phase.on_unsat("b");
    phase.on_unsat("c");
    phase.on_unsat("d");
    assert!(phase.done());
    let mut brave = phase.brave_atoms();
    brave.sort();
    assert_eq!(brave, vs(&["a", "e"]));
}

#[test]
fn cautious_phase_finds_facets() {
    // The running example under the empty route, over the full brave set
    // {a, b, c, d, e}: only e survives every test, so the facets are
    // {a, b, c, d} and the facet count is four.
    let mut phase = CautiousPhase::new(&vs(&["a", "e", "b", "c", "d"]));
    assert_eq!(phase.pick(), Some("a".to_owned()));
    // Search under ~a yields {b, c, e}: a and d are missing, hence facets.
    phase.on_model(&vs(&["b", "c", "e"]));
    assert_eq!(phase.pick(), Some("e".to_owned()));
    // Search under ~e is unsatisfiable: e is cautious, not a facet.
    phase.on_unsat("e");
    assert_eq!(phase.pick(), Some("b".to_owned()));
    // Search under ~b yields {a, e}: b and c are missing, hence facets.
    phase.on_model(&vs(&["a", "e"]));
    assert!(phase.done());
    let mut facets = phase.facet_atoms();
    facets.sort();
    assert_eq!(facets, vs(&["a", "b", "c", "d"]));
}

#[test]
fn cautious_phase_of_decided_route_finds_no_facet() {
    // Under route [a] the brave set is {a, e} and every search under a
    // negation is unsatisfiable: no choice is left.
    let mut phase = CautiousPhase::new(&vs(&["a", "e"]));
    phase.on_unsat("a");
    phase.on_unsat("e");
    assert!(phase.done());
    assert_eq!(phase.facet_atoms(), Vec::<String>::new());
}
