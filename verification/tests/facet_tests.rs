use aspnav::consequence::{facet_inducing_atoms, learned_lines, ConsequenceDrain};

// The running example `a;b. c;d :- b. e.` has the answer sets
// {a,e}, {b,c,e} and {b,d,e}. The brave and cautious consequence sets below
// are the ones its enumeration yields under each route.

fn vs(xs: &[&str]) -> Vec<String> {
    xs.iter().map(|x| (*x).to_owned()).collect()
}

fn sorted(mut xs: Vec<String>) -> Vec<String> {
    xs.sort();
    xs
}

#[test]
fn consequence_drain_keeps_only_the_last_model() {
    let mut drain = ConsequenceDrain::new();
    drain.on_model(vs(&["a", "b", "c", "d", "e"]));
    drain.on_model(vs(&["b", "e"]));
    assert_eq!(drain.cardinality(), 2);
    assert_eq!(drain.consequences(), vs(&["b", "e"]));
}

#[test]
fn consequence_drain_of_unsatisfiable_route_is_empty() {
    let drain = ConsequenceDrain::new();
    assert_eq!(drain.cardinality(), 0);
    assert_eq!(drain.consequences(), Vec::<String>::new());
}

#[test]
fn brave() {
    // Brave enumeration accumulates: its last model carries every atom true
    // somewhere. Route [a]: {a, e}. Route [b]: {b, c, d, e}.
    let mut drain = ConsequenceDrain::new();
    drain.on_model(vs(&["a", "e"]));
    let bcs = drain.consequences();
    assert_eq!(bcs.len(), 2);
    assert!(bcs.contains(&"a".to_owned()));
    assert!(bcs.contains(&"e".to_owned()));

    let mut drain = ConsequenceDrain::new();
    drain.on_model(vs(&["b", "c", "e"]));
    drain.on_model(vs(&["b", "c", "d", "e"]));
    let bcs = drain.consequences();
    assert_eq!(bcs.len(), 4);
    assert!(bcs.contains(&"b".to_owned()));
    assert!(bcs.contains(&"c".to_owned()));
    assert!(bcs.contains(&"d".to_owned()));
    assert!(bcs.contains(&"e".to_owned()));

    // Route [a, b]: unsatisfiable, the stream yields nothing.
    let drain = ConsequenceDrain::new();
    assert_eq!(drain.consequences().len(), 0);
}

#[test]
fn cautious() {
    // Cautious enumeration narrows: its last model carries every atom true
    // everywhere. Route [a]: {a, e}. Route [b]: {b, e}.
    let mut drain = ConsequenceDrain::new();
    drain.on_model(vs(&["a", "e"]));
    let ccs = drain.consequences();
    assert_eq!(ccs.len(), 2);
    assert!(ccs.contains(&"a".to_owned()));
    assert!(ccs.contains(&"e".to_owned()));

    let mut drain = ConsequenceDrain::new();
    drain.on_model(vs(&["b", "c", "e"]));
    drain.on_model(vs(&["b", "e"]));
    let ccs = drain.consequences();
    assert_eq!(ccs.len(), 2);
    assert!(ccs.contains(&"b".to_owned()));
    assert!(ccs.contains(&"e".to_owned()));

    let drain = ConsequenceDrain::new();
    assert_eq!(drain.consequences().len(), 0);
}

#[test]
fn facet_inducing() {
    // Route [a]: no choice is left.
    let fs = facet_inducing_atoms(&vs(&["a", "e"]), &vs(&["a", "e"]));
    assert_eq!(fs.len(), 0);

    // Route [b]: c and d are still open.
    let fs = facet_inducing_atoms(&vs(&["b", "c", "d", "e"]), &vs(&["b", "e"]));
    assert_eq!(sorted(fs), vs(&["c", "d"]));

    // Route [a, b]: unsatisfiable, so nothing is brave and nothing a facet.
    let fs = facet_inducing_atoms(&vs(&[]), &vs(&[]));
    assert_eq!(fs.len(), 0);

    // Route [~c]: a, b and d remain open.
    let fs = facet_inducing_atoms(&vs(&["a", "b", "d", "e"]), &vs(&["e"]));
    assert_eq!(sorted(fs), vs(&["a", "b", "d"]));
}

#[test]
fn facet_inducing_atoms_are_listed_once() {
    let fs = facet_inducing_atoms(&vs(&["a", "a", "b"]), &vs(&["b"]));
    assert_eq!(fs, vs(&["a"]));
}

#[test]
fn learned_that() {
    // Route [a]: brave = cautious = {a, e}; every queried facet is decided.
    let lines = learned_lines(
        &vs(&["a", "b", "c", "d"]),
        &vs(&["a", "e"]),
        &vs(&["a", "e"]),
    );
    assert_eq!(lines, vs(&["a", "~b", "~c", "~d"]));
    let fs = facet_inducing_atoms(&vs(&["a", "e"]), &vs(&["a", "e"]));
    assert_eq!(fs.len(), 0);
}

#[test]
fn learned_that_keeps_open_atoms_silent() {
    // Route [b]: c and d are open, so neither gets a line.
    let lines = learned_lines(
        &vs(&["a", "b", "c", "d"]),
        &vs(&["b", "c", "d", "e"]),
        &vs(&["b", "e"]),
    );
    assert_eq!(lines, vs(&["~a", "b"]));
}
