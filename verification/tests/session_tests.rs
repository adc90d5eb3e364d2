use aspnav::atoms::{AtomEntry, AtomMap};
use aspnav::errors::NavigatorError;
use aspnav::session::{ControlState, EnumMode, Program, Session};

const EXAMPLE: &str = "a;b. c;d :- b. e.";

fn example_entries() -> Vec<AtomEntry> {
    let names = ["a", "b", "c", "d", "e"];
    let mut entries = Vec::new();
    for (i, name) in names.iter().enumerate() {
        entries.push(AtomEntry {
            text: (*name).to_owned(),
            name: (*name).to_owned(),
            arity: 0,
            lit: (i + 1) as i32,
        });
    }
    entries
}

fn example_session() -> Session {
    let program = Program::new(EXAMPLE.to_owned(), vec!["0".to_owned()]);
    Session::new(program, example_entries()).unwrap()
}

#[test]
fn startup() {
    let program = Program::new(EXAMPLE.to_owned(), vec!["0".to_owned()]);
    let nav = Session::new(program, example_entries());
    assert!(nav.is_ok());
}

#[test]
fn atom_map_rejects_duplicates() {
    let mut entries = example_entries();
    entries.push(AtomEntry {
        text: "a".to_owned(),
        name: "a".to_owned(),
        arity: 0,
        lit: 9,
    });
    match AtomMap::new(entries) {
        Err(NavigatorError::InvalidInput(_)) => {}
        _ => panic!("a duplicate atom text must be rejected"),
    }
}

#[test]
fn atom_map_rejects_nonpositive_literals() {
    let entries = vec![AtomEntry {
        text: "a".to_owned(),
        name: "a".to_owned(),
        arity: 0,
        lit: 0,
    }];
    match AtomMap::new(entries) {
        Err(NavigatorError::InvalidInput(_)) => {}
        _ => panic!("a non-positive literal handle must be rejected"),
    }
}

#[test]
fn program_and_reset_program() {
    let nav = example_session();
    assert_eq!(nav.program(), EXAMPLE);
    assert_eq!(nav.reset_program(), EXAMPLE);
}

#[test]
fn is_known() {
    let nav = example_session();
    assert!(nav.is_known("a"));
    assert!(nav.is_known("e"));
    assert!(!nav.is_known("f"));
    assert!(!nav.is_known("~a"));
}

#[test]
fn atoms_and_symbols() {
    let nav = example_session();
    let atoms = nav.atoms();
    assert_eq!(atoms, vec!["a", "b", "c", "d", "e"]);
    let symbols = nav.symbols();
    assert_eq!(symbols.len(), 5);
    assert_eq!(symbols[0], ("a".to_owned(), 0));
    assert_eq!(symbols[4], ("e".to_owned(), 0));
}

#[test]
fn resolve_positive_and_negated() {
    let nav = example_session();
    assert_eq!(nav.resolve("a"), Some(1));
    assert_eq!(nav.resolve("c"), Some(3));
    assert_eq!(nav.resolve("~c"), Some(-3));
    assert_eq!(nav.resolve("x"), None);
    assert_eq!(nav.resolve("~x"), None);
    assert_eq!(nav.resolve(""), None);
}

#[test]
fn resolve_route_drops_unknown_elements() {
    let nav = example_session();
    let route = vec!["b".to_owned(), "nope".to_owned(), "~d".to_owned()];
    assert_eq!(nav.resolve_route(&route), vec![2, -4]);
    let empty: Vec<String> = Vec::new();
    assert_eq!(nav.resolve_route(&empty), Vec::<i32>::new());
}

#[test]
fn add_rule_appends_on_fresh_line() {
    let program = Program::new(EXAMPLE.to_owned(), vec!["0".to_owned()]);
    let extended = program.add_rule("f.");
    assert_eq!(extended.source(), format!("{}\nf.", EXAMPLE));
    assert_eq!(extended.args(), vec!["0".to_owned()]);
}

#[test]
fn remove_rule_removes_first_occurrence_only() {
    let program = Program::new("a. b. a.".to_owned(), Vec::new());
    let trimmed = program.remove_rule("a. ");
    assert_eq!(trimmed.source(), "b. a.");
    let unchanged = program.remove_rule("zzz");
    assert_eq!(unchanged.source(), "a. b. a.");
}

#[test]
fn rule_round_trip_restores_source() {
    let program = Program::new(EXAMPLE.to_owned(), vec!["0".to_owned()]);
    let extended = program.add_rule(":- c.");
    let restored = extended.remove_rule(":- c.");
    assert_eq!(restored.source(), format!("{}\n", EXAMPLE));
    assert_eq!(restored.args(), program.args());
    let before = Session::new(program, example_entries()).unwrap();
    let after = Session::new(restored, example_entries()).unwrap();
    assert_eq!(before.atoms(), after.atoms());
}

#[test]
fn add_and_remove_arg() {
    let program = Program::new(EXAMPLE.to_owned(), vec!["0".to_owned()]);
    let more = program.add_arg("--supp-models");
    assert_eq!(more.args(), vec!["0".to_owned(), "--supp-models".to_owned()]);
    let fewer = more.remove_arg("0").unwrap();
    assert_eq!(fewer.args(), vec!["--supp-models".to_owned()]);
}

#[test]
fn remove_missing_arg_is_an_error() {
    let program = Program::new(EXAMPLE.to_owned(), vec!["0".to_owned()]);
    match program.remove_arg("--supp-models") {
        Err(NavigatorError::InvalidInput(a)) => assert_eq!(a, "--supp-models"),
        _ => panic!("removing an argument that was never added must fail"),
    }
}

#[test]
fn handle_protocol_allows_one_query_at_a_time() {
    let mut nav = example_session();
    assert_eq!(nav.control(), ControlState::Idle);
    nav.begin_query(EnumMode::Brave, false).unwrap();
    assert_eq!(nav.control(), ControlState::CheckedOut);
    match nav.begin_query(EnumMode::Cautious, false) {
        Err(NavigatorError::NoControl) => {}
        _ => panic!("a second live query must fail with NoControl"),
    }
    nav.end_query();
    assert_eq!(nav.control(), ControlState::Idle);
    nav.begin_query(EnumMode::Auto, true).unwrap();
    nav.end_query();
}

#[test]
fn abandoned_query_is_fatal() {
    let mut nav = example_session();
    nav.begin_query(EnumMode::Brave, false).unwrap();
    nav.abandon_query();
    assert_eq!(nav.control(), ControlState::Lost);
    match nav.begin_query(EnumMode::Brave, false) {
        Err(NavigatorError::NoControl) => {}
        _ => panic!("a lost handle must stay lost"),
    }
}
