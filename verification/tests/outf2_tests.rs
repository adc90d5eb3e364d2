use aspnav::outf2::outf2_record;

fn vs(xs: &[&str]) -> Vec<String> {
    xs.iter().map(|x| (*x).to_owned()).collect()
}

#[test]
fn enumerate_outf2() {
    // Route [b] yields {b, c, e} as one of its models.
    let record = outf2_record(&vs(&["b", "c", "e"]));
    let prefix = "{\"Solver\": \"\", \"Input\": [\"\"], \"Call\": [ { \"Witnesses\": [ { \"Value\": [";
    let items = "\"b\", \"c\", \"e\"";
    let suffix = "]}]}],\n\"Result\":\"SATISFIABLE\",\n\"Models\":{\"Number\":1,\"More\":\"yes\"},\n\"Calls\": 1,\n\"Time\":{\"Total\": 0.000,\"Solve\": 0.000,\"Model\": 0.000,\"Unsat\": 0.000,\"CPU\": 0.000}}\n";
    let expected = format!("{}{}{}", prefix, items, suffix);
    assert_eq!(record, expected);
}

#[test]
fn outf2_record_of_single_atom() {
    let record = outf2_record(&vs(&["e"]));
    assert!(record.contains("\"Value\": [\"e\"]}"));
    assert!(record.ends_with("\"CPU\": 0.000}}\n"));
}

#[test]
fn outf2_record_of_empty_model_is_left_open() {
    let record = outf2_record(&Vec::new());
    assert_eq!(
        record,
        "{\"Solver\": \"\", \"Input\": [\"\"], \"Call\": [ { \"Witnesses\": [ { \"Value\": ["
    );
}

#[test]
fn outf2_record_escapes_atom_text() {
    let record = outf2_record(&vs(&["p(\"x\\y\")"]));
    assert!(record.contains("\"p(\\\"x\\\\y\\\")\""));
}
