use aspnav::weights::Weight;

// Engine-reported quantities for the running example `a;b. c;d :- b. e.`:
// per route, the brave and cautious consequence cardinalities, and the number
// of models a full enumeration yields.

#[test]
fn facet_count() {
    let w = Weight::FacetCounting;

    // Route [a, b]: unsatisfiable, no brave consequence.
    assert_eq!(w.count(Some(0), Some(0), None), Some(0));

    // Route [a]: brave {a,e}, cautious {a,e}.
    assert_eq!(w.count(Some(2), Some(2), None), Some(0));

    // Routes [c] and [d]: one model each, brave = cautious.
    assert_eq!(w.count(Some(3), Some(3), None), Some(0));

    // Route [~b]: only {a,e} remains.
    assert_eq!(w.count(Some(2), Some(2), None), Some(0));

    // Route [b]: brave {b,c,d,e}, cautious {b,e}.
    assert_eq!(w.count(Some(4), Some(2), None), Some(4));

    // Route [~a]: same as [b].
    assert_eq!(w.count(Some(4), Some(2), None), Some(4));

    // Route [~c]: brave {a,b,d,e}, cautious {e}.
    assert_eq!(w.count(Some(4), Some(1), None), Some(6));

    // Route [~d]: same shape as [~c].
    assert_eq!(w.count(Some(4), Some(1), None), Some(6));

    // Empty route: brave {a,b,c,d,e}, cautious {e}.
    assert_eq!(w.count(Some(5), Some(1), None), Some(8));
}

#[test]
fn facet_count_propagates_engine_failure() {
    let w = Weight::FacetCounting;
    assert_eq!(w.count(None, None, Some(7)), None);
    assert_eq!(w.count(Some(3), None, Some(7)), None);
    // A failed cautious query after an empty brave set never surfaces: the
    // score is already settled at zero.
    assert_eq!(w.count(Some(0), None, None), Some(0));
}

#[test]
fn answer_set_count() {
    let w = Weight::AnswerSetCounting;

    // Route [a, b]: unsatisfiable.
    assert_eq!(w.count(None, None, Some(0)), Some(0));

    // Routes [a], [c], [d], [~b]: one model each.
    assert_eq!(w.count(None, None, Some(1)), Some(1));

    // Routes [b], [~a], [~c], [~d]: two models each.
    assert_eq!(w.count(None, None, Some(2)), Some(2));

    // Empty route: all three models.
    assert_eq!(w.count(None, None, Some(3)), Some(3));

    // A failed enumeration yields no score.
    assert_eq!(w.count(None, None, None), None);
}
