use aspnav::enumerate::{project_atoms, Enumeration};

fn vs(xs: &[&str]) -> Vec<String> {
    xs.iter().map(|x| (*x).to_owned()).collect()
}

#[test]
fn enumerate() {
    // The running example yields three models under the empty route.
    let mut e = Enumeration::new(None);
    assert!(!e.on_model());
    assert!(!e.on_model());
    assert!(!e.on_model());
    assert_eq!(e.total(), 3);
}

#[test]
fn enumerate_with_upper_bound() {
    for ub in [1usize, 2, 3] {
        let mut e = Enumeration::new(Some(ub));
        let mut n = 0usize;
        loop {
            let stop = e.on_model();
            n += 1;
            if stop || n == 3 {
                break;
            }
        }
        assert_eq!(e.total(), ub);
    }
    for ub in [4usize, 5, 6] {
        let mut e = Enumeration::new(Some(ub));
        // Only three models exist: the stream is exhausted before the bound.
        assert!(!e.on_model());
        assert!(!e.on_model());
        assert!(!e.on_model());
        assert_eq!(e.total(), 3);
    }
}

#[test]
fn enumerate_projected() {
    // Route [b], projected onto {c, d}: the two models shed everything else.
    let allow = vs(&["c", "d"]);
    assert_eq!(project_atoms(&vs(&["b", "c", "e"]), &allow), vs(&["c"]));
    assert_eq!(project_atoms(&vs(&["b", "d", "e"]), &allow), vs(&["d"]));
    assert_eq!(project_atoms(&vs(&["a", "e"]), &allow), Vec::<String>::new());
    let empty: Vec<String> = Vec::new();
    assert_eq!(project_atoms(&vs(&["a", "e"]), &empty), Vec::<String>::new());
}
