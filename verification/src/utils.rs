//! Collection utilities: turning atom lists into hash sets and taking set
//! differences of atom lists.

use vstd::prelude::*;

use std::collections::HashSet;

use vstd::std_specs::hash::group_hash_axioms;
use vstd::std_specs::hash::obeys_key_model;

use crate::text::{lemma_push_contains, lemma_push_no_dup_helper, seq_views, str_eq};

verus! {

/// Set views of a list: the list as a hash set, and its difference with
/// another list, as a list or as a hash set.
pub trait ToHashSet<T> {
    /// The elements of the list, as a set.
    fn to_hashset(&self) -> HashSet<T>;

    /// The elements of the list that the other list lacks.
    fn difference(&self, other: &[T]) -> Vec<T>;

    /// The elements of the list that the other list lacks, as a set.
    fn difference_as_set(&self, other: &[T]) -> HashSet<T>;
}

/// Whether some string of the slice has the same characters as `s`.
fn slice_contains_text(v: &[String], s: &str) -> (r: bool)
    ensures
        r == seq_views(v@).contains(s@),
{
    let n = v.len();
    let mut i: usize = 0;
    while i < n
        invariant
            n == v@.len(),
            i <= n,
            forall|p: int| 0 <= p < i ==> seq_views(v@)[p] != s@,
        decreases n - i,
    {
        if str_eq(v[i].as_str(), s) {
            assert(seq_views(v@)[i as int] == s@);
            return true;
        }
        i += 1;
    }
    false
}

impl ToHashSet<String> for Vec<String> {
    /// The strings of the list, as a hash set — the set of exactly the
    /// list's elements, under the standard hasher's key model.
    fn to_hashset(&self) -> (r: HashSet<String>)
        ensures
            obeys_key_model::<String>() ==> r@ == self@.to_set(),
    {
        broadcast use group_hash_axioms;

        let n = self.len();
        let mut out: HashSet<String> = HashSet::new();
        let mut i: usize = 0;
        while i < n
            invariant
                n == self@.len(),
                i <= n,
                obeys_key_model::<String>() ==> out@ == self@.take(i as int).to_set(),
            decreases n - i,
        {
            let ghost prev = out@;
            out.insert(self[i].clone());
            proof {
                if obeys_key_model::<String>() {
                    assert forall|x: String|
                        self@.take(i + 1).to_set().contains(x) <==> prev.insert(
                            self@[i as int],
                        ).contains(x) by {
                        lemma_push_contains(self@.take(i as int), self@[i as int], x);
                        assert(self@.take(i + 1) =~= self@.take(i as int).push(self@[i as int]));
                    }
                    assert(out@ =~= self@.take(i + 1).to_set());
                }
            }
            i += 1;
        }
        proof {
            assert(self@.take(n as int) =~= self@);
        }
        out
    }

    /// The strings of the list whose text does not appear in the other list,
    /// each text exactly once, in first-occurrence order.
    fn difference(&self, other: &[String]) -> (r: Vec<String>)
        ensures
            seq_views(r@).no_duplicates(),
            forall|a: Seq<char>|
                #[trigger] seq_views(r@).contains(a) <==> seq_views(self@).contains(a)
                    && !seq_views(other@).contains(a),
    {
        let n = self.len();
        let mut out: Vec<String> = Vec::new();
        let mut i: usize = 0;
        while i < n
            invariant
                n == self@.len(),
                i <= n,
                seq_views(out@).no_duplicates(),
                forall|a: Seq<char>|
                    #[trigger] seq_views(out@).contains(a) <==> seq_views(self@).take(
                        i as int,
                    ).contains(a) && !seq_views(other@).contains(a),
            decreases n - i,
        {
            let ghost sviews = seq_views(self@);
            let ghost prev = seq_views(out@);
            proof {
                assert(sviews.take(i + 1) =~= sviews.take(i as int).push(sviews[i as int]));
            }
            if !slice_contains_text(other, self[i].as_str()) && !crate::text::contains_text(
                &out,
                self[i].as_str(),
            ) {
                proof {
                    lemma_push_no_dup_helper(prev, sviews[i as int]);
                }
                out.push(self[i].clone());
                proof {
                    assert(seq_views(out@) =~= prev.push(self@[i as int]@));
                    assert forall|a: Seq<char>| #[trigger]
                        seq_views(out@).contains(a) <==> (sviews.take(i + 1).contains(a)
                            && !seq_views(other@).contains(a)) by {
                        lemma_push_contains(prev, sviews[i as int], a);
                        lemma_push_contains(sviews.take(i as int), sviews[i as int], a);
                    }
                }
            } else {
                proof {
                    assert forall|a: Seq<char>| #[trigger]
                        seq_views(out@).contains(a) <==> (sviews.take(i + 1).contains(a)
                            && !seq_views(other@).contains(a)) by {
                        lemma_push_contains(sviews.take(i as int), sviews[i as int], a);
                    }
                }
            }
            i += 1;
        }
        proof {
            assert(seq_views(self@).take(n as int) =~= seq_views(self@));
        }
        out
    }

    /// The difference as a hash set: under the standard hasher's key model,
    /// it holds strings whose texts are exactly those of the list not
    /// appearing in the other list.
    fn difference_as_set(&self, other: &[String]) -> (r: HashSet<String>)
        ensures
            obeys_key_model::<String>() ==> {
                &&& forall|x: String|
                    #[trigger] r@.contains(x) ==> seq_views(self@).contains(x@) && !seq_views(
                        other@,
                    ).contains(x@)
                &&& forall|a: Seq<char>|
                    seq_views(self@).contains(a) && !seq_views(other@).contains(a)
                        ==> exists|x: String| #[trigger] r@.contains(x) && x@ == a
            },
    {
        broadcast use group_hash_axioms;

        let d = self.difference(other);
        let ghost dviews = seq_views(d@);
        let n = d.len();
        let mut out: HashSet<String> = HashSet::new();
        let mut i: usize = 0;
        while i < n
            invariant
                n == d@.len(),
                i <= n,
                dviews == seq_views(d@),
                obeys_key_model::<String>() ==> out@ == d@.take(i as int).to_set(),
            decreases n - i,
        {
            let ghost prev = out@;
            out.insert(d[i].clone());
            proof {
                if obeys_key_model::<String>() {
                    assert forall|x: String|
                        d@.take(i + 1).to_set().contains(x) <==> prev.insert(
                            d@[i as int],
                        ).contains(x) by {
                        lemma_push_contains(d@.take(i as int), d@[i as int], x);
                        assert(d@.take(i + 1) =~= d@.take(i as int).push(d@[i as int]));
                    }
                    assert(out@ =~= d@.take(i + 1).to_set());
                }
            }
            i += 1;
        }
        proof {
            assert(d@.take(n as int) =~= d@);
            if obeys_key_model::<String>() {
                assert forall|x: String| #[trigger]
                    out@.contains(x) implies seq_views(self@).contains(x@) && !seq_views(
                    other@,
                ).contains(x@) by {
                    assert(d@.to_set().contains(x));
                    assert(d@.contains(x));
                    let k = choose|k: int| 0 <= k < d@.len() && d@[k] == x;
                    assert(seq_views(d@)[k] == x@);
                    assert(seq_views(d@).contains(x@));
                }
                assert forall|a: Seq<char>|
                    seq_views(self@).contains(a) && !seq_views(other@).contains(a) implies exists|
                    x: String,
                |
                    #[trigger] out@.contains(x) && x@ == a by {
                    assert(seq_views(d@).contains(a));
                    let k = choose|k: int| 0 <= k < seq_views(d@).len() && seq_views(d@)[k] == a;
                    assert(d@.contains(d@[k]));
                    assert(out@.contains(d@[k]) && d@[k]@ == a);
                }
            }
        }
        out
    }
}

} // verus!
