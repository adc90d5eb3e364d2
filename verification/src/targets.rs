//! Target-set primitives shared by the incremental facet engine and the
//! sampling engine: deduplication, what a model resolves of a target set,
//! and the temporary integrity constraints over a target set.

use vstd::prelude::*;

use crate::errors::NavigatorError;
use crate::text::{contains_text, lemma_push_contains, lemma_push_no_dup_helper, seq_views};

verus! {

/// `ts` with later repetitions dropped: each text kept at its first
/// occurrence only.
pub open spec fn dedup(ts: Seq<Seq<char>>) -> Seq<Seq<char>>
    decreases ts.len(),
{
    if ts.len() == 0 {
        Seq::empty()
    } else {
        let head = dedup(ts.drop_last());
        if ts.drop_last().contains(ts.last()) {
            head
        } else {
            head.push(ts.last())
        }
    }
}

/// The elements of `un` that do not appear in model `m`, in order: what is
/// still unresolved after the model was seen.
pub open spec fn retained(un: Seq<Seq<char>>, m: Seq<Seq<char>>) -> Seq<Seq<char>>
    decreases un.len(),
{
    if un.len() == 0 {
        Seq::empty()
    } else {
        let head = retained(un.drop_last(), m);
        if m.contains(un.last()) {
            head
        } else {
            head.push(un.last())
        }
    }
}

/// The elements of `un` that appear in model `m`, in order: what the model
/// newly resolves.
pub open spec fn newly_observed(un: Seq<Seq<char>>, m: Seq<Seq<char>>) -> Seq<Seq<char>>
    decreases un.len(),
{
    if un.len() == 0 {
        Seq::empty()
    } else {
        let head = newly_observed(un.drop_last(), m);
        if m.contains(un.last()) {
            head.push(un.last())
        } else {
            head
        }
    }
}

/// Deduplication yields distinct elements.
pub proof fn lemma_dedup_no_duplicates(ts: Seq<Seq<char>>)
    ensures
        dedup(ts).no_duplicates(),
    decreases ts.len(),
{
    if ts.len() > 0 {
        lemma_dedup_no_duplicates(ts.drop_last());
        lemma_dedup_same_contains(ts.drop_last());
        if !ts.drop_last().contains(ts.last()) {
            lemma_push_no_dup_helper(dedup(ts.drop_last()), ts.last());
        }
    }
}

/// Deduplication keeps exactly the elements of the original sequence.
pub proof fn lemma_dedup_same_contains(ts: Seq<Seq<char>>)
    ensures
        forall|a: Seq<char>| #[trigger] dedup(ts).contains(a) <==> ts.contains(a),
    decreases ts.len(),
{
    if ts.len() > 0 {
        lemma_dedup_same_contains(ts.drop_last());
        assert forall|a: Seq<char>| #[trigger] dedup(ts).contains(a) <==> ts.contains(a) by {
            lemma_push_contains(ts.drop_last(), ts.last(), a);
            if !ts.drop_last().contains(ts.last()) {
                lemma_push_contains(dedup(ts.drop_last()), ts.last(), a);
            }
            assert(ts.drop_last().push(ts.last()) =~= ts);
            assert(dedup(ts.drop_last()).contains(a) <==> ts.drop_last().contains(a));
        }
    }
}

/// What a model retains of the unresolved targets: exactly those not in the
/// model, still distinct, and together with what it newly resolves they
/// account for every unresolved target.
pub proof fn lemma_retained_properties(un: Seq<Seq<char>>, m: Seq<Seq<char>>)
    requires
        un.no_duplicates(),
    ensures
        retained(un, m).no_duplicates(),
        forall|a: Seq<char>| #[trigger] retained(un, m).contains(a) <==> un.contains(a)
            && !m.contains(a),
        retained(un, m).len() + newly_observed(un, m).len() == un.len(),
    decreases un.len(),
{
    if un.len() > 0 {
        un.drop_last().unique_seq_to_set();
        lemma_retained_properties(un.drop_last(), m);
        assert forall|a: Seq<char>| #[trigger]
            retained(un, m).contains(a) <==> un.contains(a) && !m.contains(a) by {
            lemma_push_contains(un.drop_last(), un.last(), a);
            if !m.contains(un.last()) {
                lemma_push_contains(retained(un.drop_last(), m), un.last(), a);
            }
            assert(un.drop_last().push(un.last()) =~= un);
        }
        if !m.contains(un.last()) {
            assert(!un.drop_last().contains(un.last()));
            lemma_push_no_dup_helper(retained(un.drop_last(), m), un.last());
        }
    }
}

/// A model that resolves nothing leaves the unresolved targets unchanged.
pub proof fn lemma_retained_all(un: Seq<Seq<char>>, m: Seq<Seq<char>>)
    requires
        newly_observed(un, m).len() == 0,
    ensures
        retained(un, m) == un,
    decreases un.len(),
{
    if un.len() > 0 {
        assert(!m.contains(un.last()));
        lemma_retained_all(un.drop_last(), m);
        assert(retained(un, m) =~= un);
    }
}

/// What a model newly observes: exactly the unresolved targets it contains,
/// still distinct when the unresolved targets were.
pub proof fn lemma_newly_observed_properties(un: Seq<Seq<char>>, m: Seq<Seq<char>>)
    requires
        un.no_duplicates(),
    ensures
        newly_observed(un, m).no_duplicates(),
        forall|a: Seq<char>| #[trigger] newly_observed(un, m).contains(a) <==> un.contains(a)
            && m.contains(a),
    decreases un.len(),
{
    if un.len() > 0 {
        un.drop_last().unique_seq_to_set();
        lemma_newly_observed_properties(un.drop_last(), m);
        assert forall|a: Seq<char>| #[trigger]
            newly_observed(un, m).contains(a) <==> un.contains(a) && m.contains(a) by {
            lemma_push_contains(un.drop_last(), un.last(), a);
            if m.contains(un.last()) {
                lemma_push_contains(newly_observed(un.drop_last(), m), un.last(), a);
            }
            assert(un.drop_last().push(un.last()) =~= un);
        }
        if m.contains(un.last()) {
            assert(!un.drop_last().contains(un.last()));
            lemma_push_no_dup_helper(newly_observed(un.drop_last(), m), un.last());
        }
    }
}

/// The distinct texts of `targets`, each at its first occurrence.
pub fn dedup_texts(targets: &Vec<String>) -> (r: Vec<String>)
    ensures
        seq_views(r@) == dedup(seq_views(targets@)),
        seq_views(r@).no_duplicates(),
{
    let n = targets.len();
    let mut out: Vec<String> = Vec::new();
    let mut i: usize = 0;
    while i < n
        invariant
            n == targets@.len(),
            i <= n,
            seq_views(out@) == dedup(seq_views(targets@).take(i as int)),
        decreases n - i,
    {
        let ghost tviews = seq_views(targets@);
        let ghost prev = seq_views(out@);
        proof {
            assert(tviews.take(i + 1).drop_last() =~= tviews.take(i as int));
            assert(tviews.take(i + 1).last() == tviews[i as int]);
            lemma_dedup_same_contains(tviews.take(i as int));
        }
        if !contains_text(&out, targets[i].as_str()) {
            out.push(targets[i].clone());
            proof {
                assert(seq_views(out@) =~= prev.push(tviews[i as int]));
            }
        }
        i += 1;
    }
    proof {
        assert(seq_views(targets@).take(n as int) =~= seq_views(targets@));
        lemma_dedup_no_duplicates(seq_views(targets@));
    }
    out
}

/// Splits the unresolved targets by one model: those the model does not
/// contain, and those it newly resolves, both in target order.
pub(crate) fn split_by_model(un: &Vec<String>, model: &Vec<String>) -> (r: (Vec<String>, Vec<
    String,
>))
    ensures
        seq_views(r.0@) == retained(seq_views(un@), seq_views(model@)),
        seq_views(r.1@) == newly_observed(seq_views(un@), seq_views(model@)),
{
    let ghost uviews = seq_views(un@);
    let ghost mv = seq_views(model@);
    let n = un.len();
    let mut keep: Vec<String> = Vec::new();
    let mut newly: Vec<String> = Vec::new();
    let mut i: usize = 0;
    while i < n
        invariant
            n == un@.len(),
            i <= n,
            uviews == seq_views(un@),
            mv == seq_views(model@),
            seq_views(keep@) == retained(uviews.take(i as int), mv),
            seq_views(newly@) == newly_observed(uviews.take(i as int), mv),
        decreases n - i,
    {
        let ghost prev_keep = seq_views(keep@);
        let ghost prev_newly = seq_views(newly@);
        proof {
            assert(uviews.take(i + 1).drop_last() =~= uviews.take(i as int));
            assert(uviews.take(i + 1).last() == uviews[i as int]);
        }
        if contains_text(model, un[i].as_str()) {
            newly.push(un[i].clone());
            proof {
                assert(seq_views(newly@) =~= prev_newly.push(uviews[i as int]));
            }
        } else {
            keep.push(un[i].clone());
            proof {
                assert(seq_views(keep@) =~= prev_keep.push(uviews[i as int]));
            }
        }
        i += 1;
    }
    proof {
        assert(uviews.take(n as int) =~= uviews);
    }
    (keep, newly)
}

/// The body items of the constraint forbidding all targets to be false:
/// ` not t1, not t2, ..., not tn` without the closing period.
pub open spec fn exclusion_items(ts: Seq<Seq<char>>) -> Seq<char>
    decreases ts.len(),
{
    if ts.len() == 0 {
        Seq::empty()
    } else if ts.len() == 1 {
        seq![' ', 'n', 'o', 't', ' '] + ts.last()
    } else {
        exclusion_items(ts.drop_last()) + seq![','] + seq![' ', 'n', 'o', 't', ' '] + ts.last()
    }
}

/// The integrity constraint forbidding all target atoms from being false at
/// once: `:- not t1, not t2, ..., not tn.`
pub open spec fn exclusion_rule_spec(ts: Seq<Seq<char>>) -> Seq<char> {
    seq![':', '-'] + exclusion_items(ts) + seq!['.']
}

/// Builds the constraint forbidding all of `targets` to be false at once,
/// temporarily added to the program so that every model covers at least one
/// target. An empty target set has no such constraint and is rejected.
pub fn exclusion_rule(targets: &Vec<String>) -> (r: Result<String, NavigatorError>)
    ensures
        match r {
            Ok(rule) => targets@.len() > 0 && rule@ == exclusion_rule_spec(seq_views(targets@)),
            Err(e) => e is InvalidInput && targets@.len() == 0,
        },
{
    let n = targets.len();
    if n == 0 {
        return Err(NavigatorError::InvalidInput(String::new()));
    }
    proof {
        reveal_strlit(":-");
        reveal_strlit(" not ");
        reveal_strlit(",");
        reveal_strlit(".");
        assert(":-"@ =~= seq![':', '-']);
        assert(" not "@ =~= seq![' ', 'n', 'o', 't', ' ']);
        assert(","@ =~= seq![',']);
        assert("."@ =~= seq!['.']);
    }
    let mut out = ":-".to_owned();
    let mut i: usize = 0;
    while i < n
        invariant
            n == targets@.len(),
            n > 0,
            i <= n,
            out@ == seq![':', '-'] + exclusion_items(seq_views(targets@).take(i as int)),
            ","@ == seq![','],
            " not "@ == seq![' ', 'n', 'o', 't', ' '],
        decreases n - i,
    {
        let ghost tviews = seq_views(targets@);
        proof {
            assert(tviews.take(i + 1).drop_last() =~= tviews.take(i as int));
            assert(tviews.take(i + 1).last() == tviews[i as int]);
        }
        if i > 0 {
            out.append(",");
        }
        out.append(" not ");
        out.append(targets[i].as_str());
        proof {
            if i == 0 {
                assert(tviews.take(1).len() == 1);
                assert(out@ =~= seq![':', '-'] + exclusion_items(tviews.take(i + 1)));
            } else {
                assert(out@ =~= seq![':', '-'] + exclusion_items(tviews.take(i + 1)));
            }
        }
        i += 1;
    }
    out.append(".");
    proof {
        assert(seq_views(targets@).take(n as int) =~= seq_views(targets@));
        assert(out@ =~= exclusion_rule_spec(seq_views(targets@)));
    }
    Ok(out)
}

/// The body items of the constraint forbidding all targets to be true:
/// ` t1, t2, ..., tn` without the closing period.
pub open spec fn conjunction_items(ts: Seq<Seq<char>>) -> Seq<char>
    decreases ts.len(),
{
    if ts.len() == 0 {
        Seq::empty()
    } else if ts.len() == 1 {
        seq![' '] + ts.last()
    } else {
        conjunction_items(ts.drop_last()) + seq![','] + seq![' '] + ts.last()
    }
}

/// The opposite integrity constraint, forbidding all target atoms from being
/// true at once: `:- t1, t2, ..., tn.`
pub open spec fn conjunction_rule_spec(ts: Seq<Seq<char>>) -> Seq<char> {
    seq![':', '-'] + conjunction_items(ts) + seq!['.']
}

/// Builds the constraint forbidding all of `targets` to be true at once,
/// temporarily added to the program during the cautious phase of the
/// incremental facet computation. An empty target set is rejected.
pub fn conjunction_rule(targets: &Vec<String>) -> (r: Result<String, NavigatorError>)
    ensures
        match r {
            Ok(rule) => targets@.len() > 0 && rule@ == conjunction_rule_spec(seq_views(targets@)),
            Err(e) => e is InvalidInput && targets@.len() == 0,
        },
{
    let n = targets.len();
    if n == 0 {
        return Err(NavigatorError::InvalidInput(String::new()));
    }
    proof {
        reveal_strlit(":-");
        reveal_strlit(" ");
        reveal_strlit(",");
        reveal_strlit(".");
        assert(":-"@ =~= seq![':', '-']);
        assert(" "@ =~= seq![' ']);
        assert(","@ =~= seq![',']);
        assert("."@ =~= seq!['.']);
    }
    let mut out = ":-".to_owned();
    let mut i: usize = 0;
    while i < n
        invariant
            n == targets@.len(),
            n > 0,
            i <= n,
            out@ == seq![':', '-'] + conjunction_items(seq_views(targets@).take(i as int)),
            ","@ == seq![','],
            " "@ == seq![' '],
        decreases n - i,
    {
        let ghost tviews = seq_views(targets@);
        proof {
            assert(tviews.take(i + 1).drop_last() =~= tviews.take(i as int));
            assert(tviews.take(i + 1).last() == tviews[i as int]);
        }
        if i > 0 {
            out.append(",");
        }
        out.append(" ");
        out.append(targets[i].as_str());
        proof {
            if i == 0 {
                assert(tviews.take(1).len() == 1);
                assert(out@ =~= seq![':', '-'] + conjunction_items(tviews.take(i + 1)));
            } else {
                assert(out@ =~= seq![':', '-'] + conjunction_items(tviews.take(i + 1)));
            }
        }
        i += 1;
    }
    out.append(".");
    proof {
        assert(seq_views(targets@).take(n as int) =~= seq_views(targets@));
        assert(out@ =~= conjunction_rule_spec(seq_views(targets@)));
    }
    Ok(out)
}

} // verus!
