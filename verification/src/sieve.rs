//! The diversified sampling engine: collects a small set of models that
//! together cover a target atom set, skipping duplicate models, and keeps the
//! per-atom frequency table its diagnostics are computed from.

use vstd::prelude::*;

use crate::targets::{
    dedup, lemma_dedup_no_duplicates, lemma_dedup_same_contains, lemma_newly_observed_properties,
    lemma_retained_all, lemma_retained_properties, newly_observed, retained,
};
use crate::text::{contains_text, seq_views, str_eq};

verus! {

/// The frequency table with every entry whose atom appears in model `m`
/// incremented by one.
pub open spec fn bumped(f: Seq<(Seq<char>, usize)>, m: Seq<Seq<char>>) -> Seq<(Seq<char>, usize)> {
    f.map_values(
        |p: (Seq<char>, usize)|
            if m.contains(p.0) {
                (p.0, (p.1 + 1) as usize)
            } else {
                p
            },
    )
}

/// The atoms of a frequency table, in order.
pub open spec fn freq_keys(f: Seq<(Seq<char>, usize)>) -> Seq<Seq<char>> {
    f.map_values(|p: (Seq<char>, usize)| p.0)
}

/// The total observed population: the sum of all frequencies.
pub open spec fn freq_sum(f: Seq<(Seq<char>, usize)>) -> int
    decreases f.len(),
{
    if f.len() == 0 {
        0
    } else {
        freq_sum(f.drop_last()) + f.last().1
    }
}

/// How many atoms of the table were observed at least once.
pub open spec fn covered_count(f: Seq<(Seq<char>, usize)>) -> int
    decreases f.len(),
{
    if f.len() == 0 {
        0
    } else {
        covered_count(f.drop_last()) + if f.last().1 > 0 {
            1int
        } else {
            0int
        }
    }
}

/// The models of a collection, each as its sequence of atom texts.
pub open spec fn model_views(ms: Seq<Vec<String>>) -> Seq<Seq<Seq<char>>> {
    ms.map_values(|m: Vec<String>| seq_views(m@))
}

/// Whether two models list the same atom texts in the same order: the
/// structural equality by which duplicate models are detected.
pub fn model_eq(a: &Vec<String>, b: &Vec<String>) -> (r: bool)
    ensures
        r == (seq_views(a@) == seq_views(b@)),
{
    let n = a.len();
    if n != b.len() {
        proof {
            assert(seq_views(a@).len() != seq_views(b@).len());
        }
        return false;
    }
    let mut i: usize = 0;
    while i < n
        invariant
            n == a@.len(),
            n == b@.len(),
            i <= n,
            forall|p: int| 0 <= p < i ==> seq_views(a@)[p] == seq_views(b@)[p],
        decreases n - i,
    {
        if !str_eq(a[i].as_str(), b[i].as_str()) {
            assert(seq_views(a@)[i as int] != seq_views(b@)[i as int]);
            return false;
        }
        i += 1;
    }
    proof {
        assert(seq_views(a@) =~= seq_views(b@));
    }
    true
}

/// Whether the collection already holds a model with exactly these atoms.
pub fn contains_model(ms: &Vec<Vec<String>>, m: &Vec<String>) -> (r: bool)
    ensures
        r == model_views(ms@).contains(seq_views(m@)),
{
    let n = ms.len();
    let mut i: usize = 0;
    while i < n
        invariant
            n == ms@.len(),
            i <= n,
            forall|p: int| 0 <= p < i ==> model_views(ms@)[p] != seq_views(m@),
        decreases n - i,
    {
        if model_eq(&ms[i], m) {
            assert(model_views(ms@)[i as int] == seq_views(m@));
            return true;
        }
        i += 1;
    }
    false
}

/// Copies the atom texts of a model.
fn clone_strings(v: &Vec<String>) -> (r: Vec<String>)
    ensures
        seq_views(r@) == seq_views(v@),
{
    let n = v.len();
    let mut out: Vec<String> = Vec::new();
    let mut i: usize = 0;
    while i < n
        invariant
            n == v@.len(),
            i <= n,
            out@.len() == i,
            forall|p: int| 0 <= p < i ==> #[trigger] out@[p]@ == v@[p]@,
        decreases n - i,
    {
        out.push(v[i].clone());
        i += 1;
    }
    proof {
        assert(seq_views(out@) =~= seq_views(v@));
    }
    out
}

/// What one model means for the sieve.
#[derive(Clone, Copy, Debug, PartialEq, Eq, Structural)]
pub enum SieveOutcome {
    /// The model resolved a new target and was collected: stop draining and
    /// pick the next unresolved target.
    Collected,
    /// The model resolved a new target but is identical to one already
    /// collected: skip it and keep draining.
    Duplicate,
    /// The model resolved nothing new: keep draining.
    Nothing,
}

/// The state of one sieve run: the unresolved targets, the targets already
/// observed true, the distinct models collected so far, and the frequency
/// table.
///
/// The frequency table is rebuilt for every run and discarded afterwards.
pub struct SieveState {
    unresolved: Vec<String>,
    observed: Vec<String>,
    collected: Vec<Vec<String>>,
    freq: Vec<(String, usize)>,
    target_count: usize,
}

impl SieveState {
    /// The targets not yet seen true, in order.
    pub closed spec fn unresolved_view(&self) -> Seq<Seq<char>> {
        seq_views(self.unresolved@)
    }

    /// The targets seen true in some model, in observation order.
    pub closed spec fn observed_view(&self) -> Seq<Seq<char>> {
        seq_views(self.observed@)
    }

    /// The models collected so far, in collection order.
    pub closed spec fn collected_views(&self) -> Seq<Seq<Seq<char>>> {
        model_views(self.collected@)
    }

    /// The frequency table: each distinct target with the number of collected
    /// models it appears in.
    pub closed spec fn freq_view(&self) -> Seq<(Seq<char>, usize)> {
        self.freq@.map_values(|p: (String, usize)| (p.0@, p.1))
    }

    /// How many target atoms the run was started with, repetitions included.
    pub closed spec fn target_count_view(&self) -> usize {
        self.target_count
    }

    /// The sieve discipline:
    /// - no target is listed twice as unresolved;
    /// - the collection never holds two identical models;
    /// - the frequency table has one entry per distinct target;
    /// - every distinct target is either still unresolved or already
    ///   observed, and never both.
    pub open spec fn wf(&self) -> bool {
        &&& self.unresolved_view().no_duplicates()
        &&& self.collected_views().no_duplicates()
        &&& freq_keys(self.freq_view()).no_duplicates()
        &&& forall|a: Seq<char>|
            #[trigger] freq_keys(self.freq_view()).contains(a) <==> self.unresolved_view().contains(
                a,
            ) || self.observed_view().contains(a)
        &&& forall|a: Seq<char>|
            #[trigger] self.observed_view().contains(a) ==> !self.unresolved_view().contains(a)
        &&& forall|a: Seq<char>|
            #[trigger] self.unresolved_view().contains(a) ==> freq_keys(
                self.freq_view(),
            ).contains(a)
    }

    /// Starts a sieve run over `targets`: every distinct target is
    /// unresolved, nothing is observed or collected, and all frequencies are
    /// zero.
    pub fn new(targets: &Vec<String>) -> (r: SieveState)
        ensures
            r.wf(),
            r.unresolved_view() == dedup(seq_views(targets@)),
            r.observed_view() == Seq::<Seq<char>>::empty(),
            r.collected_views() == Seq::<Seq<Seq<char>>>::empty(),
            freq_keys(r.freq_view()) == dedup(seq_views(targets@)),
            forall|i: int| 0 <= i < r.freq_view().len() ==> r.freq_view()[i].1 == 0,
            r.target_count_view() == targets@.len(),
    {
        let n = targets.len();
        let mut unresolved: Vec<String> = Vec::new();
        let mut freq: Vec<(String, usize)> = Vec::new();
        let mut i: usize = 0;
        while i < n
            invariant
                n == targets@.len(),
                i <= n,
                seq_views(unresolved@) == dedup(seq_views(targets@).take(i as int)),
                freq@.map_values(|p: (String, usize)| (p.0@, p.1)) == seq_views(
                    unresolved@,
                ).map_values(|a: Seq<char>| (a, 0usize)),
            decreases n - i,
        {
            let ghost tviews = seq_views(targets@);
            let ghost prev = seq_views(unresolved@);
            proof {
                assert(tviews.take(i + 1).drop_last() =~= tviews.take(i as int));
                assert(tviews.take(i + 1).last() == tviews[i as int]);
                assert(forall|a: Seq<char>|
                    tviews.take(i as int).contains(a) ==> #[trigger] tviews.contains(a));
            }
            if !contains_text(&unresolved, targets[i].as_str()) {
                proof {
                    lemma_dedup_same_contains(tviews.take(i as int));
                }
                let ghost prev_freq = freq@.map_values(|p: (String, usize)| (p.0@, p.1));
                unresolved.push(targets[i].clone());
                freq.push((targets[i].clone(), 0));
                proof {
                    assert(seq_views(unresolved@) =~= prev.push(tviews[i as int]));
                    assert(freq@.map_values(|p: (String, usize)| (p.0@, p.1)) =~= prev_freq.push(
                        (tviews[i as int], 0usize),
                    ));
                    assert(seq_views(unresolved@).map_values(|a: Seq<char>| (a, 0usize))
                        =~= prev.map_values(|a: Seq<char>| (a, 0usize)).push(
                        (tviews[i as int], 0usize),
                    ));
                }
            } else {
                proof {
                    lemma_dedup_same_contains(tviews.take(i as int));
                }
            }
            i += 1;
        }
        proof {
            assert(seq_views(targets@).take(n as int) =~= seq_views(targets@));
        }
        let r = SieveState {
            unresolved,
            observed: Vec::new(),
            collected: Vec::new(),
            freq,
            target_count: n,
        };
        proof {
            lemma_dedup_no_duplicates(seq_views(targets@));
            lemma_dedup_same_contains(seq_views(targets@));
            assert(freq_keys(r.freq_view()) =~= r.unresolved_view());
        }
        r
    }

    /// Whether every target has been seen true: the run is complete.
    pub fn done(&self) -> (r: bool)
        ensures
            r == (self.unresolved_view().len() == 0),
    {
        self.unresolved.len() == 0
    }

    /// An unresolved target to search a model for, or nothing when the run is
    /// complete.
    pub fn pick(&self) -> (r: Option<String>)
        ensures
            match r {
                Some(a) => self.unresolved_view().len() > 0 && a@ == self.unresolved_view()[0],
                None => self.unresolved_view().len() == 0,
            },
    {
        if self.unresolved.len() == 0 {
            None
        } else {
            Some(self.unresolved[0].clone())
        }
    }

    /// Number of models collected so far.
    pub fn collected_count(&self) -> (r: usize)
        ensures
            r == self.collected_views().len(),
    {
        self.collected.len()
    }

    /// The targets observed true so far, handing the run's result out.
    pub fn observed(self) -> (r: Vec<String>)
        ensures
            seq_views(r@) == self.observed_view(),
    {
        self.observed
    }

    /// The frequency table, for diagnostics.
    pub fn frequencies(&self) -> (r: &Vec<(String, usize)>)
        ensures
            r@.map_values(|p: (String, usize)| (p.0@, p.1)) == self.freq_view(),
    {
        &self.freq
    }

    /// The total observed population: the sum of all per-atom frequencies,
    /// the denominator of the diagnostics' probabilities.
    pub fn population(&self) -> (r: usize)
        requires
            freq_sum(self.freq_view()) <= usize::MAX,
        ensures
            r == freq_sum(self.freq_view()),
    {
        let n = self.freq.len();
        let mut total: usize = 0;
        let mut i: usize = 0;
        while i < n
            invariant
                n == self.freq@.len(),
                i <= n,
                total == freq_sum(self.freq_view().take(i as int)),
                freq_sum(self.freq_view()) <= usize::MAX,
            decreases n - i,
        {
            proof {
                assert(self.freq_view().take(i + 1).drop_last() =~= self.freq_view().take(i as int));
                assert(self.freq_view().take(i + 1).last() == self.freq_view()[i as int]);
                lemma_freq_sum_take_bound(self.freq_view(), i + 1);
            }
            total = total + self.freq[i].1;
            i += 1;
        }
        proof {
            assert(self.freq_view().take(n as int) =~= self.freq_view());
        }
        total
    }

    /// How many target atoms were observed true at least once: the numerator
    /// of the coverage ratio, whose denominator is the target count.
    pub fn covered(&self) -> (r: usize)
        ensures
            r == covered_count(self.freq_view()),
    {
        let n = self.freq.len();
        let mut total: usize = 0;
        let mut i: usize = 0;
        while i < n
            invariant
                n == self.freq@.len(),
                i <= n,
                total == covered_count(self.freq_view().take(i as int)),
                total <= i,
            decreases n - i,
        {
            proof {
                assert(self.freq_view().take(i + 1).drop_last() =~= self.freq_view().take(i as int));
                assert(self.freq_view().take(i + 1).last() == self.freq_view()[i as int]);
            }
            if self.freq[i].1 > 0 {
                total = total + 1;
            }
            proof {
                lemma_covered_count_bound(self.freq_view().take(i + 1));
            }
            i += 1;
        }
        proof {
            assert(self.freq_view().take(n as int) =~= self.freq_view());
        }
        total
    }

    /// How many target atoms the run was started with, repetitions included.
    pub fn target_count(&self) -> (r: usize)
        ensures
            r == self.target_count_view(),
    {
        self.target_count
    }

    /// Feeds one model into the sieve. Every still-unresolved target the
    /// model contains is resolved and recorded as observed, opportunistically
    /// and in one batch. The model is collected — and the frequency of every
    /// target it contains bumped — exactly when it resolved something new and
    /// no identical model was collected before; a duplicate is skipped and
    /// enumeration goes on.
    pub fn on_model(&mut self, model: &Vec<String>) -> (r: SieveOutcome)
        requires
            old(self).wf(),
            forall|i: int|
                0 <= i < old(self).freq_view().len() ==> (#[trigger] old(self).freq_view()[i]).1
                    < usize::MAX,
        ensures
            final(self).wf(),
            final(self).unresolved_view() == retained(
                old(self).unresolved_view(),
                seq_views(model@),
            ),
            final(self).observed_view() == old(self).observed_view() + newly_observed(
                old(self).unresolved_view(),
                seq_views(model@),
            ),
            final(self).target_count_view() == old(self).target_count_view(),
            r is Collected <==> newly_observed(old(self).unresolved_view(), seq_views(model@)).len()
                > 0 && !old(self).collected_views().contains(seq_views(model@)),
            r is Duplicate <==> newly_observed(old(self).unresolved_view(), seq_views(model@)).len()
                > 0 && old(self).collected_views().contains(seq_views(model@)),
            r is Nothing <==> newly_observed(old(self).unresolved_view(), seq_views(model@)).len()
                == 0,
            r is Collected ==> final(self).collected_views() == old(self).collected_views().push(
                seq_views(model@),
            ) && final(self).freq_view() == bumped(old(self).freq_view(), seq_views(model@)),
            !(r is Collected) ==> final(self).collected_views() == old(self).collected_views()
                && final(self).freq_view() == old(self).freq_view(),
            !(r is Nothing) ==> final(self).unresolved_view().len() < old(
                self,
            ).unresolved_view().len(),
            r is Nothing ==> final(self).unresolved_view() == old(self).unresolved_view(),
    {
        let ghost old_un = self.unresolved_view();
        let ghost mv = seq_views(model@);
        proof {
            assert(old_un == old(self).unresolved_view());
        }
        let n = self.unresolved.len();
        let mut keep: Vec<String> = Vec::new();
        let mut newly: Vec<String> = Vec::new();
        let mut i: usize = 0;
        while i < n
            invariant
                n == self.unresolved@.len(),
                i <= n,
                old_un == seq_views(self.unresolved@),
                mv == seq_views(model@),
                seq_views(keep@) == retained(old_un.take(i as int), mv),
                seq_views(newly@) == newly_observed(old_un.take(i as int), mv),
            decreases n - i,
        {
            let ghost prev_keep = seq_views(keep@);
            let ghost prev_newly = seq_views(newly@);
            proof {
                assert(old_un.take(i + 1).drop_last() =~= old_un.take(i as int));
                assert(old_un.take(i + 1).last() == old_un[i as int]);
            }
            if contains_text(model, self.unresolved[i].as_str()) {
                newly.push(self.unresolved[i].clone());
                proof {
                    assert(seq_views(newly@) =~= prev_newly.push(old_un[i as int]));
                }
            } else {
                keep.push(self.unresolved[i].clone());
                proof {
                    assert(seq_views(keep@) =~= prev_keep.push(old_un[i as int]));
                }
            }
            i += 1;
        }
        proof {
            assert(old_un.take(n as int) =~= old_un);
            lemma_retained_properties(old_un, mv);
        }
        let any_new = newly.len() > 0;
        self.unresolved = keep;
        let ghost old_observed = self.observed_view();
        self.observed.append(&mut newly);
        proof {
            assert(self.observed_view() =~= old_observed + newly_observed(old_un, mv));
            lemma_newly_observed_properties(old_un, mv);
            assert forall|a: Seq<char>| #[trigger]
                self.observed_view().contains(a) <==> old_observed.contains(a) || (old_un.contains(
                    a,
                ) && mv.contains(a)) by {
                crate::text::lemma_concat_contains(old_observed, newly_observed(old_un, mv), a);
            }
            assert forall|a: Seq<char>| #[trigger]
                freq_keys(self.freq_view()).contains(a) <==> self.unresolved_view().contains(a)
                    || self.observed_view().contains(a) by {
                assert(freq_keys(old(self).freq_view()).contains(a) <==> old_un.contains(a)
                    || old_observed.contains(a));
            }
            assert forall|a: Seq<char>| #[trigger]
                self.observed_view().contains(a) implies !self.unresolved_view().contains(a) by {
                assert(old_observed == old(self).observed_view());
                assert(old(self).observed_view().contains(a) ==> !old(
                    self,
                ).unresolved_view().contains(a));
            }
            assert forall|a: Seq<char>| #[trigger]
                self.unresolved_view().contains(a) implies freq_keys(
                self.freq_view(),
            ).contains(a) by {
                assert(freq_keys(old(self).freq_view()).contains(a) <==> old_un.contains(a)
                    || old_observed.contains(a));
            }
        }
        if !any_new {
            proof {
                lemma_retained_all(old_un, mv);
            }
            return SieveOutcome::Nothing;
        }
        if contains_model(&self.collected, model) {
            return SieveOutcome::Duplicate;
        }
        let ghost old_freq = self.freq_view();
        proof {
            assert(old_freq == old(self).freq_view());
        }
        let fn_len = self.freq.len();
        let mut new_freq: Vec<(String, usize)> = Vec::new();
        let mut k: usize = 0;
        while k < fn_len
            invariant
                fn_len == self.freq@.len(),
                k <= fn_len,
                mv == seq_views(model@),
                old_freq == self.freq@.map_values(|p: (String, usize)| (p.0@, p.1)),
                forall|q: int|
                    0 <= q < old_freq.len() ==> (#[trigger] old_freq[q]).1 < usize::MAX,
                new_freq@.map_values(|p: (String, usize)| (p.0@, p.1)) == bumped(
                    old_freq.take(k as int),
                    mv,
                ),
            decreases fn_len - k,
        {
            let ghost prev = new_freq@.map_values(|p: (String, usize)| (p.0@, p.1));
            proof {
                assert(old_freq[k as int] == (self.freq@[k as int].0@, self.freq@[k as int].1));
                assert(old_freq[k as int].1 < usize::MAX);
            }
            let bump = contains_text(model, self.freq[k].0.as_str());
            let count = if bump {
                self.freq[k].1 + 1
            } else {
                self.freq[k].1
            };
            new_freq.push((self.freq[k].0.clone(), count));
            proof {
                assert(bumped(old_freq.take(k + 1), mv) =~= bumped(old_freq.take(k as int), mv)
                    + seq![bumped(old_freq, mv)[k as int]]);
                assert(new_freq@.map_values(|p: (String, usize)| (p.0@, p.1)) =~= bumped(
                    old_freq.take(k + 1),
                    mv,
                ));
            }
            k += 1;
        }
        proof {
            assert(old_freq.take(fn_len as int) =~= old_freq);
        }
        self.freq = new_freq;
        let ghost old_collected = self.collected_views();
        self.collected.push(clone_strings(model));
        proof {
            assert(self.collected_views() =~= old_collected.push(mv));
            lemma_push_no_duplicates(old_collected, mv);
            assert(freq_keys(self.freq_view()) =~= freq_keys(old_freq));
            assert forall|a: Seq<char>| #[trigger]
                freq_keys(self.freq_view()).contains(a) <==> self.unresolved_view().contains(a)
                    || self.observed_view().contains(a) by {
                assert(freq_keys(old_freq).contains(a) <==> old_un.contains(a)
                    || old_observed.contains(a));
            }
        }
        SieveOutcome::Collected
    }
}

/// A prefix of the frequency table accounts for at most the whole sum:
/// frequencies are never negative.
proof fn lemma_freq_sum_take_bound(f: Seq<(Seq<char>, usize)>, k: int)
    requires
        0 <= k <= f.len(),
    ensures
        freq_sum(f.take(k)) <= freq_sum(f),
    decreases f.len() - k,
{
    if k < f.len() {
        lemma_freq_sum_take_bound(f, k + 1);
        assert(f.take(k + 1).drop_last() =~= f.take(k));
        assert(f.take(k + 1).last() == f[k]);
    } else {
        assert(f.take(k) =~= f);
    }
}

/// No more atoms are covered than the table has entries.
proof fn lemma_covered_count_bound(f: Seq<(Seq<char>, usize)>)
    ensures
        0 <= covered_count(f) <= f.len(),
    decreases f.len(),
{
    if f.len() > 0 {
        lemma_covered_count_bound(f.drop_last());
    }
}

/// Appending a model not yet in the collection keeps the collection free of
/// duplicates.
proof fn lemma_push_no_duplicates(ms: Seq<Seq<Seq<char>>>, m: Seq<Seq<char>>)
    requires
        ms.no_duplicates(),
        !ms.contains(m),
    ensures
        ms.push(m).no_duplicates(),
{
    assert forall|i: int, j: int|
        0 <= i < j < ms.push(m).len() implies ms.push(m)[i] != ms.push(m)[j] by {
        if j < ms.len() {
        } else {
            assert(ms.push(m)[j] == m);
            assert(ms.push(m)[i] == ms[i]);
            assert(ms.contains(ms[i]));
        }
    }
}

/// Sieve coverage discipline, part one: the collection never holds two
/// identical models.
pub proof fn lemma_sieve_no_duplicate_models(s: &SieveState)
    requires
        s.wf(),
    ensures
        forall|i: int, j: int|
            0 <= i < j < s.collected_views().len() ==> s.collected_views()[i]
                != s.collected_views()[j],
{
    assert forall|i: int, j: int|
        0 <= i < j < s.collected_views().len() implies s.collected_views()[i]
        != s.collected_views()[j] by {
        assert(s.collected_views().no_duplicates());
    }
}

/// Sieve coverage discipline, part two: a run that ends with no unresolved
/// target has observed every target atom true in at least one model.
pub proof fn lemma_sieve_full_coverage(s: &SieveState)
    requires
        s.wf(),
        s.unresolved_view().len() == 0,
    ensures
        forall|a: Seq<char>|
            freq_keys(s.freq_view()).contains(a) ==> #[trigger] s.observed_view().contains(a),
{
}

} // verus!
