//! The consequence and facet engine: draining a brave or cautious
//! enumeration, and deriving facet-inducing atoms from the two consequence
//! sets.

use vstd::prelude::*;

use crate::session::EnumMode;
use crate::targets::{
    dedup, lemma_newly_observed_properties, lemma_retained_properties, newly_observed, retained,
    split_by_model,
};
use crate::text::{contains_text, lemma_concat_contains, lemma_push_contains, seq_views};

verus! {

/// The kind of a consequence query.
#[derive(Clone, Copy, Debug, PartialEq, Eq, Structural)]
pub enum ConsequenceKind {
    /// Atoms true in at least one answer set.
    Brave,
    /// Atoms true in every answer set.
    Cautious,
}

impl ConsequenceKind {
    /// The enumeration mode a query of this kind runs under.
    pub fn mode(&self) -> (r: EnumMode)
        ensures
            self is Brave ==> r is Brave,
            self is Cautious ==> r is Cautious,
    {
        match self {
            ConsequenceKind::Brave => EnumMode::Brave,
            ConsequenceKind::Cautious => EnumMode::Cautious,
        }
    }
}

/// Drains a consequence enumeration. Under brave or cautious mode the last
/// model yielded by the engine *is* the consequence set, so the drain keeps
/// only the most recent model's atoms and the query always resumes until the
/// stream is exhausted. An unsatisfiable route yields no model, leaving the
/// consequence set empty: that is a valid outcome, not an error.
pub struct ConsequenceDrain {
    last: Vec<String>,
    models: usize,
}

impl ConsequenceDrain {
    /// The atoms of the most recent model.
    pub closed spec fn last_view(&self) -> Seq<Seq<char>> {
        seq_views(self.last@)
    }

    /// How many models the stream has yielded so far.
    pub closed spec fn models_view(&self) -> usize {
        self.models
    }

    /// A drain that has seen no model: the consequence set starts empty.
    pub fn new() -> (r: ConsequenceDrain)
        ensures
            r.last_view() == Seq::<Seq<char>>::empty(),
            r.models_view() == 0,
    {
        ConsequenceDrain { last: Vec::new(), models: 0 }
    }

    /// Records one yielded model, replacing whatever was kept before: only
    /// the final model of the exhausted stream counts.
    pub fn on_model(&mut self, atoms: Vec<String>)
        requires
            old(self).models_view() < usize::MAX,
        ensures
            final(self).last_view() == seq_views(atoms@),
            final(self).models_view() == old(self).models_view() + 1,
    {
        self.last = atoms;
        self.models = self.models + 1;
    }

    /// The consequence set, once the stream is exhausted: the atoms of the
    /// last model, or nothing at all when the route was unsatisfiable.
    pub fn consequences(self) -> (r: Vec<String>)
        ensures
            seq_views(r@) == self.last_view(),
    {
        self.last
    }

    /// The cardinality of the consequence set, for the count-only variant:
    /// exactly the length of the set the full variant would return, at no
    /// loss of precision.
    pub fn cardinality(&self) -> (r: usize)
        ensures
            r == self.last_view().len(),
    {
        self.last.len()
    }
}

/// The facet-inducing atoms under a route: its brave consequences that are
/// not cautious consequences. When nothing is brave the route is
/// unsatisfiable, and nothing can be a facet.
///
/// The result lists each facet exactly once, in the order brave first
/// mentions it.
pub fn facet_inducing_atoms(brave: &Vec<String>, cautious: &Vec<String>) -> (r: Vec<String>)
    ensures
        seq_views(r@).no_duplicates(),
        forall|a: Seq<char>|
            #[trigger] seq_views(r@).contains(a) <==> seq_views(brave@).contains(a) && !seq_views(
                cautious@,
            ).contains(a),
{
    let n = brave.len();
    let mut out: Vec<String> = Vec::new();
    let mut i: usize = 0;
    while i < n
        invariant
            n == brave@.len(),
            i <= n,
            seq_views(out@).no_duplicates(),
            forall|a: Seq<char>|
                #[trigger] seq_views(out@).contains(a) <==> seq_views(brave@).take(
                    i as int,
                ).contains(a) && !seq_views(cautious@).contains(a),
        decreases n - i,
    {
        let ghost bviews = seq_views(brave@);
        let ghost prev = seq_views(out@);
        proof {
            assert(bviews.take(i + 1) =~= bviews.take(i as int).push(bviews[i as int]));
        }
        if !contains_text(cautious, brave[i].as_str()) && !contains_text(&out, brave[i].as_str()) {
            out.push(brave[i].clone());
            proof {
                assert(seq_views(out@) =~= prev.push(brave@[i as int]@));
                assert forall|a: Seq<char>| #[trigger]
                    seq_views(out@).contains(a) <==> (bviews.take(i + 1).contains(a) && !seq_views(
                        cautious@,
                    ).contains(a)) by {
                    lemma_push_contains(prev, brave@[i as int]@, a);
                    lemma_push_contains(bviews.take(i as int), bviews[i as int], a);
                }
            }
        } else {
            proof {
                assert forall|a: Seq<char>| #[trigger]
                    seq_views(out@).contains(a) <==> (bviews.take(i + 1).contains(a) && !seq_views(
                        cautious@,
                    ).contains(a)) by {
                    lemma_push_contains(bviews.take(i as int), bviews[i as int], a);
                }
            }
        }
        i += 1;
    }
    proof {
        assert(seq_views(brave@).take(n as int) =~= seq_views(brave@));
    }
    out
}

/// The brave phase of the incremental facet computation: one target atom is
/// tested at a time by appending it positively to the route and searching for
/// one satisfying model; every still-unresolved target the model shows true
/// is marked brave in a single opportunistic batch, and a target whose search
/// is unsatisfiable can never be true under the route and is dropped without
/// being recorded.
///
/// The caller runs the phase under the temporary constraint forbidding all
/// targets to be false at once, and removes it when nothing is unresolved.
pub struct BravePhase {
    unresolved: Vec<String>,
    brave: Vec<String>,
}

impl BravePhase {
    /// The targets not yet decided, in order.
    pub closed spec fn unresolved_view(&self) -> Seq<Seq<char>> {
        seq_views(self.unresolved@)
    }

    /// The targets shown true in some model so far, in resolution order.
    pub closed spec fn brave_view(&self) -> Seq<Seq<char>> {
        seq_views(self.brave@)
    }

    /// No target is listed twice, and no target is both still unresolved and
    /// already brave.
    pub open spec fn wf(&self) -> bool {
        &&& self.unresolved_view().no_duplicates()
        &&& self.brave_view().no_duplicates()
        &&& forall|a: Seq<char>|
            #[trigger] self.brave_view().contains(a) ==> !self.unresolved_view().contains(a)
    }

    /// Starts the phase: every distinct target is unresolved, nothing is
    /// brave yet.
    pub fn new(targets: &Vec<String>) -> (r: BravePhase)
        ensures
            r.wf(),
            r.unresolved_view() == dedup(seq_views(targets@)),
            r.brave_view() == Seq::<Seq<char>>::empty(),
    {
        BravePhase { unresolved: crate::targets::dedup_texts(targets), brave: Vec::new() }
    }

    /// Whether every target has been decided.
    pub fn done(&self) -> (r: bool)
        ensures
            r == (self.unresolved_view().len() == 0),
    {
        self.unresolved.len() == 0
    }

    /// The next target to test, or nothing when the phase is complete.
    pub fn pick(&self) -> (r: Option<String>)
        ensures
            match r {
                Some(a) => self.unresolved_view().len() > 0 && a@ == self.unresolved_view()[0],
                None => self.unresolved_view().len() == 0,
            },
    {
        if self.unresolved.len() == 0 {
            None
        } else {
            Some(self.unresolved[0].clone())
        }
    }

    /// Feeds the one model found for a tested target: every unresolved
    /// target the model contains is resolved and recorded as brave, in one
    /// batch, so each model decides as much as it can.
    pub fn on_model(&mut self, model: &Vec<String>)
        requires
            old(self).wf(),
        ensures
            final(self).wf(),
            final(self).unresolved_view() == retained(
                old(self).unresolved_view(),
                seq_views(model@),
            ),
            final(self).brave_view() == old(self).brave_view() + newly_observed(
                old(self).unresolved_view(),
                seq_views(model@),
            ),
            final(self).unresolved_view().len() + newly_observed(
                old(self).unresolved_view(),
                seq_views(model@),
            ).len() == old(self).unresolved_view().len(),
    {
        let ghost old_un = self.unresolved_view();
        let ghost old_brave = self.brave_view();
        let ghost mv = seq_views(model@);
        let (keep, mut newly) = split_by_model(&self.unresolved, model);
        self.unresolved = keep;
        self.brave.append(&mut newly);
        proof {
            assert(self.brave_view() =~= old_brave + newly_observed(old_un, mv));
            lemma_retained_properties(old_un, mv);
            lemma_newly_observed_properties(old_un, mv);
            assert forall|a: Seq<char>| #[trigger]
                self.brave_view().contains(a) implies !self.unresolved_view().contains(a) by {
                lemma_concat_contains(old_brave, newly_observed(old_un, mv), a);
                assert(old(self).brave_view().contains(a) ==> !old(
                    self,
                ).unresolved_view().contains(a));
            }
            assert forall|i: int, j: int|
                0 <= i < j < self.brave_view().len() implies self.brave_view()[i]
                != self.brave_view()[j] by {
                lemma_concat_contains(old_brave, newly_observed(old_un, mv), self.brave_view()[i]);
                if i < old_brave.len() && j >= old_brave.len() {
                    assert(old_brave.contains(self.brave_view()[i]));
                    assert(newly_observed(old_un, mv).contains(self.brave_view()[j]));
                }
            }
        }
    }

    /// Records that the search for `target` was unsatisfiable: the target
    /// can never be true under the route and is dropped without being
    /// recorded as brave.
    pub fn on_unsat(&mut self, target: &str)
        requires
            old(self).wf(),
        ensures
            final(self).wf(),
            final(self).unresolved_view() == retained(
                old(self).unresolved_view(),
                seq![target@],
            ),
            final(self).brave_view() == old(self).brave_view(),
            old(self).unresolved_view().contains(target@) ==> final(self).unresolved_view().len()
                < old(self).unresolved_view().len(),
    {
        let ghost old_un = self.unresolved_view();
        let mut single: Vec<String> = Vec::new();
        single.push(target.to_owned());
        proof {
            assert(seq_views(single@) =~= seq![target@]);
        }
        let (keep, _) = split_by_model(&self.unresolved, &single);
        self.unresolved = keep;
        proof {
            lemma_retained_properties(old_un, seq![target@]);
            lemma_newly_observed_properties(old_un, seq![target@]);
            if old_un.contains(target@) {
                assert(seq![target@].contains(target@)) by {
                    assert(seq![target@][0] == target@);
                }
                assert(newly_observed(old_un, seq![target@]).contains(target@));
            }
        }
    }

    /// The brave targets, once the phase is complete: the input of the
    /// cautious phase.
    pub fn brave_atoms(self) -> (r: Vec<String>)
        ensures
            seq_views(r@) == self.brave_view(),
    {
        self.brave
    }
}

/// The cautious phase of the incremental facet computation, mirroring the
/// brave phase over the brave set just computed: each tested target's
/// negation is appended to the route; every still-unresolved target missing
/// from a found model is not cautious — hence a facet — and resolved, while
/// targets the model still shows true stay candidates; an unsatisfiable
/// search means the target is always true (cautious, not a facet) and it is
/// resolved without being recorded.
///
/// The caller runs the phase under the opposite temporary constraint,
/// forbidding all targets to be true at once.
pub struct CautiousPhase {
    unresolved: Vec<String>,
    facets: Vec<String>,
}

impl CautiousPhase {
    /// The brave targets not yet decided, in order.
    pub closed spec fn unresolved_view(&self) -> Seq<Seq<char>> {
        seq_views(self.unresolved@)
    }

    /// The facet-inducing targets found so far, in resolution order.
    pub closed spec fn facets_view(&self) -> Seq<Seq<char>> {
        seq_views(self.facets@)
    }

    /// No target is listed twice, and no target is both still unresolved and
    /// already a facet.
    pub open spec fn wf(&self) -> bool {
        &&& self.unresolved_view().no_duplicates()
        &&& self.facets_view().no_duplicates()
        &&& forall|a: Seq<char>|
            #[trigger] self.facets_view().contains(a) ==> !self.unresolved_view().contains(a)
    }

    /// Starts the phase over the brave set: every distinct brave target is a
    /// cautious candidate, nothing is a facet yet.
    pub fn new(brave: &Vec<String>) -> (r: CautiousPhase)
        ensures
            r.wf(),
            r.unresolved_view() == dedup(seq_views(brave@)),
            r.facets_view() == Seq::<Seq<char>>::empty(),
    {
        CautiousPhase { unresolved: crate::targets::dedup_texts(brave), facets: Vec::new() }
    }

    /// Whether every brave target has been decided.
    pub fn done(&self) -> (r: bool)
        ensures
            r == (self.unresolved_view().len() == 0),
    {
        self.unresolved.len() == 0
    }

    /// The next target whose negation to test, or nothing when the phase is
    /// complete.
    pub fn pick(&self) -> (r: Option<String>)
        ensures
            match r {
                Some(a) => self.unresolved_view().len() > 0 && a@ == self.unresolved_view()[0],
                None => self.unresolved_view().len() == 0,
            },
    {
        if self.unresolved.len() == 0 {
            None
        } else {
            Some(self.unresolved[0].clone())
        }
    }

    /// Feeds the one model found under a tested target's negation: every
    /// unresolved target missing from the model is not cautious, hence a
    /// facet, and resolved; targets the model contains stay candidates.
    pub fn on_model(&mut self, model: &Vec<String>)
        requires
            old(self).wf(),
        ensures
            final(self).wf(),
            final(self).unresolved_view() == newly_observed(
                old(self).unresolved_view(),
                seq_views(model@),
            ),
            final(self).facets_view() == old(self).facets_view() + retained(
                old(self).unresolved_view(),
                seq_views(model@),
            ),
            final(self).unresolved_view().len() + retained(
                old(self).unresolved_view(),
                seq_views(model@),
            ).len() == old(self).unresolved_view().len(),
    {
        let ghost old_un = self.unresolved_view();
        let ghost old_facets = self.facets_view();
        let ghost mv = seq_views(model@);
        let (mut missing, still_true) = split_by_model(&self.unresolved, model);
        self.unresolved = still_true;
        self.facets.append(&mut missing);
        proof {
            assert(self.facets_view() =~= old_facets + retained(old_un, mv));
            lemma_retained_properties(old_un, mv);
            lemma_newly_observed_properties(old_un, mv);
            assert forall|a: Seq<char>| #[trigger]
                self.facets_view().contains(a) implies !self.unresolved_view().contains(a) by {
                lemma_concat_contains(old_facets, retained(old_un, mv), a);
                assert(old(self).facets_view().contains(a) ==> !old(
                    self,
                ).unresolved_view().contains(a));
            }
            assert forall|i: int, j: int|
                0 <= i < j < self.facets_view().len() implies self.facets_view()[i]
                != self.facets_view()[j] by {
                lemma_concat_contains(old_facets, retained(old_un, mv), self.facets_view()[i]);
                if i < old_facets.len() && j >= old_facets.len() {
                    assert(old_facets.contains(self.facets_view()[i]));
                    assert(retained(old_un, mv).contains(self.facets_view()[j]));
                }
            }
        }
    }

    /// Records that the search under `target`'s negation was unsatisfiable:
    /// the target is true in every answer set, so it is cautious, not a
    /// facet, and is resolved without being recorded.
    pub fn on_unsat(&mut self, target: &str)
        requires
            old(self).wf(),
        ensures
            final(self).wf(),
            final(self).unresolved_view() == retained(
                old(self).unresolved_view(),
                seq![target@],
            ),
            final(self).facets_view() == old(self).facets_view(),
            old(self).unresolved_view().contains(target@) ==> final(self).unresolved_view().len()
                < old(self).unresolved_view().len(),
    {
        let ghost old_un = self.unresolved_view();
        let mut single: Vec<String> = Vec::new();
        single.push(target.to_owned());
        proof {
            assert(seq_views(single@) =~= seq![target@]);
        }
        let (keep, _) = split_by_model(&self.unresolved, &single);
        self.unresolved = keep;
        proof {
            lemma_retained_properties(old_un, seq![target@]);
            lemma_newly_observed_properties(old_un, seq![target@]);
            if old_un.contains(target@) {
                assert(seq![target@].contains(target@)) by {
                    assert(seq![target@][0] == target@);
                }
                assert(newly_observed(old_un, seq![target@]).contains(target@));
            }
        }
    }

    /// The facet-inducing atoms, once the phase is complete.
    pub fn facet_atoms(self) -> (r: Vec<String>)
        ensures
            seq_views(r@) == self.facets_view(),
    {
        self.facets
    }
}

/// What a route teaches about each queried atom: a line with the atom itself
/// when it is a cautious consequence, a line with the atom behind a negation
/// marker when it is not even a brave consequence, and no line when the atom
/// is still open (brave but not cautious).
pub open spec fn learned_lines_spec(
    queried: Seq<Seq<char>>,
    brave: Seq<Seq<char>>,
    cautious: Seq<Seq<char>>,
) -> Seq<Seq<char>>
    decreases queried.len(),
{
    if queried.len() == 0 {
        Seq::empty()
    } else {
        let head = learned_lines_spec(queried.drop_last(), brave, cautious);
        let q = queried.last();
        if cautious.contains(q) {
            head.push(q)
        } else if !brave.contains(q) {
            head.push(seq!['~'] + q)
        } else {
            head
        }
    }
}

/// The report lines of a learned-that query over `queried` atoms, given the
/// brave and cautious consequence sets of the route.
pub fn learned_lines(queried: &Vec<String>, brave: &Vec<String>, cautious: &Vec<String>) -> (r: Vec<
    String,
>)
    ensures
        seq_views(r@) == learned_lines_spec(
            seq_views(queried@),
            seq_views(brave@),
            seq_views(cautious@),
        ),
{
    let n = queried.len();
    let mut out: Vec<String> = Vec::new();
    let mut i: usize = 0;
    while i < n
        invariant
            n == queried@.len(),
            i <= n,
            seq_views(out@) == learned_lines_spec(
                seq_views(queried@).take(i as int),
                seq_views(brave@),
                seq_views(cautious@),
            ),
        decreases n - i,
    {
        let ghost qviews = seq_views(queried@);
        let ghost prev = seq_views(out@);
        proof {
            assert(qviews.take(i + 1).drop_last() =~= qviews.take(i as int));
            assert(qviews.take(i + 1).last() == qviews[i as int]);
        }
        if contains_text(cautious, queried[i].as_str()) {
            out.push(queried[i].clone());
            proof {
                assert(seq_views(out@) =~= prev.push(queried@[i as int]@));
            }
        } else if !contains_text(brave, queried[i].as_str()) {
            let mut line = "~".to_owned();
            line.append(queried[i].as_str());
            proof {
                reveal_strlit("~");
                assert("~"@ =~= seq!['~']);
            }
            out.push(line);
            proof {
                assert(seq_views(out@) =~= prev.push(seq!['~'] + queried@[i as int]@));
            }
        }
        i += 1;
    }
    proof {
        assert(seq_views(queried@).take(n as int) =~= seq_views(queried@));
    }
    out
}

} // verus!
