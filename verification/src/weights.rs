//! The weighting engine: a closed enumeration of scoring functions used to
//! rank candidate continuations of a route.

use vstd::prelude::*;

use vstd::seq_lib::group_seq_properties;
use vstd::set_lib::lemma_len_subset;

verus! {

/// The facet-counting score from the cardinalities of the two consequence
/// queries: twice the number of facet-inducing atoms, each facet atom
/// contributing its two possible extensions. A route with no brave
/// consequence scores zero, and a failed engine query yields no score.
pub open spec fn facet_counting_score(brave: Option<usize>, cautious: Option<usize>) -> Option<
    usize,
> {
    match brave {
        Option::None => Option::<usize>::None,
        Option::Some(b) => if b == 0 {
            Option::Some(0usize)
        } else {
            match cautious {
                Option::None => Option::<usize>::None,
                Option::Some(c) => Option::Some((2 * (b - c)) as usize),
            }
        },
    }
}

/// The weight of a facet: a scoring function for routes.
#[derive(Debug, Clone)]
pub enum Weight {
    /// Score a route by the number of answer sets satisfying it.
    AnswerSetCounting,
    /// Score a route by twice its number of facet-inducing atoms.
    FacetCounting,
}

impl Weight {
    /// Combines the engine-reported quantities for a route into its score:
    /// the brave and cautious consequence cardinalities feed facet counting,
    /// the fully drained model count feeds answer-set counting. A `None`
    /// input stands for a failed engine query and makes the score `None`.
    pub fn count(
        &self,
        brave: Option<usize>,
        cautious: Option<usize>,
        models: Option<usize>,
    ) -> (r: Option<usize>)
        requires
            self is FacetCounting ==> match (brave, cautious) {
                (Some(b), Some(c)) => b == 0 || (c <= b && 2 * ((b - c) as int) <= usize::MAX
                    as int),
                _ => true,
            },
        ensures
            self is AnswerSetCounting ==> r == models,
            self is FacetCounting ==> r == facet_counting_score(brave, cautious),
    {
        match self {
            Weight::FacetCounting => {
                match brave {
                    Option::None => Option::None,
                    Option::Some(b) => if b == 0 {
                        Option::Some(0)
                    } else {
                        match cautious {
                            Option::None => Option::None,
                            Option::Some(c) => Option::Some(2 * (b - c)),
                        }
                    },
                }
            },
            Weight::AnswerSetCounting => models,
        }
    }
}

/// A subset of a finite set accounts exactly for its size in the difference:
/// removing a subset removes exactly its elements.
proof fn lemma_len_difference_subset<A>(b: Set<A>, c: Set<A>)
    requires
        b.finite(),
        c.subset_of(b),
    ensures
        b.difference(c).len() == b.len() - c.len(),
    decreases b.len(),
{
    lemma_len_subset(c, b);
    if c.len() == 0 {
        assert(c =~= Set::empty());
        assert(b.difference(c) =~= b);
    } else {
        let a = c.choose();
        assert(c.contains(a));
        assert(b.difference(c) =~= b.remove(a).difference(c.remove(a)));
        assert(c.remove(a).subset_of(b.remove(a)));
        lemma_len_difference_subset(b.remove(a), c.remove(a));
    }
}

/// Weighting agreement: whenever the cautious consequences of a route are
/// among its brave consequences — as they always are, every atom true in all
/// answer sets being true in at least one — the facet-counting score computed
/// from the two cardinalities equals twice the number of facet-inducing
/// atoms, the atoms brave but not cautious.
pub proof fn lemma_facet_counting_agreement(
    brave: Seq<Seq<char>>,
    cautious: Seq<Seq<char>>,
    facets: Seq<Seq<char>>,
)
    requires
        brave.no_duplicates(),
        cautious.no_duplicates(),
        facets.no_duplicates(),
        forall|a: Seq<char>| cautious.contains(a) ==> brave.contains(a),
        forall|a: Seq<char>|
            #[trigger] facets.contains(a) <==> brave.contains(a) && !cautious.contains(a),
        brave.len() <= usize::MAX,
        2 * brave.len() <= usize::MAX,
    ensures
        cautious.len() <= brave.len(),
        facets.len() == brave.len() - cautious.len(),
        facet_counting_score(Some(brave.len() as usize), Some(cautious.len() as usize)) == Some(
            (2 * facets.len()) as usize,
        ),
{
    broadcast use group_seq_properties;

    brave.unique_seq_to_set();
    cautious.unique_seq_to_set();
    facets.unique_seq_to_set();
    assert(cautious.to_set().subset_of(brave.to_set()));
    lemma_len_subset(cautious.to_set(), brave.to_set());
    assert(facets.to_set() =~= brave.to_set().difference(cautious.to_set()));
    lemma_len_difference_subset(brave.to_set(), cautious.to_set());
}

} // verus!
