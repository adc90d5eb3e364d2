//! Enumeration accounting: counting yielded models, deciding when an upper
//! bound stops the stream, and projecting model atoms onto an allow-list.

use vstd::prelude::*;

use crate::text::{contains_text, seq_views};

verus! {

/// Accounting for one model-enumeration query: how many models the stream
/// has yielded, and the optional upper bound after which the caller must
/// stop resuming. Cancellation is exactly that: the stream is simply not
/// resumed once the bound is reached.
pub struct Enumeration {
    count: usize,
    bound: Option<usize>,
}

impl Enumeration {
    /// Number of models counted so far.
    pub closed spec fn count_view(&self) -> usize {
        self.count
    }

    /// The upper bound the enumeration was started with, if any.
    pub closed spec fn bound_view(&self) -> Option<usize> {
        self.bound
    }

    /// Starts counting an enumeration; with no bound the stream is drained
    /// to exhaustion.
    pub fn new(bound: Option<usize>) -> (r: Enumeration)
        ensures
            r.count_view() == 0,
            r.bound_view() == bound,
    {
        Enumeration { count: 0, bound }
    }

    /// Counts one yielded model and decides whether enumeration stops here:
    /// it does exactly when the new count reaches the bound.
    pub fn on_model(&mut self) -> (stop: bool)
        requires
            old(self).count_view() < usize::MAX,
        ensures
            final(self).count_view() == old(self).count_view() + 1,
            final(self).bound_view() == old(self).bound_view(),
            stop == (final(self).bound_view() == Some(final(self).count_view())),
    {
        self.count = self.count + 1;
        match self.bound {
            Some(n) => self.count == n,
            None => false,
        }
    }

    /// The number of models the enumeration yielded.
    pub fn total(&self) -> (r: usize)
        ensures
            r == self.count_view(),
    {
        self.count
    }
}

/// `atoms` restricted to the atoms of the allow-list, in order.
pub open spec fn projected(atoms: Seq<Seq<char>>, allow: Seq<Seq<char>>) -> Seq<Seq<char>>
    decreases atoms.len(),
{
    if atoms.len() == 0 {
        Seq::empty()
    } else {
        let head = projected(atoms.drop_last(), allow);
        if allow.contains(atoms.last()) {
            head.push(atoms.last())
        } else {
            head
        }
    }
}

/// Restricts a model's atoms to those named by the projection allow-list,
/// keeping their order.
pub fn project_atoms(atoms: &Vec<String>, allow: &Vec<String>) -> (r: Vec<String>)
    ensures
        seq_views(r@) == projected(seq_views(atoms@), seq_views(allow@)),
{
    let n = atoms.len();
    let mut out: Vec<String> = Vec::new();
    let mut i: usize = 0;
    while i < n
        invariant
            n == atoms@.len(),
            i <= n,
            seq_views(out@) == projected(seq_views(atoms@).take(i as int), seq_views(allow@)),
        decreases n - i,
    {
        let ghost aviews = seq_views(atoms@);
        let ghost prev = seq_views(out@);
        proof {
            assert(aviews.take(i + 1).drop_last() =~= aviews.take(i as int));
            assert(aviews.take(i + 1).last() == aviews[i as int]);
        }
        if contains_text(allow, atoms[i].as_str()) {
            out.push(atoms[i].clone());
            proof {
                assert(seq_views(out@) =~= prev.push(atoms@[i as int]@));
            }
        }
        i += 1;
    }
    proof {
        assert(seq_views(atoms@).take(n as int) =~= seq_views(atoms@));
    }
    out
}

} // verus!
