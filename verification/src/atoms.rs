//! The Herbrand atom map: every ground atom of the current program, with its
//! predicate name, arity, and positive engine literal handle.

use vstd::prelude::*;

use crate::errors::NavigatorError;
use crate::text::str_eq;

verus! {

/// One ground atom of the current program: its canonical text, its predicate
/// name and arity, and the engine-native literal handle it resolves to.
pub struct AtomEntry {
    /// Canonical textual form of the ground atom.
    pub text: String,
    /// Predicate name of the atom.
    pub name: String,
    /// Number of arguments of the atom.
    pub arity: usize,
    /// Positive engine literal handle standing for the atom.
    pub lit: i32,
}

/// Atom texts are pairwise distinct and all literal handles are positive:
/// what a consistent grounding yields.
pub open spec fn entries_wf(entries: Seq<AtomEntry>) -> bool {
    &&& forall|i: int, j: int| 0 <= i < j < entries.len() ==> entries[i].text@ != entries[j].text@
    &&& forall|i: int| 0 <= i < entries.len() ==> #[trigger] entries[i].lit > 0
}

/// Mapping from ground atoms to engine literal handles, rebuilt from scratch
/// whenever the program is (re-)grounded.
///
/// Invariant: every atom has exactly one entry, and every handle is positive,
/// so that arithmetic negation of a handle always denotes the atom's
/// complement.
pub struct AtomMap {
    entries: Vec<AtomEntry>,
}

impl AtomMap {
    /// The entries, in map order.
    pub closed spec fn view(&self) -> Seq<AtomEntry> {
        self.entries@
    }

    /// The atom texts, in map order.
    pub open spec fn texts(&self) -> Seq<Seq<char>> {
        self@.map_values(|e: AtomEntry| e.text@)
    }

    /// Each atom has exactly one entry and each literal handle is positive.
    pub open spec fn wf(&self) -> bool {
        entries_wf(self@)
    }

    /// Whether `atom` is in the Herbrand base of the current program.
    pub open spec fn contains_atom(&self, atom: Seq<char>) -> bool {
        exists|i: int| 0 <= i < self@.len() && #[trigger] self@[i].text@ == atom
    }

    /// The position of `atom`'s entry; meaningful only when the map contains
    /// `atom`.
    pub open spec fn index_of(&self, atom: Seq<char>) -> int {
        choose|i: int| 0 <= i < self@.len() && #[trigger] self@[i].text@ == atom
    }

    /// The literal handle of `atom`; meaningful only when the map contains
    /// `atom`.
    pub open spec fn lit_of(&self, atom: Seq<char>) -> i32 {
        self@[self.index_of(atom)].lit
    }

    /// The engine literal a route element resolves to: a leading `~` marks a
    /// negated commitment and flips the sign of the atom's handle; an element
    /// whose atom is outside the map resolves to nothing.
    pub open spec fn resolved(&self, expr: Seq<char>) -> Option<i32> {
        if expr.len() > 0 && expr[0] == '~' {
            let atom = expr.subrange(1, expr.len() as int);
            if self.contains_atom(atom) {
                Some((-self.lit_of(atom)) as i32)
            } else {
                None
            }
        } else {
            if self.contains_atom(expr) {
                Some(self.lit_of(expr))
            } else {
                None
            }
        }
    }

    /// Builds the map from the entries of a freshly grounded program.
    ///
    /// Rejects a duplicate atom text or a non-positive literal handle: such
    /// input could not have come from a consistent grounding.
    pub fn new(entries: Vec<AtomEntry>) -> (r: Result<AtomMap, NavigatorError>)
        ensures
            match r {
                Ok(m) => m@ == entries@ && m.wf(),
                Err(e) => {
                    &&& e is InvalidInput
                    &&& !entries_wf(entries@)
                },
            },
    {
        let n = entries.len();
        let mut i: usize = 0;
        while i < n
            invariant
                n == entries@.len(),
                i <= n,
                forall|p: int, q: int| 0 <= p < q < i ==> entries@[p].text@ != entries@[q].text@,
                forall|p: int| 0 <= p < i ==> #[trigger] entries@[p].lit > 0,
            decreases n - i,
        {
            if entries[i].lit <= 0 {
                return Err(NavigatorError::InvalidInput(String::new()));
            }
            let mut j: usize = 0;
            while j < i
                invariant
                    n == entries@.len(),
                    j <= i < n,
                    forall|p: int| 0 <= p < j ==> entries@[p].text@ != entries@[i as int].text@,
                decreases i - j,
            {
                if str_eq(entries[j].text.as_str(), entries[i].text.as_str()) {
                    return Err(NavigatorError::InvalidInput(String::new()));
                }
                j += 1;
            }
            i += 1;
        }
        Ok(AtomMap { entries })
    }

    /// Number of atoms in the map.
    pub fn len(&self) -> (r: usize)
        ensures
            r == self@.len(),
    {
        self.entries.len()
    }

    /// The literal handle of `atom`, or nothing when `atom` is outside the
    /// current ground program. Never a stale handle: the map is rebuilt on
    /// every re-grounding.
    pub fn get(&self, atom: &str) -> (r: Option<i32>)
        requires
            self.wf(),
        ensures
            match r {
                Some(l) => self.contains_atom(atom@) && l == self.lit_of(atom@) && l > 0,
                None => !self.contains_atom(atom@),
            },
    {
        let n = self.entries.len();
        let mut i: usize = 0;
        while i < n
            invariant
                self.wf(),
                n == self@.len(),
                i <= n,
                forall|p: int| 0 <= p < i ==> self@[p].text@ != atom@,
            decreases n - i,
        {
            if str_eq(self.entries[i].text.as_str(), atom) {
                proof {
                    let k = self.index_of(atom@);
                    assert(0 <= k < self@.len() && self@[k].text@ == atom@);
                    assert(k == i);
                }
                return Some(self.entries[i].lit);
            }
            i += 1;
        }
        None
    }

    /// The atom texts of the ground program, in map order.
    pub fn atoms(&self) -> (r: Vec<String>)
        ensures
            r@.len() == self@.len(),
            forall|i: int| 0 <= i < r@.len() ==> #[trigger] r@[i]@ == self@[i].text@,
    {
        let n = self.entries.len();
        let mut out: Vec<String> = Vec::new();
        let mut i: usize = 0;
        while i < n
            invariant
                n == self@.len(),
                i <= n,
                out@.len() == i,
                forall|p: int| 0 <= p < i ==> #[trigger] out@[p]@ == self@[p].text@,
            decreases n - i,
        {
            out.push(self.entries[i].text.clone());
            i += 1;
        }
        out
    }

    /// The predicate symbols of the ground program as (name, arity) pairs, in
    /// map order.
    pub fn symbols(&self) -> (r: Vec<(String, usize)>)
        ensures
            r@.len() == self@.len(),
            forall|i: int|
                0 <= i < r@.len() ==> #[trigger] r@[i].0@ == self@[i].name@ && r@[i].1
                    == self@[i].arity,
    {
        let n = self.entries.len();
        let mut out: Vec<(String, usize)> = Vec::new();
        let mut i: usize = 0;
        while i < n
            invariant
                n == self@.len(),
                i <= n,
                out@.len() == i,
                forall|p: int|
                    0 <= p < i ==> #[trigger] out@[p].0@ == self@[p].name@ && out@[p].1
                        == self@[p].arity,
            decreases n - i,
        {
            out.push((self.entries[i].name.clone(), self.entries[i].arity));
            i += 1;
        }
        out
    }
}

} // verus!
