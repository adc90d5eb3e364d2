//! Verified text utilities: substring search and first-occurrence removal —
//! the primitives behind rule removal from a program source — and text-level
//! membership and distinctness over lists of strings.

use vstd::prelude::*;

verus! {

/// `t` occurs as a contiguous run of characters of `s` starting at `i`.
pub open spec fn occurs_at(s: Seq<char>, t: Seq<char>, i: int) -> bool {
    0 <= i && i + t.len() <= s.len() && s.subrange(i, i + t.len() as int) == t
}

/// `t` occurs somewhere in `s`.
pub open spec fn occurs(s: Seq<char>, t: Seq<char>) -> bool {
    exists|i: int| occurs_at(s, t, i)
}

/// `i` is the earliest position at which `t` occurs in `s`.
pub open spec fn first_occurrence_at(s: Seq<char>, t: Seq<char>, i: int) -> bool {
    occurs_at(s, t, i) && (forall|j: int| 0 <= j < i ==> !occurs_at(s, t, j))
}

/// The earliest position at which `t` occurs in `s`; meaningful only when
/// `occurs(s, t)` holds.
pub open spec fn first_occurrence(s: Seq<char>, t: Seq<char>) -> int {
    choose|i: int| first_occurrence_at(s, t, i)
}

/// `s` with its first occurrence of `t` removed; `s` itself when `t` does not
/// occur in `s`.
pub open spec fn without_first(s: Seq<char>, t: Seq<char>) -> Seq<char> {
    if occurs(s, t) {
        let i = first_occurrence(s, t);
        s.subrange(0, i) + s.subrange(i + t.len() as int, s.len() as int)
    } else {
        s
    }
}

/// When `t` occurs at some position, it occurs at an earliest one.
pub proof fn lemma_first_occurrence_exists(s: Seq<char>, t: Seq<char>, i: int)
    requires
        occurs_at(s, t, i),
    ensures
        exists|k: int| first_occurrence_at(s, t, k),
    decreases i,
{
    if forall|j: int| 0 <= j < i ==> !occurs_at(s, t, j) {
        assert(first_occurrence_at(s, t, i));
    } else {
        let j = choose|j: int| 0 <= j < i && occurs_at(s, t, j);
        lemma_first_occurrence_exists(s, t, j);
    }
}

/// The earliest occurrence position is unique.
pub proof fn lemma_first_occurrence_unique(s: Seq<char>, t: Seq<char>, a: int, b: int)
    requires
        first_occurrence_at(s, t, a),
        first_occurrence_at(s, t, b),
    ensures
        a == b,
{
}

/// Whether `t`'s characters match those of `s` starting at position `i`.
fn match_at(s: &str, t: &str, i: usize, sn: usize, tn: usize) -> (r: bool)
    requires
        sn == s@.len(),
        tn == t@.len(),
        i + tn <= sn,
    ensures
        r == occurs_at(s@, t@, i as int),
{
    let mut k: usize = 0;
    while k < tn
        invariant
            sn == s@.len(),
            tn == t@.len(),
            i + tn <= sn,
            k <= tn,
            forall|m: int| 0 <= m < k ==> s@[i + m] == t@[m],
        decreases tn - k,
    {
        if s.get_char(i + k) != t.get_char(k) {
            assert(!occurs_at(s@, t@, i as int)) by {
                assert(s@.subrange(i as int, i + tn) != t@) by {
                    assert(s@.subrange(i as int, i + tn)[k as int] == s@[i + k]);
                }
            }
            return false;
        }
        k += 1;
    }
    assert(s@.subrange(i as int, i + tn) =~= t@);
    true
}

/// The earliest character position at which `t` occurs in `s`, if any.
pub fn find_first(s: &str, t: &str) -> (r: Option<usize>)
    ensures
        match r {
            Some(i) => first_occurrence_at(s@, t@, i as int),
            None => !occurs(s@, t@),
        },
{
    let sn = s.unicode_len();
    let tn = t.unicode_len();
    if tn > sn {
        assert(forall|i: int| !occurs_at(s@, t@, i));
        return None;
    }
    if tn == 0 {
        assert(s@.subrange(0, 0) =~= t@);
        return Some(0);
    }
    let mut i: usize = 0;
    loop
        invariant
            sn == s@.len(),
            tn == t@.len(),
            1 <= tn <= sn,
            i <= sn - tn + 1,
            forall|j: int| 0 <= j < i ==> !occurs_at(s@, t@, j),
        decreases sn - tn + 1 - i,
    {
        if i > sn - tn {
            assert(forall|j: int| occurs_at(s@, t@, j) ==> 0 <= j <= sn - tn);
            return None;
        }
        if match_at(s, t, i, sn, tn) {
            return Some(i);
        }
        i += 1;
    }
}

/// `s` with its first occurrence of `t` removed; `s` unchanged when `t` does
/// not occur.
pub fn remove_first(s: &str, t: &str) -> (r: String)
    ensures
        r@ == without_first(s@, t@),
{
    let sn = s.unicode_len();
    let tn = t.unicode_len();
    match find_first(s, t) {
        Some(i) => {
            proof {
                lemma_first_occurrence_exists(s@, t@, i as int);
                let k = first_occurrence(s@, t@);
                assert(first_occurrence_at(s@, t@, k));
                lemma_first_occurrence_unique(s@, t@, i as int, k);
            }
            let head = s.substring_char(0, i);
            let tail = s.substring_char(i + tn, sn);
            let mut out = head.to_owned();
            out.append(tail);
            out
        },
        None => s.to_owned(),
    }
}

/// The character sequences of a list of strings, in order.
pub open spec fn seq_views(v: Seq<String>) -> Seq<Seq<char>> {
    v.map_values(|s: String| s@)
}

/// Appending an element to a sequence adds exactly that element to what the
/// sequence contains.
pub proof fn lemma_push_contains<A>(s: Seq<A>, x: A, a: A)
    ensures
        s.push(x).contains(a) <==> s.contains(a) || a == x,
{
    if a == x {
        assert(s.push(x)[s.len() as int] == x);
    }
    if s.contains(a) {
        let i = choose|i: int| 0 <= i < s.len() && s[i] == a;
        assert(s.push(x)[i] == a);
    }
    if s.push(x).contains(a) {
        let i = choose|i: int| 0 <= i < s.push(x).len() && s.push(x)[i] == a;
        if i < s.len() {
            assert(s[i] == a);
        }
    }
}

/// Appending an element that a duplicate-free sequence does not contain
/// keeps it duplicate-free.
pub proof fn lemma_push_no_dup_helper<A>(s: Seq<A>, x: A)
    requires
        s.no_duplicates(),
        !s.contains(x),
    ensures
        s.push(x).no_duplicates(),
{
    assert forall|i: int, j: int|
        0 <= i < j < s.push(x).len() implies s.push(x)[i] != s.push(x)[j] by {
        if j < s.len() {
        } else {
            assert(s.push(x)[i] == s[i]);
            assert(s.contains(s[i]));
        }
    }
}

/// A concatenation contains exactly what either part contains.
pub proof fn lemma_concat_contains<A>(a: Seq<A>, b: Seq<A>, x: A)
    ensures
        (a + b).contains(x) <==> a.contains(x) || b.contains(x),
{
    if a.contains(x) {
        let i = choose|i: int| 0 <= i < a.len() && a[i] == x;
        assert((a + b)[i] == x);
    }
    if b.contains(x) {
        let i = choose|i: int| 0 <= i < b.len() && b[i] == x;
        assert((a + b)[a.len() + i] == x);
    }
    if (a + b).contains(x) {
        let i = choose|i: int| 0 <= i < (a + b).len() && (a + b)[i] == x;
        if i < a.len() {
            assert(a[i] == x);
        } else {
            assert(b[i - a.len()] == x);
        }
    }
}

/// Whether some string of `v` has the same characters as `s`.
pub fn contains_text(v: &Vec<String>, s: &str) -> (r: bool)
    ensures
        r == seq_views(v@).contains(s@),
{
    let n = v.len();
    let mut i: usize = 0;
    while i < n
        invariant
            n == v@.len(),
            i <= n,
            forall|p: int| 0 <= p < i ==> seq_views(v@)[p] != s@,
        decreases n - i,
    {
        if str_eq(v[i].as_str(), s) {
            assert(seq_views(v@)[i as int] == s@);
            return true;
        }
        i += 1;
    }
    false
}

/// Relies on String::push: appends exactly one character to the string.
#[verifier::external_body]
pub(crate) fn push_char(s: &mut String, c: char)
    ensures
        final(s)@ == old(s)@.push(c),
{
    s.push(c);
}

/// Whether the character sequences of `a` and `b` are equal.
pub fn str_eq(a: &str, b: &str) -> (r: bool)
    ensures
        r == (a@ == b@),
{
    let sa = a.to_owned();
    let sb = b.to_owned();
    sa == sb
}

} // verus!
