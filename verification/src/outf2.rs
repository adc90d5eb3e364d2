//! Structured per-model records for downstream visualization tooling: one
//! record per model, with the solver name and input as placeholders, the
//! model's atoms as a single witness, a satisfiability verdict, and fixed
//! placeholder timing fields.

use vstd::prelude::*;

use crate::text::{push_char, seq_views};

verus! {

/// How one character is escaped inside a quoted atom: quote, backslash,
/// newline, tab and carriage return take a backslash escape, every other
/// character stands for itself.
pub open spec fn escape_char(c: char) -> Seq<char> {
    if c == '"' {
        seq!['\\', '"']
    } else if c == '\\' {
        seq!['\\', '\\']
    } else if c == '\n' {
        seq!['\\', 'n']
    } else if c == '\t' {
        seq!['\\', 't']
    } else if c == '\r' {
        seq!['\\', 'r']
    } else {
        seq![c]
    }
}

/// `s` with every character escaped.
pub open spec fn escaped(s: Seq<char>) -> Seq<char>
    decreases s.len(),
{
    if s.len() == 0 {
        Seq::empty()
    } else {
        escaped(s.drop_last()) + escape_char(s.last())
    }
}

/// `s` escaped and wrapped in double quotes.
pub open spec fn quoted(s: Seq<char>) -> Seq<char> {
    seq!['"'] + escaped(s) + seq!['"']
}

/// The atoms of a model, each quoted, separated by a comma and a space.
pub open spec fn quoted_items(atoms: Seq<Seq<char>>) -> Seq<char>
    decreases atoms.len(),
{
    if atoms.len() == 0 {
        Seq::empty()
    } else if atoms.len() == 1 {
        quoted(atoms.last())
    } else {
        quoted_items(atoms.drop_last()) + seq![',', ' '] + quoted(atoms.last())
    }
}

/// Everything of the record before the witness's atom list.
pub open spec fn record_prefix() -> Seq<char> {
    "{\"Solver\": \"\", \"Input\": [\"\"], \"Call\": [ { \"Witnesses\": [ { \"Value\": ["@
}

/// Everything of the record after the witness's atom list: the verdict and
/// the fixed placeholder counts and timings.
pub open spec fn record_suffix() -> Seq<char> {
    "]}]}],\n\"Result\":\"SATISFIABLE\",\n\"Models\":{\"Number\":1,\"More\":\"yes\"},\n\"Calls\": 1,\n\"Time\":{\"Total\": 0.000,\"Solve\": 0.000,\"Model\": 0.000,\"Unsat\": 0.000,\"CPU\": 0.000}}\n"@
}

/// The record of one model. A model with no atoms yields the bare prefix: it
/// carries no witness to close.
pub open spec fn record_spec(atoms: Seq<Seq<char>>) -> Seq<char> {
    if atoms.len() == 0 {
        record_prefix()
    } else {
        record_prefix() + quoted_items(atoms) + record_suffix()
    }
}

/// Quotes one atom into `out`, escaping quote, backslash, newline, tab and
/// carriage return with a backslash; other characters stand for themselves.
fn append_quoted(out: &mut String, atom: &str)
    ensures
        final(out)@ == old(out)@ + quoted(atom@),
{
    push_char(out, '"');
    let n = atom.unicode_len();
    let mut i: usize = 0;
    while i < n
        invariant
            n == atom@.len(),
            i <= n,
            out@ == old(out)@ + seq!['"'] + escaped(atom@.take(i as int)),
        decreases n - i,
    {
        let ghost prefix = out@;
        proof {
            assert(atom@.take(i + 1).drop_last() =~= atom@.take(i as int));
            assert(atom@.take(i + 1).last() == atom@[i as int]);
        }
        let c = atom.get_char(i);
        if c == '"' {
            push_char(out, '\\');
            push_char(out, '"');
        } else if c == '\\' {
            push_char(out, '\\');
            push_char(out, '\\');
        } else if c == '\n' {
            push_char(out, '\\');
            push_char(out, 'n');
        } else if c == '\t' {
            push_char(out, '\\');
            push_char(out, 't');
        } else if c == '\r' {
            push_char(out, '\\');
            push_char(out, 'r');
        } else {
            push_char(out, c);
        }
        proof {
            assert(out@ =~= prefix + escape_char(atom@[i as int]));
            assert(out@ =~= old(out)@ + seq!['"'] + escaped(atom@.take(i + 1)));
        }
        i += 1;
    }
    proof {
        assert(atom@.take(n as int) =~= atom@);
    }
    push_char(out, '"');
    proof {
        assert(final(out)@ =~= old(out)@ + quoted(atom@));
    }
}

/// Serializes one model as a structured record: solver and input
/// placeholders, the atoms as one witness, the satisfiability verdict, and
/// fixed placeholder timing fields.
pub fn outf2_record(atoms: &Vec<String>) -> (r: String)
    ensures
        r@ == record_spec(seq_views(atoms@)),
{
    let mut out =
        "{\"Solver\": \"\", \"Input\": [\"\"], \"Call\": [ { \"Witnesses\": [ { \"Value\": [".to_owned();
    let n = atoms.len();
    if n == 0 {
        return out;
    }
    let mut i: usize = 0;
    while i < n
        invariant
            n == atoms@.len(),
            0 < n,
            i <= n,
            out@ == record_prefix() + quoted_items(seq_views(atoms@).take(i as int)),
        decreases n - i,
    {
        let ghost aviews = seq_views(atoms@);
        let ghost prefix = out@;
        proof {
            assert(aviews.take(i + 1).drop_last() =~= aviews.take(i as int));
            assert(aviews.take(i + 1).last() == aviews[i as int]);
        }
        if i > 0 {
            push_char(&mut out, ',');
            push_char(&mut out, ' ');
        }
        append_quoted(&mut out, atoms[i].as_str());
        proof {
            if i == 0 {
                assert(out@ =~= record_prefix() + quoted_items(aviews.take(i + 1)));
            } else {
                assert(out@ =~= record_prefix() + quoted_items(aviews.take(i + 1)));
            }
        }
        i += 1;
    }
    proof {
        assert(seq_views(atoms@).take(n as int) =~= seq_views(atoms@));
    }
    out.append(
        "]}]}],\n\"Result\":\"SATISFIABLE\",\n\"Models\":{\"Number\":1,\"More\":\"yes\"},\n\"Calls\": 1,\n\"Time\":{\"Total\": 0.000,\"Solve\": 0.000,\"Model\": 0.000,\"Unsat\": 0.000,\"CPU\": 0.000}}\n",
    );
    out
}

} // verus!
