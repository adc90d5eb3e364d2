//! The engine session: program text and solver arguments, the Herbrand atom
//! map, and the exclusive engine-handle protocol.
//!
//! Every textual mutation of the program follows a builder/replace pattern:
//! it yields a fresh program, from which a caller grounds and constructs a
//! fresh session. There is no incremental update, so the atom map can never
//! drift from the program text.

use vstd::prelude::*;

use crate::atoms::{entries_wf, AtomEntry, AtomMap};
use crate::errors::NavigatorError;
use crate::text::{
    first_occurrence, first_occurrence_at, lemma_first_occurrence_unique, occurs, occurs_at,
    remove_first, str_eq, without_first,
};

verus! {

/// The character sequence separating the old source from an added rule.
pub open spec fn newline() -> Seq<char> {
    seq!['\n']
}

/// `i` is the earliest position at which `a` occurs in `args`.
pub open spec fn first_arg_at(args: Seq<Seq<char>>, a: Seq<char>, i: int) -> bool {
    &&& 0 <= i < args.len()
    &&& args[i] == a
    &&& forall|j: int| 0 <= j < i ==> args[j] != a
}

/// The earliest position at which `a` occurs in `args`; meaningful only when
/// `args` contains `a`.
pub open spec fn first_arg_index(args: Seq<Seq<char>>, a: Seq<char>) -> int {
    choose|i: int| first_arg_at(args, a, i)
}

/// When `a` occurs in `args`, it occurs at an earliest position.
pub proof fn lemma_first_arg_exists(args: Seq<Seq<char>>, a: Seq<char>, i: int)
    requires
        0 <= i < args.len(),
        args[i] == a,
    ensures
        exists|k: int| first_arg_at(args, a, k),
    decreases i,
{
    if forall|j: int| 0 <= j < i ==> args[j] != a {
        assert(first_arg_at(args, a, i));
    } else {
        let j = choose|j: int| 0 <= j < i && args[j] == a;
        lemma_first_arg_exists(args, a, j);
    }
}

/// Rule round trip over character sequences: in a source extended by a
/// separating newline and a rule text, the first occurrence of that text is
/// the appended one — provided the text is nonempty, spans no line break,
/// and did not occur in the source before — so removing it restores the
/// source up to the separating newline.
pub proof fn lemma_rule_round_trip(source: Seq<char>, rule: Seq<char>)
    requires
        rule.len() > 0,
        !rule.contains('\n'),
        !occurs(source, rule),
    ensures
        first_occurrence_at(source + newline() + rule, rule, source.len() as int + 1),
        without_first(source + newline() + rule, rule) == source + newline(),
{
    let s2 = source + newline() + rule;
    assert(occurs_at(s2, rule, source.len() as int + 1)) by {
        assert(s2.subrange(source.len() as int + 1, source.len() as int + 1 + rule.len() as int) =~= rule);
    }
    assert forall|j: int| 0 <= j < source.len() + 1 implies !occurs_at(s2, rule, j) by {
        if occurs_at(s2, rule, j) {
            if j + rule.len() <= source.len() {
                assert(occurs_at(source, rule, j)) by {
                    assert(source.subrange(j, j + rule.len() as int) =~= s2.subrange(
                        j,
                        j + rule.len() as int,
                    ));
                }
            } else {
                let k = source.len() - j;
                assert(s2.subrange(j, j + rule.len() as int)[k] == s2[source.len() as int]);
                assert(rule[k] == '\n');
                assert(rule.contains('\n'));
            }
        }
    }
    assert(first_occurrence_at(s2, rule, source.len() as int + 1));
    let i = first_occurrence(s2, rule);
    assert(first_occurrence_at(s2, rule, i));
    lemma_first_occurrence_unique(s2, rule, i, source.len() as int + 1);
    assert(without_first(s2, rule) =~= source + newline());
}

/// Rule round trip over programs: a program extended by a rule, then stripped
/// of the first occurrence of the same text, carries the original source with
/// only the separating newline appended — and the same solver arguments — so
/// the session rebuilt from it grounds the same program as the original
/// session. The provisos: the rule text is nonempty, spans no line break, and
/// did not occur in the source before.
pub proof fn lemma_program_rule_round_trip(p: Program, q: Program, r: Program, rule: Seq<char>)
    requires
        rule.len() > 0,
        !rule.contains('\n'),
        !occurs(p.source_view(), rule),
        q.source_view() == p.source_view() + newline() + rule,
        q.args_view() == p.args_view(),
        r.source_view() == without_first(q.source_view(), rule),
        r.args_view() == q.args_view(),
    ensures
        r.source_view() == p.source_view() + newline(),
        r.args_view() == p.args_view(),
{
    lemma_rule_round_trip(p.source_view(), rule);
}

/// The literals a route resolves to under atom map `m`, in route order, with
/// elements that resolve to nothing dropped.
pub open spec fn resolved_route(m: AtomMap, route: Seq<Seq<char>>) -> Seq<i32>
    decreases route.len(),
{
    if route.len() == 0 {
        Seq::empty()
    } else {
        let head = resolved_route(m, route.drop_last());
        match m.resolved(route.last()) {
            Some(l) => head.push(l),
            None => head,
        }
    }
}

/// A logic program: its source text and the ordered solver argument strings
/// it is grounded under. Immutable; every mutation yields a fresh program.
pub struct Program {
    source: String,
    args: Vec<String>,
}

impl Program {
    /// The program source as a character sequence.
    pub closed spec fn source_view(&self) -> Seq<char> {
        self.source@
    }

    /// The solver arguments as character sequences, in order.
    pub closed spec fn args_view(&self) -> Seq<Seq<char>> {
        self.args@.map_values(|a: String| a@)
    }

    /// Wraps a source text and argument list as a program.
    pub fn new(source: String, args: Vec<String>) -> (r: Program)
        ensures
            r.source_view() == source@,
            r.args_view() == args@.map_values(|a: String| a@),
    {
        Program { source, args }
    }

    /// The underlying source text.
    pub fn source(&self) -> (r: String)
        ensures
            r@ == self.source_view(),
    {
        self.source.clone()
    }

    /// The solver arguments, in order.
    pub fn args(&self) -> (r: Vec<String>)
        ensures
            r@.map_values(|a: String| a@) == self.args_view(),
    {
        let n = self.args.len();
        let mut out: Vec<String> = Vec::new();
        let mut i: usize = 0;
        while i < n
            invariant
                n == self.args@.len(),
                i <= n,
                out@.len() == i,
                forall|p: int| 0 <= p < i ==> #[trigger] out@[p]@ == self.args@[p]@,
            decreases n - i,
        {
            out.push(self.args[i].clone());
            i += 1;
        }
        proof {
            assert(out@.map_values(|a: String| a@) =~= self.args_view());
        }
        out
    }

    /// The program with `rule` appended on a fresh line. The session built
    /// from the result re-grounds the whole new source.
    pub fn add_rule(&self, rule: &str) -> (r: Program)
        ensures
            r.source_view() == self.source_view() + newline() + rule@,
            r.args_view() == self.args_view(),
    {
        let mut src = self.source.clone();
        src.append("\n");
        src.append(rule);
        proof {
            reveal_strlit("\n");
            assert("\n"@ =~= newline());
        }
        Program { source: src, args: self.args.clone() }
    }

    /// The program with the first textual occurrence of `rule` removed from
    /// the source; the source is unchanged when `rule` does not occur in it.
    pub fn remove_rule(&self, rule: &str) -> (r: Program)
        ensures
            r.source_view() == without_first(self.source_view(), rule@),
            r.args_view() == self.args_view(),
    {
        let src = remove_first(self.source.as_str(), rule);
        Program { source: src, args: self.args.clone() }
    }

    /// The program with `arg` appended to the solver argument list.
    pub fn add_arg(&self, arg: &str) -> (r: Program)
        ensures
            r.source_view() == self.source_view(),
            r.args_view() == self.args_view().push(arg@),
    {
        let mut args = self.args.clone();
        args.push(arg.to_owned());
        proof {
            assert(args@.map_values(|a: String| a@) =~= self.args_view().push(arg@));
        }
        Program { source: self.source.clone(), args }
    }

    /// The program with the first occurrence of `arg` removed from the solver
    /// argument list; removing an argument that was never added is an error.
    pub fn remove_arg(&self, arg: &str) -> (r: Result<Program, NavigatorError>)
        ensures
            match r {
                Ok(p) => {
                    &&& exists|i: int| first_arg_at(self.args_view(), arg@, i)
                    &&& p.args_view() == self.args_view().remove(
                        first_arg_index(self.args_view(), arg@),
                    )
                    &&& p.source_view() == self.source_view()
                },
                Err(e) => {
                    &&& e is InvalidInput
                    &&& forall|i: int|
                        0 <= i < self.args_view().len() ==> self.args_view()[i] != arg@
                },
            },
    {
        let n = self.args.len();
        let mut i: usize = 0;
        while i < n
            invariant
                n == self.args@.len(),
                i <= n,
                forall|p: int| 0 <= p < i ==> self.args_view()[p] != arg@,
            decreases n - i,
        {
            if str_eq(self.args[i].as_str(), arg) {
                proof {
                    assert(self.args_view()[i as int] == arg@);
                    lemma_first_arg_exists(self.args_view(), arg@, i as int);
                    let k = first_arg_index(self.args_view(), arg@);
                    assert(first_arg_at(self.args_view(), arg@, k));
                    assert(k == i);
                }
                let mut args = self.args.clone();
                args.remove(i);
                proof {
                    assert(args@.map_values(|a: String| a@) =~= self.args_view().remove(i as int));
                }
                return Ok(Program { source: self.source.clone(), args });
            }
            i += 1;
        }
        Err(NavigatorError::InvalidInput(arg.to_owned()))
    }
}

/// The state of the session's exclusive engine handle.
///
/// The handle is a move, not a lock: a query checks it out, uses it, and
/// checks it back in. A query that aborts abnormally leaves the session in
/// the fatal `Lost` state.
#[derive(Clone, Copy, Debug, PartialEq, Eq, Structural)]
pub enum ControlState {
    /// The handle is checked in; a query may take it.
    Idle,
    /// A query holds the handle; any other query fails with `NoControl`.
    CheckedOut,
    /// A query aborted without returning the handle: the session is dead.
    Lost,
}

/// The engine's model-enumeration mode. It is `Auto` whenever the handle is
/// idle: a consequence query sets it and must restore it on every exit path.
#[derive(Clone, Copy, Debug, PartialEq, Eq, Structural)]
pub enum EnumMode {
    /// Plain model enumeration.
    Auto,
    /// Each model accumulates atoms true in at least one answer set.
    Brave,
    /// Each model narrows to atoms true in every answer set.
    Cautious,
}

/// A live session: the program, the atom map built from its grounding, and
/// the engine-handle protocol state.
pub struct Session {
    program: Program,
    map: AtomMap,
    control: ControlState,
    mode: EnumMode,
    projecting: bool,
}

impl Session {
    /// The program the session was grounded from.
    pub closed spec fn program_view(&self) -> Program {
        self.program
    }

    /// The atom map of the current grounding.
    pub closed spec fn map_view(&self) -> AtomMap {
        self.map
    }

    /// The engine-handle state.
    pub closed spec fn control_view(&self) -> ControlState {
        self.control
    }

    /// The engine's enumeration mode.
    pub closed spec fn mode_view(&self) -> EnumMode {
        self.mode
    }

    /// Whether consequence computation is restricted to shown atoms.
    pub closed spec fn projecting_view(&self) -> bool {
        self.projecting
    }

    /// The atom map is consistent, and the enumeration configuration is back
    /// at its defaults whenever no query is in flight.
    pub open spec fn wf(&self) -> bool {
        &&& self.map_view().wf()
        &&& self.control_view() is Idle ==> self.mode_view() is Auto && !self.projecting_view()
    }

    /// Builds a session over `program` from the atom entries of its
    /// grounding; the handle starts idle with default configuration.
    pub fn new(program: Program, entries: Vec<AtomEntry>) -> (r: Result<Session, NavigatorError>)
        ensures
            match r {
                Ok(s) => {
                    &&& s.wf()
                    &&& s.program_view() == program
                    &&& s.map_view()@ == entries@
                    &&& s.control_view() is Idle
                },
                Err(e) => e is InvalidInput && !entries_wf(entries@),
            },
    {
        let map = match AtomMap::new(entries) {
            Ok(m) => m,
            Err(e) => {
                return Err(e);
            },
        };
        Ok(
            Session {
                program,
                map,
                control: ControlState::Idle,
                mode: EnumMode::Auto,
                projecting: false,
            },
        )
    }

    /// The program and argument list the session runs over, the starting
    /// point of every textual mutation.
    pub fn program_parts(&self) -> (r: &Program)
        ensures
            *r == self.program_view(),
    {
        &self.program
    }

    /// The current program source text.
    pub fn program(&self) -> (r: String)
        ensures
            r@ == self.program_view().source_view(),
    {
        self.program.source()
    }

    /// The program source the session was constructed over.
    pub fn reset_program(&self) -> (r: String)
        ensures
            r@ == self.program_view().source_view(),
    {
        self.program.source()
    }

    /// Whether `atom` is part of the Herbrand base of the current program.
    /// Never answers from a stale map: the map is rebuilt on re-grounding.
    pub fn is_known(&self, atom: &str) -> (r: bool)
        requires
            self.wf(),
        ensures
            r == self.map_view().contains_atom(atom@),
    {
        match self.map.get(atom) {
            Some(_) => true,
            None => false,
        }
    }

    /// Starts a query: checks the engine handle out and records the
    /// enumeration configuration the query runs under. Fails with
    /// `NoControl`, leaving the session unchanged, when the handle is already
    /// out: at most one query may be live at a time.
    pub fn begin_query(&mut self, mode: EnumMode, projecting: bool) -> (r: Result<
        (),
        NavigatorError,
    >)
        requires
            old(self).wf(),
        ensures
            final(self).wf(),
            final(self).program_view() == old(self).program_view(),
            final(self).map_view() == old(self).map_view(),
            match r {
                Ok(()) => {
                    &&& old(self).control_view() is Idle
                    &&& final(self).control_view() is CheckedOut
                    &&& final(self).mode_view() == mode
                    &&& final(self).projecting_view() == projecting
                },
                Err(e) => {
                    &&& e is NoControl
                    &&& !(old(self).control_view() is Idle)
                    &&& *final(self) == *old(self)
                },
            },
    {
        match self.control {
            ControlState::Idle => {
                self.control = ControlState::CheckedOut;
                self.mode = mode;
                self.projecting = projecting;
                Ok(())
            },
            _ => Err(NavigatorError::NoControl),
        }
    }

    /// Ends a query on any exit path: restores the enumeration configuration
    /// to its defaults and checks the engine handle back in, so that no mode
    /// ever leaks into an unrelated later query.
    pub fn end_query(&mut self)
        requires
            old(self).wf(),
            old(self).control_view() is CheckedOut,
        ensures
            final(self).wf(),
            final(self).program_view() == old(self).program_view(),
            final(self).map_view() == old(self).map_view(),
            final(self).control_view() is Idle,
            final(self).mode_view() is Auto,
            !final(self).projecting_view(),
    {
        self.control = ControlState::Idle;
        self.mode = EnumMode::Auto;
        self.projecting = false;
    }

    /// Records that a query aborted without returning the handle. Fatal and
    /// non-recoverable: every later query on this session fails.
    pub fn abandon_query(&mut self)
        requires
            old(self).wf(),
        ensures
            final(self).wf(),
            final(self).program_view() == old(self).program_view(),
            final(self).map_view() == old(self).map_view(),
            final(self).control_view() is Lost,
    {
        self.control = ControlState::Lost;
    }

    /// The engine-handle state, for callers deciding whether a query may
    /// start.
    pub fn control(&self) -> (r: ControlState)
        ensures
            r == self.control_view(),
    {
        self.control
    }

    /// Resolves one route element into an engine literal: strips a leading
    /// negation marker, looks the atom up in the map, and negates the handle
    /// when the marker was present. The single choke point through which all
    /// higher components turn text into engine literals.
    pub fn resolve(&self, expr: &str) -> (r: Option<i32>)
        requires
            self.wf(),
        ensures
            r == self.map_view().resolved(expr@),
    {
        let n = expr.unicode_len();
        if n > 0 && expr.get_char(0) == '~' {
            let rest = expr.substring_char(1, n);
            match self.map.get(rest) {
                Some(l) => Some(-l),
                None => None,
            }
        } else {
            self.map.get(expr)
        }
    }

    /// Resolves a whole route, in order. An element referencing an atom
    /// absent from the map is silently dropped, by design: callers must not
    /// rely on route length being preserved through resolution.
    pub fn resolve_route(&self, route: &Vec<String>) -> (r: Vec<i32>)
        requires
            self.wf(),
        ensures
            r@ == resolved_route(self.map_view(), route@.map_values(|e: String| e@)),
    {
        let n = route.len();
        let mut out: Vec<i32> = Vec::new();
        let mut i: usize = 0;
        while i < n
            invariant
                self.wf(),
                n == route@.len(),
                i <= n,
                out@ == resolved_route(
                    self.map_view(),
                    route@.map_values(|e: String| e@).take(i as int),
                ),
            decreases n - i,
        {
            let ghost exprs = route@.map_values(|e: String| e@);
            proof {
                assert(exprs.take(i + 1).drop_last() =~= exprs.take(i as int));
                assert(exprs.take(i + 1).last() == exprs[i as int]);
            }
            match self.resolve(route[i].as_str()) {
                Some(l) => {
                    out.push(l);
                },
                None => {},
            }
            i += 1;
        }
        proof {
            assert(route@.map_values(|e: String| e@).take(n as int) =~= route@.map_values(
                |e: String| e@,
            ));
        }
        out
    }

    /// The atom texts of the current ground program, in map order.
    pub fn atoms(&self) -> (r: Vec<String>)
        ensures
            r@.len() == self.map_view()@.len(),
            forall|i: int| 0 <= i < r@.len() ==> #[trigger] r@[i]@ == self.map_view()@[i].text@,
    {
        self.map.atoms()
    }

    /// The predicate symbols of the current ground program as (name, arity)
    /// pairs, in map order.
    pub fn symbols(&self) -> (r: Vec<(String, usize)>)
        ensures
            r@.len() == self.map_view()@.len(),
            forall|i: int|
                0 <= i < r@.len() ==> #[trigger] r@[i].0@ == self.map_view()@[i].name@ && r@[i].1
                    == self.map_view()@[i].arity,
    {
        self.map.symbols()
    }
}

} // verus!
