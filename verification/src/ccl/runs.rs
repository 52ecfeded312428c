//! Runs: what evaluations come to, where whoever drives them answers what they
//! ask for.

use vstd::prelude::*;

use crate::ccl::exec::{
    answer_step, begun, ended, imported_step, plus, resolver_at, stepped, told, Event, ExecError, Failure,
    ImportResolution, Need, Next, State, TypeNames, Waiting,
};
use crate::ccl::scope::{inner_of, Inner, Meaning};
use crate::digest::utf8;
use crate::text::cut;

verus! {

/// Who drives evaluations: which names an expression depends on, what it
/// evaluates to, which may change the scopes, and what an import brings.
pub struct Driver {
    pub names: TypeNames,
    pub dependencies: spec_fn(usize) -> Seq<(Seq<char>, usize)>,
    pub evaluate: spec_fn(Seq<Inner>, usize, usize, Seq<(Seq<char>, Meaning)>) -> (Seq<Inner>, Result<Meaning, Failure>),
    pub import: spec_fn(usize, Seq<char>, Option<Seq<char>>) -> Result<ImportResolution, ExecError>,
}

/// The next state of an evaluation that is answered as `w` says.
pub open spec fn driven(w: Driver, s: State) -> State {
    match s.next {
        Next::Evaluate { scope, specifier, expr } | Next::AwaitDependencies { scope, specifier, expr } => State {
            arena: begun(s.arena, scope, specifier),
            next: Next::Dependencies {
                scope,
                specifier,
                expr,
                deps: (w.dependencies)(expr),
                resolved: Seq::empty(),
            },
            ..s
        },
        Next::Dependencies { scope, specifier, expr, deps, resolved } if deps.len() == 0 => {
            let (arena, answer) = (w.evaluate)(ended(s.arena, scope, specifier), scope, expr, resolved);
            State { arena, next: Next::Answer(answer), ..s }
        },
        Next::Import { scope, specifier, direct, from, index } | Next::AwaitImport {
            scope,
            specifier,
            direct,
            from,
            index,
        } => imported_step(
            s,
            scope,
            specifier,
            direct,
            from,
            index,
            (w.import)(resolver_at(inner_of(s.arena, scope), index), from, inner_of(s.arena, scope).context),
        ),
        _ => stepped(w.names, s, Event::Go).0,
    }
}

/// An evaluation that is answered as `w` says goes on as `driven` says: it asks for
/// the names that an expression depends on, for what the expression evaluates to
/// and for what an import brings, and goes on with the answers; else it goes on by
/// itself.
pub proof fn law_driven(w: Driver, s: State, list: Vec<(String, usize)>, answer: Result<
    crate::ccl::scope::ValueOrScope,
    ExecError,
>)
    ensures
        match s.next {
            Next::Evaluate { scope, specifier, expr } => {
                let (asked, need) = stepped(w.names, s, Event::Go);
                &&& need == Need::Dependencies(expr)
                &&& list.deep_view() == (w.dependencies)(expr) ==> stepped(w.names, asked, Event::Dependencies(list)) == (
                    driven(w, s),
                    Need::Go,
                )
            },
            Next::Dependencies { scope, specifier, expr, deps, resolved } if deps.len() == 0 => {
                let (asked, need) = stepped(w.names, s, Event::Go);
                let (arena, evaluated) = (w.evaluate)(asked.arena, scope, expr, resolved);
                &&& need == (Need::Evaluate { scope, expr, resolved })
                &&& told(answer) == evaluated ==> stepped(
                    w.names,
                    State { arena, ..asked },
                    Event::Evaluated(answer),
                ) == (driven(w, s), Need::Go)
            },
            Next::Import { scope, specifier, direct, from, index } => {
                let (asked, need) = stepped(w.names, s, Event::Go);
                let resolver = resolver_at(inner_of(s.arena, scope), index);
                let context = inner_of(s.arena, scope).context;
                &&& need == (Need::Import { resolver, from, context })
                &&& stepped(w.names, asked, Event::Imported((w.import)(resolver, from, context))) == (
                    driven(w, s),
                    Need::Go,
                )
            },
            Next::AwaitDependencies { .. } | Next::AwaitEvaluation | Next::AwaitImport { .. } => true,
            _ => driven(w, s) == stepped(w.names, s, Event::Go).0,
        },
{
}

/// Whether an evaluation has come to its end.
pub open spec fn done(s: State) -> bool {
    s.stack.len() == 0 && s.next is Answer
}

/// The state of an evaluation after `n` steps.
pub open spec fn run(w: Driver, s: State, n: nat) -> State
    decreases n,
{
    if n == 0 {
        s
    } else {
        run(w, driven(w, s), (n - 1) as nat)
    }
}

/// Whether an evaluation in the state `s` comes to the state `t`.
pub open spec fn reaches(w: Driver, s: State, t: State) -> bool {
    exists|n: nat| #[trigger] run(w, s, n) == t
}

/// Whether the scopes are `f` at some time of an evaluation in the state `s`.
pub open spec fn passes(w: Driver, s: State, f: Seq<Inner>) -> bool {
    exists|n: nat| (#[trigger] run(w, s, n)).arena == f
}

/// What an evaluation is asked.
pub enum Question {
    /// What a name stands for in a scope.
    Meaning { scope: usize, specifier: Seq<char>, offset: usize },
    /// The value of a name in a scope.
    Value { scope: usize, specifier: Seq<char>, offset: usize },
    /// The value of `answer`, which a name stands for in a scope.
    ValueOf { scope: usize, specifier: Seq<char>, answer: Result<Meaning, Failure> },
    /// The dictionary of `out` and the values of `keys` in a scope.
    Dictionary { scope: usize, keys: Seq<Seq<char>>, out: Seq<(Seq<char>, crate::value::Node)> },
}

/// The state of an evaluation that is asked `q`, with `stack` waiting for the
/// answer.
pub open spec fn asked(arena: Seq<Inner>, stack: Seq<Waiting>, q: Question) -> State {
    match q {
        Question::Meaning { scope, specifier, offset } => State {
            arena,
            stack,
            next: Next::Resolve { scope, specifier, offset },
        },
        Question::Value { scope, specifier, offset } => State {
            arena,
            stack: stack.push(Waiting::Value { scope, specifier }),
            next: Next::Resolve { scope, specifier, offset },
        },
        Question::ValueOf { scope, specifier, answer } => State {
            arena,
            stack: stack.push(Waiting::Value { scope, specifier }),
            next: Next::Answer(answer),
        },
        Question::Dictionary { scope, keys, out } => State { arena, stack, next: Next::Collect { scope, keys, out } },
    }
}

/// The state in which `answer` is handed to `stack`.
pub open spec fn answered(arena: Seq<Inner>, stack: Seq<Waiting>, answer: Result<Meaning, Failure>) -> State {
    State { arena, stack, next: Next::Answer(answer) }
}

/// Whether `q`, asked where the scopes are `a`, comes to `answer`, and leaves the
/// scopes as `b`.
pub open spec fn comes_to(
    w: Driver,
    a: Seq<Inner>,
    q: Question,
    b: Seq<Inner>,
    answer: Result<Meaning, Failure>,
) -> bool {
    reaches(w, asked(a, Seq::empty(), q), answered(b, Seq::empty(), answer))
}

/// `s` with `base` below what waits.
pub open spec fn lifted(base: Seq<Waiting>, s: State) -> State {
    State { stack: base + s.stack, ..s }
}

proof fn lemma_push(base: Seq<Waiting>, stack: Seq<Waiting>, x: Waiting)
    ensures
        (base + stack).push(x) == base + stack.push(x),
{
    assert((base + stack).push(x) =~= base + stack.push(x));
}

/// What waits below does not change what is done with an answer.
proof fn lemma_lift_answer(w: Driver, base: Seq<Waiting>, s: State, answer: Result<Meaning, Failure>)
    requires
        s.stack.len() > 0,
    ensures
        answer_step(w.names, lifted(base, s), answer).0 == lifted(base, answer_step(w.names, s, answer).0),
{
    let t = lifted(base, s);
    let below = s.stack.drop_last();
    assert(t.stack.last() == s.stack.last());
    assert(t.stack.drop_last() =~= base + below);
    if let Waiting::Override { scope, specifier, offset, current, rest } = s.stack.last() {
        let x = Waiting::OverrideValue { scope, specifier, offset, rest, result: answer };
        lemma_push(base, below, x);
        lemma_push(base, below.push(x), Waiting::Value { scope: current, specifier });
    }
}

/// What waits below does not change what an evaluation does next.
proof fn lemma_lift(w: Driver, base: Seq<Waiting>, s: State)
    requires
        !done(s),
    ensures
        driven(w, lifted(base, s)) == lifted(base, driven(w, s)),
{
    match s.next {
        Next::Answer(answer) => lemma_lift_answer(w, base, s, answer),
        Next::Resolve { scope, specifier, offset } => {
            lemma_push(base, s.stack, Waiting::DeepOverride { scope, specifier });
            if let Some((prefix, suffix)) = cut(specifier, '.') {
                let x = Waiting::Member { offset: plus(offset as int, utf8(prefix).len() as int), suffix };
                lemma_push(base, s.stack, x);
                lemma_push(base, s.stack.push(x), Waiting::Inside { ident: prefix, offset });
            }
        },
        Next::Overrides { scope, specifier, offset, rest } => {
            if rest.len() > 0 {
                lemma_push(
                    base,
                    s.stack,
                    Waiting::Override { scope, specifier, offset, current: rest[0], rest: rest.skip(1) },
                );
            }
        },
        Next::Dependencies { scope, specifier, expr, deps, resolved } => {
            if deps.len() > 0 {
                lemma_push(
                    base,
                    s.stack,
                    Waiting::Dependency { scope, specifier, expr, name: deps[0].0, deps: deps.skip(1), resolved },
                );
            }
        },
        Next::Collect { scope, keys, out } => {
            if keys.len() > 0 {
                let x = Waiting::Entry { scope, key: keys[0], keys: keys.skip(1), out };
                lemma_push(base, s.stack, x);
                lemma_push(base, s.stack.push(x), Waiting::Value { scope, specifier: keys[0] });
            }
        },
        _ => {},
    }
}

/// An evaluation that has come to its end stays there.
pub proof fn lemma_done(w: Driver, s: State, n: nat)
    requires
        done(s),
    ensures
        run(w, s, n) == s,
    decreases n,
{
    if n > 0 {
        assert(driven(w, s) == s);
        lemma_done(w, s, (n - 1) as nat);
    }
}

/// Steps can be taken in two parts.
pub proof fn lemma_run_on(w: Driver, s: State, m: nat, n: nat)
    ensures
        run(w, run(w, s, m), n) == run(w, s, m + n),
    decreases m,
{
    if m > 0 {
        lemma_run_on(w, driven(w, s), (m - 1) as nat, n);
        assert((m + n - 1) as nat == (m - 1) as nat + n);
    }
}

/// An evaluation takes the same course above whatever waits.
proof fn lemma_lifted_run(w: Driver, base: Seq<Waiting>, s: State, n: nat) -> (m: nat)
    ensures
        run(w, lifted(base, s), m) == lifted(base, run(w, s, n)),
    decreases n,
{
    if done(s) || n == 0 {
        if n > 0 {
            lemma_done(w, s, n);
        }
        0
    } else {
        lemma_lift(w, base, s);
        let m = lemma_lifted_run(w, base, driven(w, s), (n - 1) as nat);
        assert(run(w, lifted(base, s), m + 1) == run(w, driven(w, lifted(base, s)), m));
        m + 1
    }
}

/// A step reaches the next state.
pub proof fn lemma_step(w: Driver, s: State)
    ensures
        reaches(w, s, driven(w, s)),
{
    assert(run(w, driven(w, s), 0) == driven(w, s));
    assert(run(w, s, 1) == driven(w, s));
}

/// What is reached from a state that is reached is reached.
pub proof fn lemma_reaches_on(w: Driver, s: State, t: State, u: State)
    requires
        reaches(w, s, t),
        reaches(w, t, u),
    ensures
        reaches(w, s, u),
{
    let m = choose|m: nat| #[trigger] run(w, s, m) == t;
    let n = choose|n: nat| #[trigger] run(w, t, n) == u;
    lemma_run_on(w, s, m, n);
    assert(run(w, s, m + n) == u);
}

/// An evaluation passes the scopes that it begins with.
pub proof fn lemma_passes_start(w: Driver, s: State)
    ensures
        passes(w, s, s.arena),
{
    assert(run(w, s, 0).arena == s.arena);
}

/// What is passed from a state that is reached is passed.
pub proof fn lemma_passes_on(w: Driver, s: State, t: State, f: Seq<Inner>)
    requires
        reaches(w, s, t),
        passes(w, t, f),
    ensures
        passes(w, s, f),
{
    let m = choose|m: nat| #[trigger] run(w, s, m) == t;
    let n = choose|n: nat| (#[trigger] run(w, t, n)).arena == f;
    lemma_run_on(w, s, m, n);
    assert(run(w, s, m + n).arena == f);
}

/// What is passed in answering a question is passed above whatever waits.
pub proof fn lemma_passes_above(w: Driver, a: Seq<Inner>, stack: Seq<Waiting>, q: Question, f: Seq<Inner>)
    requires
        passes(w, asked(a, Seq::empty(), q), f),
    ensures
        passes(w, asked(a, stack, q), f),
{
    let s = asked(a, Seq::empty(), q);
    let n = choose|n: nat| (#[trigger] run(w, s, n)).arena == f;
    let m = lemma_lifted_run(w, stack, s, n);
    lemma_lifted_asked(a, stack, q);
    assert(run(w, asked(a, stack, q), m).arena == f);
}

/// An evaluation that comes to its end comes there from every state that it
/// reaches.
pub proof fn lemma_reaches_end(w: Driver, s: State, t: State, end: State)
    requires
        reaches(w, s, t),
        reaches(w, s, end),
        done(end),
    ensures
        reaches(w, t, end),
{
    let m = choose|m: nat| #[trigger] run(w, s, m) == t;
    let n = choose|n: nat| #[trigger] run(w, s, n) == end;
    if m <= n {
        lemma_run_on(w, s, m, (n - m) as nat);
        assert(run(w, t, (n - m) as nat) == end);
    } else {
        lemma_run_on(w, s, n, (m - n) as nat);
        lemma_done(w, end, (m - n) as nat);
        assert(run(w, t, 0) == end);
    }
}

/// A question that is asked above `stack` is answered to it.
pub proof fn lemma_ask(
    w: Driver,
    a: Seq<Inner>,
    stack: Seq<Waiting>,
    q: Question,
    b: Seq<Inner>,
    answer: Result<Meaning, Failure>,
)
    requires
        comes_to(w, a, q, b, answer),
    ensures
        reaches(w, asked(a, stack, q), answered(b, stack, answer)),
{
    let s = asked(a, Seq::empty(), q);
    let n = choose|n: nat| #[trigger] run(w, s, n) == answered(b, Seq::empty(), answer);
    let m = lemma_lifted_run(w, stack, s, n);
    lemma_lifted_asked(a, stack, q);
    assert(lifted(stack, answered(b, Seq::empty(), answer)) =~= answered(b, stack, answer)) by {
        assert(stack + Seq::<Waiting>::empty() =~= stack);
    }
    assert(run(w, asked(a, stack, q), m) == answered(b, stack, answer));
}

proof fn lemma_lifted_asked(a: Seq<Inner>, stack: Seq<Waiting>, q: Question)
    ensures
        lifted(stack, asked(a, Seq::empty(), q)) == asked(a, stack, q),
{
    assert(stack + Seq::<Waiting>::empty() =~= stack);
    match q {
        Question::Value { scope, specifier, .. } => {
            lemma_push(stack, Seq::empty(), Waiting::Value { scope, specifier });
        },
        Question::ValueOf { scope, specifier, .. } => {
            lemma_push(stack, Seq::empty(), Waiting::Value { scope, specifier });
        },
        _ => {},
    }
}

/// Where an evaluation comes to its end above something that waits, it does so by
/// itself first.
proof fn lemma_inside(w: Driver, base: Seq<Waiting>, s: State, n: nat) -> (m: nat)
    requires
        base.len() > 0,
        done(run(w, lifted(base, s), n)),
    ensures
        m <= n,
        done(run(w, s, m)),
        run(w, lifted(base, run(w, s, m)), (n - m) as nat) == run(w, lifted(base, s), n),
    decreases n,
{
    if done(s) {
        assert(run(w, s, 0) == s);
        0
    } else {
        assert(!done(lifted(base, s)));
        lemma_lift(w, base, s);
        let m = lemma_inside(w, base, driven(w, s), (n - 1) as nat);
        assert(run(w, s, m + 1) == run(w, driven(w, s), m));
        assert((n - (m + 1)) as nat == (n - 1 - m) as nat);
        m + 1
    }
}

/// What is asked above something that waits is answered in some of the steps; the
/// answer is handed on in the others.
pub proof fn lemma_answered_in(w: Driver, a: Seq<Inner>, stack: Seq<Waiting>, q: Question, n: nat) -> (r: (
    nat,
    Seq<Inner>,
    Result<Meaning, Failure>,
))
    requires
        stack.len() > 0,
        done(run(w, asked(a, stack, q), n)),
    ensures
        r.0 <= n,
        run(w, asked(a, Seq::empty(), q), r.0) == answered(r.1, Seq::empty(), r.2),
        run(w, answered(r.1, stack, r.2), (n - r.0) as nat) == run(w, asked(a, stack, q), n),
{
    let s = asked(a, Seq::empty(), q);
    lemma_lifted_asked(a, stack, q);
    let m = lemma_inside(w, stack, s, n);
    let t = run(w, s, m);
    let answer = t.next->Answer_0;
    assert(t =~= answered(t.arena, Seq::empty(), answer));
    assert(lifted(stack, t) =~= answered(t.arena, stack, answer)) by {
        assert(stack + Seq::<Waiting>::empty() =~= stack);
    }
    (m, t.arena, answer)
}

/// Where an evaluation that is asked something comes to its end, the question
/// comes to an answer first, with which the evaluation goes on.
pub proof fn lemma_answered(w: Driver, a: Seq<Inner>, stack: Seq<Waiting>, q: Question, end: State) -> (r: (
    Seq<Inner>,
    Result<Meaning, Failure>,
))
    requires
        stack.len() > 0,
        reaches(w, asked(a, stack, q), end),
        done(end),
    ensures
        comes_to(w, a, q, r.0, r.1),
        reaches(w, answered(r.0, stack, r.1), end),
{
    let n = choose|n: nat| #[trigger] run(w, asked(a, stack, q), n) == end;
    let (m, b, answer) = lemma_answered_in(w, a, stack, q, n);
    assert(run(w, asked(a, Seq::empty(), q), m) == answered(b, Seq::empty(), answer));
    assert(run(w, answered(b, stack, answer), (n - m) as nat) == end);
    (b, answer)
}

/// A question comes to one answer only.
pub proof fn law_one_answer(
    w: Driver,
    a: Seq<Inner>,
    q: Question,
    b: Seq<Inner>,
    x: Result<Meaning, Failure>,
    c: Seq<Inner>,
    y: Result<Meaning, Failure>,
)
    requires
        comes_to(w, a, q, b, x),
        comes_to(w, a, q, c, y),
    ensures
        b == c,
        x == y,
{
    let s = asked(a, Seq::empty(), q);
    let t = answered(b, Seq::empty(), x);
    lemma_reaches_end(w, s, t, answered(c, Seq::empty(), y));
    let n = choose|n: nat| #[trigger] run(w, t, n) == answered(c, Seq::empty(), y);
    lemma_done(w, t, n);
}

} // verus!
