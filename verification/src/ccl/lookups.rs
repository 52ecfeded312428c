//! Lookups: what a name that nothing overrides comes to, by where it is found.

use vstd::prelude::*;

use crate::ccl::exec::{
    begun, ended, kind_name, plus, symbol_failure, ExecError, ExecErrorKind, Failure, ImportResolution, Next, State,
    Waiting,
};
use crate::ccl::meanings::{free, lemma_looked_up};
use crate::ccl::runs::{
    answered, asked, comes_to, driven, lemma_ask, lemma_reaches_on, lemma_step, reaches, run, Driver, Question,
};
use crate::ccl::scope::{
    empty_inner, inner_of, module_inner, with_bindings, with_imports, with_inner, Inner, Meaning, Module,
};
use crate::digest::utf8;
use crate::table::{found, law_with_row, with_row};
use crate::text::{cut, has_char, lemma_cut};
use crate::value::Node;

verus! {

/// Whether a name stands for nothing in its own scope.
pub open spec fn unbound(inner: Inner, name: Seq<char>) -> bool {
    found(inner.resolved, name) is None && found(inner.unresolved, name) is None
}

proof fn lemma_own(w: Driver, a: Seq<Inner>, scope: usize, name: Seq<char>, offset: usize, next: State)
    requires
        free(a, scope, name),
        driven(w, State { arena: a, stack: Seq::empty(), next: Next::Own { scope, specifier: name, offset } }) == next,
    ensures
        reaches(w, asked(a, Seq::empty(), Question::Meaning { scope, specifier: name, offset }), next),
{
    let own = State { arena: a, stack: Seq::empty(), next: Next::Own { scope, specifier: name, offset } };
    lemma_looked_up(w, a, scope, name, offset);
    lemma_step(w, own);
    lemma_reaches_on(w, asked(a, Seq::empty(), Question::Meaning { scope, specifier: name, offset }), own, next);
}

/// A name that was resolved before stands for what it was resolved to, and nothing changes.
pub proof fn law_known_name(w: Driver, a: Seq<Inner>, scope: usize, name: Seq<char>, offset: usize, meaning: Meaning)
    requires
        free(a, scope, name),
        found(inner_of(a, scope).resolved, name) == Some(meaning),
    ensures
        comes_to(w, a, Question::Meaning { scope, specifier: name, offset }, a, Ok(meaning)),
{
    lemma_own(w, a, scope, name, offset, answered(a, Seq::empty(), Ok(meaning)));
}

/// A name that stands for nothing in its own scope stands for what it does in the scope
/// around it.
pub proof fn law_name_around(
    w: Driver,
    a: Seq<Inner>,
    scope: usize,
    name: Seq<char>,
    offset: usize,
    around: usize,
    b: Seq<Inner>,
    answer: Result<Meaning, Failure>,
)
    requires
        free(a, scope, name),
        unbound(inner_of(a, scope), name),
        inner_of(a, scope).parent == Some(around),
        comes_to(w, a, Question::Meaning { scope: around, specifier: name, offset }, b, answer),
    ensures
        comes_to(w, a, Question::Meaning { scope, specifier: name, offset }, b, answer),
{
    let none = Seq::<Waiting>::empty();
    let further = asked(a, none, Question::Meaning { scope: around, specifier: name, offset });
    lemma_own(w, a, scope, name, offset, further);
    lemma_reaches_on(
        w,
        asked(a, none, Question::Meaning { scope, specifier: name, offset }),
        further,
        answered(b, none, answer),
    );
}

/// A name that stands for nothing, neither in its scope nor around it, and that is not
/// imported cannot be resolved; the error is about the place where the name stands.
pub proof fn law_unknown_name(w: Driver, a: Seq<Inner>, scope: usize, name: Seq<char>, offset: usize) -> (e: Failure)
    requires
        free(a, scope, name),
        unbound(inner_of(a, scope), name),
        inner_of(a, scope).parent is None,
        name.len() > 0,
        found(inner_of(a, scope).imports, name) is None || inner_of(a, scope).resolvers.len() == 0,
    ensures
        comes_to(w, a, Question::Meaning { scope, specifier: name, offset }, a, Err(e)),
        e.kind == ExecErrorKind::CannotResolveSymbol,
        e.message == "unable to resolve identifier `"@ + name + "`"@,
        e.start == offset,
        offset + utf8(name).len() <= usize::MAX ==> e.end == offset + utf8(name).len(),
{
    let e = symbol_failure("unable to resolve identifier `"@ + name + "`"@, name, offset);
    lemma_own(w, a, scope, name, offset, answered(a, Seq::empty(), Err(e)));
    e
}

/// A name that is asked for while it is being resolved depends on itself, which is an error.
pub proof fn law_circular_name(w: Driver, a: Seq<Inner>, scope: usize, name: Seq<char>, offset: usize) -> (e: Failure)
    requires
        cut(name, '.') is None,
        inner_of(a, scope).in_progress.contains(name),
    ensures
        comes_to(w, a, Question::Meaning { scope, specifier: name, offset }, a, Err(e)),
        e.kind == ExecErrorKind::CannotResolveSymbol,
        e.message == "circular dependency when resolving `"@ + name + "`"@,
        e.start == offset,
{
    let e = symbol_failure("circular dependency when resolving `"@ + name + "`"@, name, offset);
    let s = asked(a, Seq::empty(), Question::Meaning { scope, specifier: name, offset });
    lemma_step(w, s);
    assert(driven(w, s) == answered(a, Seq::empty(), Err(e)));
    e
}

/// The scope of what an import brings: that of the module, which finds its own imports with
/// the resolvers of the scope that imports it, from where it was found itself.
pub open spec fn brought_scope(inner: Inner, resolution: ImportResolution, id: usize, module: Inner) -> bool {
    let own = module_inner(resolution.module, resolution.content@, id);
    &&& module.resolvers == inner.resolvers
    &&& module.context == resolution.context.deep_view()
    &&& module.unresolved == own.unresolved && module.imports == own.imports && module.scopes == own.scopes
    &&& module.deep_overrides == own.deep_overrides && module.overrides == own.overrides
    &&& module.resolved == own.resolved && module.in_progress == own.in_progress
    &&& module.parent == own.parent && module.content == own.content && module.start == own.start && module.end == own.end
}

proof fn lemma_imports_fail(
    w: Driver,
    a: Seq<Inner>,
    scope: usize,
    name: Seq<char>,
    direct: bool,
    from: Seq<char>,
    k: int,
)
    requires
        0 <= k < inner_of(a, scope).resolvers.len() <= usize::MAX,
        forall|j: int|
            0 <= j < k ==> (w.import)(#[trigger] inner_of(a, scope).resolvers[j], from, inner_of(a, scope).context) is Err,
    ensures
        reaches(
            w,
            State { arena: a, stack: Seq::empty(), next: Next::Import { scope, specifier: name, direct, from, index: 0 } },
            State {
                arena: a,
                stack: Seq::empty(),
                next: Next::Import { scope, specifier: name, direct, from, index: k as usize },
            },
        ),
    decreases k,
{
    let none = Seq::<Waiting>::empty();
    let start = State { arena: a, stack: none, next: Next::Import { scope, specifier: name, direct, from, index: 0 } };
    let end = State { arena: a, stack: none, next: Next::Import { scope, specifier: name, direct, from, index: k as usize } };
    if k == 0 {
        assert(run(w, start, 0) == end);
    } else {
        let before = State {
            arena: a,
            stack: none,
            next: Next::Import { scope, specifier: name, direct, from, index: (k - 1) as usize },
        };
        lemma_imports_fail(w, a, scope, name, direct, from, k - 1);
        lemma_step(w, before);
        assert((w.import)(inner_of(a, scope).resolvers[k - 1], from, inner_of(a, scope).context) is Err);
        assert(driven(w, before) == end);
        lemma_reaches_on(w, start, before, end);
    }
}

/// A name that is imported stands for what it stands for in the module that the first of the
/// scope's resolvers finds; one that the whole module is imported as stands for the module.
pub proof fn law_imported_name(
    w: Driver,
    a: Seq<Inner>,
    scope: usize,
    name: Seq<char>,
    offset: usize,
    direct: bool,
    from: Seq<char>,
    k: int,
    resolution: ImportResolution,
    module: Inner,
    b: Seq<Inner>,
    answer: Result<Meaning, Failure>,
)
    requires
        free(a, scope, name),
        unbound(inner_of(a, scope), name),
        inner_of(a, scope).parent is None,
        name.len() > 0,
        found(inner_of(a, scope).imports, name) == Some((direct, from)),
        0 <= k < inner_of(a, scope).resolvers.len() <= usize::MAX,
        forall|j: int|
            0 <= j < k ==> (w.import)(#[trigger] inner_of(a, scope).resolvers[j], from, inner_of(a, scope).context) is Err,
        (w.import)(inner_of(a, scope).resolvers[k], from, inner_of(a, scope).context) == Ok::<
            ImportResolution,
            ExecError,
        >(resolution),
        a.len() < usize::MAX,
        brought_scope(inner_of(a, scope), resolution, a.len() as usize, module),
        comes_to(
            w,
            a.push(module),
            Question::Meaning {
                scope: a.len() as usize,
                specifier: if direct {
                    name
                } else {
                    Seq::empty()
                },
                offset: 0,
            },
            b,
            answer,
        ),
    ensures
        comes_to(w, a, Question::Meaning { scope, specifier: name, offset }, b, answer),
{
    let none = Seq::<Waiting>::empty();
    let start = asked(a, none, Question::Meaning { scope, specifier: name, offset });
    let first = State { arena: a, stack: none, next: Next::Import { scope, specifier: name, direct, from, index: 0 } };
    let there = State {
        arena: a,
        stack: none,
        next: Next::Import { scope, specifier: name, direct, from, index: k as usize },
    };
    let inside = asked(
        a.push(module),
        none,
        Question::Meaning {
            scope: a.len() as usize,
            specifier: if direct {
                name
            } else {
                Seq::empty()
            },
            offset: 0,
        },
    );
    lemma_own(w, a, scope, name, offset, first);
    lemma_imports_fail(w, a, scope, name, direct, from, k);
    lemma_step(w, there);
    let own = module_inner(resolution.module, resolution.content@, a.len() as usize);
    assert(module == (Inner {
        resolvers: inner_of(a, scope).resolvers,
        context: resolution.context.deep_view(),
        ..own
    }));
    assert(driven(w, there) == inside);
    lemma_reaches_on(w, start, first, there);
    lemma_reaches_on(w, start, there, inside);
    lemma_reaches_on(w, start, inside, answered(b, none, answer));
}

/// An import that no resolver finds fails as the last of them does.
pub proof fn law_import_not_found(
    w: Driver,
    a: Seq<Inner>,
    scope: usize,
    name: Seq<char>,
    offset: usize,
    direct: bool,
    from: Seq<char>,
    e: ExecError,
)
    requires
        free(a, scope, name),
        unbound(inner_of(a, scope), name),
        inner_of(a, scope).parent is None,
        name.len() > 0,
        found(inner_of(a, scope).imports, name) == Some((direct, from)),
        0 < inner_of(a, scope).resolvers.len() <= usize::MAX,
        forall|j: int|
            0 <= j < inner_of(a, scope).resolvers.len() ==> (w.import)(
                #[trigger] inner_of(a, scope).resolvers[j],
                from,
                inner_of(a, scope).context,
            ) is Err,
        (w.import)(inner_of(a, scope).resolvers.last(), from, inner_of(a, scope).context) == Err::<ImportResolution, _>(e),
    ensures
        comes_to(w, a, Question::Meaning { scope, specifier: name, offset }, a, Err(e.deep_view())),
{
    let none = Seq::<Waiting>::empty();
    let k = inner_of(a, scope).resolvers.len() - 1;
    let start = asked(a, none, Question::Meaning { scope, specifier: name, offset });
    let first = State { arena: a, stack: none, next: Next::Import { scope, specifier: name, direct, from, index: 0 } };
    let there = State {
        arena: a,
        stack: none,
        next: Next::Import { scope, specifier: name, direct, from, index: k as usize },
    };
    lemma_own(w, a, scope, name, offset, first);
    lemma_imports_fail(w, a, scope, name, direct, from, k);
    lemma_step(w, there);
    assert(driven(w, there) == answered(a, none, Err(e.deep_view())));
    lemma_reaches_on(w, start, first, there);
    lemma_reaches_on(w, start, there, answered(a, none, Err(e.deep_view())));
}

/// `c` once it is known that `name` stands for `meaning` in a scope.
pub open spec fn learned(c: Seq<Inner>, scope: usize, name: Seq<char>, meaning: Meaning) -> Seq<Inner> {
    let inner = inner_of(c, scope);
    with_inner(c, scope, Inner { resolved: with_row(inner.resolved, name, meaning), ..inner })
}

/// Whether resolving the names `deps` in a scope, one after the other, comes to `all`, beside
/// what is in `known` already, and leaves the scopes `b`.
pub open spec fn gathers(
    w: Driver,
    a: Seq<Inner>,
    scope: usize,
    deps: Seq<(Seq<char>, usize)>,
    known: Seq<(Seq<char>, Meaning)>,
    b: Seq<Inner>,
    all: Seq<(Seq<char>, Meaning)>,
) -> bool
    decreases deps.len(),
{
    if deps.len() == 0 {
        a == b && known == all
    } else {
        exists|c: Seq<Inner>, meaning: Meaning| #[trigger]
            gathers_first(w, a, scope, deps, c, meaning) && gathers(
                w,
                learned(c, scope, deps[0].0, meaning),
                scope,
                deps.skip(1),
                with_row(known, deps[0].0, meaning),
                b,
                all,
            )
    }
}

/// Whether the first of `deps` stands for `meaning` in a scope.
pub open spec fn gathers_first(
    w: Driver,
    a: Seq<Inner>,
    scope: usize,
    deps: Seq<(Seq<char>, usize)>,
    c: Seq<Inner>,
    meaning: Meaning,
) -> bool {
    comes_to(w, a, Question::Meaning { scope, specifier: deps[0].0, offset: deps[0].1 }, c, Ok(meaning))
}

proof fn lemma_gathered(
    w: Driver,
    a: Seq<Inner>,
    scope: usize,
    name: Seq<char>,
    expr: usize,
    deps: Seq<(Seq<char>, usize)>,
    known: Seq<(Seq<char>, Meaning)>,
    b: Seq<Inner>,
    all: Seq<(Seq<char>, Meaning)>,
)
    requires
        gathers(w, a, scope, deps, known, b, all),
    ensures
        reaches(
            w,
            State { arena: a, stack: Seq::empty(), next: Next::Dependencies { scope, specifier: name, expr, deps, resolved: known } },
            State {
                arena: b,
                stack: Seq::empty(),
                next: Next::Dependencies { scope, specifier: name, expr, deps: Seq::empty(), resolved: all },
            },
        ),
    decreases deps.len(),
{
    let none = Seq::<Waiting>::empty();
    let start = State { arena: a, stack: none, next: Next::Dependencies { scope, specifier: name, expr, deps, resolved: known } };
    let end = State {
        arena: b,
        stack: none,
        next: Next::Dependencies { scope, specifier: name, expr, deps: Seq::empty(), resolved: all },
    };
    if deps.len() == 0 {
        assert(deps =~= Seq::empty());
        assert(run(w, start, 0) == end);
    } else {
        let (c, meaning) = choose|c: Seq<Inner>, meaning: Meaning| #[trigger]
            gathers_first(w, a, scope, deps, c, meaning) && gathers(
                w,
                learned(c, scope, deps[0].0, meaning),
                scope,
                deps.skip(1),
                with_row(known, deps[0].0, meaning),
                b,
                all,
            );
        let rest = deps.skip(1);
        let waiting = none.push(
            Waiting::Dependency { scope, specifier: name, expr, name: deps[0].0, deps: rest, resolved: known },
        );
        let ask = Question::Meaning { scope, specifier: deps[0].0, offset: deps[0].1 };
        lemma_step(w, start);
        assert(driven(w, start) == asked(a, waiting, ask));
        lemma_ask(w, a, waiting, ask, c, Ok(meaning));
        lemma_reaches_on(w, start, asked(a, waiting, ask), answered(c, waiting, Ok(meaning)));
        let further = State {
            arena: learned(c, scope, deps[0].0, meaning),
            stack: none,
            next: Next::Dependencies {
                scope,
                specifier: name,
                expr,
                deps: rest,
                resolved: with_row(known, deps[0].0, meaning),
            },
        };
        lemma_step(w, answered(c, waiting, Ok(meaning)));
        assert(waiting.drop_last() =~= none);
        assert(driven(w, answered(c, waiting, Ok(meaning))) == further);
        lemma_reaches_on(w, start, answered(c, waiting, Ok(meaning)), further);
        lemma_gathered(
            w,
            learned(c, scope, deps[0].0, meaning),
            scope,
            name,
            expr,
            rest,
            with_row(known, deps[0].0, meaning),
            b,
            all,
        );
        lemma_reaches_on(w, start, further, end);
    }
}

/// A name that is bound to an expression stands for what the expression evaluates to, once
/// each name that it depends on is resolved: in the scope that binds it, and while the name
/// itself is marked as being resolved.
pub proof fn law_bound_name(
    w: Driver,
    a: Seq<Inner>,
    scope: usize,
    name: Seq<char>,
    offset: usize,
    expr: usize,
    b: Seq<Inner>,
    all: Seq<(Seq<char>, Meaning)>,
)
    requires
        free(a, scope, name),
        found(inner_of(a, scope).resolved, name) is None,
        found(inner_of(a, scope).unresolved, name) == Some(expr),
        gathers(w, begun(a, scope, name), scope, (w.dependencies)(expr), Seq::empty(), b, all),
    ensures
        ({
            let (c, answer) = (w.evaluate)(ended(b, scope, name), scope, expr, all);
            comes_to(w, a, Question::Meaning { scope, specifier: name, offset }, c, answer)
        }),
{
    let none = Seq::<Waiting>::empty();
    let start = asked(a, none, Question::Meaning { scope, specifier: name, offset });
    let chosen = State { arena: a, stack: none, next: Next::Evaluate { scope, specifier: name, expr } };
    let deps = (w.dependencies)(expr);
    let first = State {
        arena: begun(a, scope, name),
        stack: none,
        next: Next::Dependencies { scope, specifier: name, expr, deps, resolved: Seq::empty() },
    };
    let last = State {
        arena: b,
        stack: none,
        next: Next::Dependencies { scope, specifier: name, expr, deps: Seq::empty(), resolved: all },
    };
    let (c, answer) = (w.evaluate)(ended(b, scope, name), scope, expr, all);
    lemma_own(w, a, scope, name, offset, chosen);
    lemma_step(w, chosen);
    assert(driven(w, chosen) == first);
    lemma_gathered(w, begun(a, scope, name), scope, name, expr, deps, Seq::empty(), b, all);
    lemma_step(w, last);
    assert(driven(w, last) == answered(c, none, answer));
    lemma_reaches_on(w, start, chosen, first);
    lemma_reaches_on(w, start, first, last);
    lemma_reaches_on(w, start, last, answered(c, none, answer));
}

/// An expression is evaluated with every name that it depends on, and with what that stands
/// for.
pub proof fn law_gathered_all(
    w: Driver,
    a: Seq<Inner>,
    scope: usize,
    deps: Seq<(Seq<char>, usize)>,
    known: Seq<(Seq<char>, Meaning)>,
    b: Seq<Inner>,
    all: Seq<(Seq<char>, Meaning)>,
    name: Seq<char>,
)
    requires
        gathers(w, a, scope, deps, known, b, all),
    ensures
        found(known, name) is Some || (exists|k: int| 0 <= k < deps.len() && (#[trigger] deps[k]).0 == name) <==> found(
            all,
            name,
        ) is Some,
    decreases deps.len(),
{
    if deps.len() > 0 {
        let (c, meaning) = choose|c: Seq<Inner>, meaning: Meaning| #[trigger]
            gathers_first(w, a, scope, deps, c, meaning) && gathers(
                w,
                learned(c, scope, deps[0].0, meaning),
                scope,
                deps.skip(1),
                with_row(known, deps[0].0, meaning),
                b,
                all,
            );
        law_with_row(known, deps[0].0, meaning, name);
        law_gathered_all(
            w,
            learned(c, scope, deps[0].0, meaning),
            scope,
            deps.skip(1),
            with_row(known, deps[0].0, meaning),
            b,
            all,
            name,
        );
        let rest = deps.skip(1);
        if exists|k: int| 0 <= k < deps.len() && (#[trigger] deps[k]).0 == name {
            let k = choose|k: int| 0 <= k < deps.len() && (#[trigger] deps[k]).0 == name;
            if k > 0 {
                assert(rest[k - 1].0 == name);
            }
        }
        if exists|k: int| 0 <= k < rest.len() && (#[trigger] rest[k]).0 == name {
            let k = choose|k: int| 0 <= k < rest.len() && (#[trigger] rest[k]).0 == name;
            assert(deps[k + 1].0 == name);
        }
    }
}

/// A path whose first name stands for a value, and not for a scope, cannot be walked: the
/// error says what kind of value it is.
pub proof fn law_no_scope_to_enter(
    w: Driver,
    a: Seq<Inner>,
    scope: usize,
    first: Seq<char>,
    rest: Seq<char>,
    offset: usize,
    b: Seq<Inner>,
    value: Node,
) -> (e: Failure)
    requires
        !has_char(first, '.'),
        found(inner_of(a, scope).scopes, first) is None,
        comes_to(w, a, Question::Meaning { scope, specifier: first, offset }, b, Ok(Meaning::Value(value))),
    ensures
        comes_to(w, a, Question::Meaning { scope, specifier: first + seq!['.'] + rest, offset }, b, Err(e)),
        e.kind == ExecErrorKind::CannotResolveSymbol,
        e.message == "unable to access inside of this (it's "@ + kind_name(w.names, value) + ")"@,
        e.start == offset,
{
    let none = Seq::<Waiting>::empty();
    let e = symbol_failure("unable to access inside of this (it's "@ + kind_name(w.names, value) + ")"@, first, offset);
    let start = asked(a, none, Question::Meaning { scope, specifier: first + seq!['.'] + rest, offset });
    let one = none.push(Waiting::Member { offset: plus(offset as int, utf8(first).len() as int), suffix: rest });
    let two = one.push(Waiting::Inside { ident: first, offset });
    let ask = Question::Meaning { scope, specifier: first, offset };
    lemma_cut(first, '.', rest);
    lemma_step(w, start);
    assert(driven(w, start) == asked(a, two, ask));
    lemma_ask(w, a, two, ask, b, Ok(Meaning::Value(value)));
    let got = answered(b, two, Ok(Meaning::Value(value)));
    lemma_reaches_on(w, start, asked(a, two, ask), got);
    lemma_step(w, got);
    assert(two.drop_last() =~= one);
    assert(driven(w, got) == answered(b, one, Err(e)));
    lemma_reaches_on(w, start, got, answered(b, one, Err(e)));
    lemma_step(w, answered(b, one, Err(e)));
    assert(one.drop_last() =~= none);
    assert(driven(w, answered(b, one, Err(e))) == answered(b, none, Err(e)));
    lemma_reaches_on(w, start, answered(b, one, Err(e)), answered(b, none, Err(e)));
    e
}

/// The scope of a module has the value of the module, where it has one, under the empty
/// name, and is about the module's part of the content.
pub proof fn law_module_scope(m: Module, content: Seq<char>, id: usize)
    ensures
        m.value matches Some(value) ==> found(module_inner(m, content, id).unresolved, Seq::empty()) == Some(value.id),
{
    if let Some(value) = m.value {
        let bound = with_bindings(
            with_imports(
                empty_inner(content, m.start, m.end),
                m.imports.deep_view(),
                m.imports.deep_view().len() as int,
            ),
            id,
            m.bindings.deep_view(),
            m.bindings.deep_view().len() as int,
        );
        law_with_row(bound.unresolved, Seq::<char>::empty(), value.id, Seq::<char>::empty());
    }
}

} // verus!
