//! Evaluation: how a name of a module is resolved to a value.
//!
//! Resolving a name needs answers from outside of the scopes: which names an
//! expression depends on, what it evaluates to, and what an import brings. An
//! `Evaluation` therefore goes in steps. Each step takes an answer, if the step
//! before asked for one, and says what is needed next.

use vstd::prelude::*;

use crate::ccl::scope::{
    inner_of, keys_of, module_inner, walked, with_inner, Arena, Expression, Inner, Meaning, Module, Scope, ValueOrScope,
};
use crate::digest::{byte_length, utf8};
use crate::table::{found, placed, place, with_row, Table};
use crate::text::{before, cat3, cut, holds_text, keep, same, split_once, Duplicate};
use crate::value::{table, ConfigTable, ConfigValue, Node};

verus! {

/// What is wrong at a place in the content.
pub struct Problem {
    pub message: String,
    pub start: usize,
    pub end: usize,
}

pub enum ExecError {
    CannotResolveSymbol(Problem),
    OperatorWithInvalidType(Problem),
    ArraysCannotContainDictionaries(Problem),
    ImportResolutionError(String),
    ImportParsingError(Problem),
}

/// The kinds of errors of an evaluation.
#[derive(Clone, Copy, Debug, PartialEq, Eq, Structural)]
pub enum ExecErrorKind {
    CannotResolveSymbol,
    OperatorWithInvalidType,
    ArraysCannotContainDictionaries,
    ImportResolutionError,
    ImportParsingError,
}

/// What an `ExecError` says: its kind, its message, and the place that it is
/// about.
#[verifier::ext_equal]
pub struct Failure {
    pub kind: ExecErrorKind,
    pub message: Seq<char>,
    pub start: usize,
    pub end: usize,
}

impl DeepView for ExecError {
    type V = Failure;

    open spec fn deep_view(&self) -> Failure {
        match self {
            ExecError::CannotResolveSymbol(p) => failure(ExecErrorKind::CannotResolveSymbol, *p),
            ExecError::OperatorWithInvalidType(p) => failure(ExecErrorKind::OperatorWithInvalidType, *p),
            ExecError::ArraysCannotContainDictionaries(p) => failure(
                ExecErrorKind::ArraysCannotContainDictionaries,
                *p,
            ),
            ExecError::ImportResolutionError(message) => Failure {
                kind: ExecErrorKind::ImportResolutionError,
                message: message@,
                start: 0,
                end: 0,
            },
            ExecError::ImportParsingError(p) => failure(ExecErrorKind::ImportParsingError, *p),
        }
    }
}

pub open spec fn failure(kind: ExecErrorKind, p: Problem) -> Failure {
    Failure { kind, message: p.message@, start: p.start, end: p.end }
}

impl Duplicate for Problem {
    fn duplicate(&self) -> (r: Self) {
        Problem { message: self.message.clone(), start: self.start, end: self.end }
    }
}

/// What a `Problem` says.
impl DeepView for Problem {
    type V = (Seq<char>, usize, usize);

    open spec fn deep_view(&self) -> (Seq<char>, usize, usize) {
        (self.message@, self.start, self.end)
    }
}

impl Duplicate for ExecError {
    fn duplicate(&self) -> (r: Self) {
        match self {
            ExecError::CannotResolveSymbol(p) => ExecError::CannotResolveSymbol(p.duplicate()),
            ExecError::OperatorWithInvalidType(p) => ExecError::OperatorWithInvalidType(p.duplicate()),
            ExecError::ArraysCannotContainDictionaries(p) => ExecError::ArraysCannotContainDictionaries(p.duplicate()),
            ExecError::ImportResolutionError(message) => ExecError::ImportResolutionError(message.clone()),
            ExecError::ImportParsingError(p) => ExecError::ImportParsingError(p.duplicate()),
        }
    }
}

impl ExecError {
    /// What to show of the error: `shown` is how its place in the content is
    /// shown, for an error that has one.
    pub fn render(&self, shown: &str) -> (r: String)
        ensures
            r@ == (if self.deep_view().kind == ExecErrorKind::ImportResolutionError {
                self.deep_view().message
            } else {
                shown@
            }),
    {
        match self {
            ExecError::ImportResolutionError(message) => message.clone(),
            _ => shown.to_owned(),
        }
    }
}

pub type Answer = Result<ValueOrScope, ExecError>;

/// What an answer says.
pub open spec fn told(answer: Answer) -> Result<Meaning, Failure> {
    match answer {
        Ok(meaning) => Ok(meaning.deep_view()),
        Err(e) => Err(e.deep_view()),
    }
}

fn copy_answer(answer: &Answer) -> (r: Answer)
    ensures
        told(r) == told(*answer),
{
    match answer {
        Ok(meaning) => Ok(meaning.duplicate()),
        Err(e) => Err(e.duplicate()),
    }
}

/// How the kinds of values are called in messages.
pub struct TypeNames {
    pub string: String,
    pub boolean: String,
    pub number: String,
    pub array: String,
    pub dictionary: String,
    pub null: String,
}

/// How the kind of `value` is called.
pub open spec fn kind_name(names: TypeNames, value: Node) -> Seq<char> {
    match value {
        Node::Text(_) | Node::Date(_) => names.string@,
        Node::Bool(_) => names.boolean@,
        Node::Number(_) | Node::Integer(_) => names.number@,
        Node::Array(_) => names.array@,
        Node::Table(_) => names.dictionary@,
        Node::Null => names.null@,
    }
}

fn name_of_type(names: &TypeNames, value: &ConfigValue) -> (r: String)
    ensures
        r@ == kind_name(*names, value.deep_view()),
{
    match value {
        ConfigValue::String(_) | ConfigValue::Date(_) => names.string.clone(),
        ConfigValue::Bool(_) => names.boolean.clone(),
        ConfigValue::Number(_) | ConfigValue::Integer(_) => names.number.clone(),
        ConfigValue::Array(_) => names.array.clone(),
        ConfigValue::Table(_) => names.dictionary.clone(),
        ConfigValue::Null => names.null.clone(),
    }
}

/// `a + b`, or the greatest number there is.
pub open spec fn plus(a: int, b: int) -> usize {
    if a + b <= usize::MAX {
        (a + b) as usize
    } else {
        usize::MAX
    }
}

fn add_up(a: usize, b: usize) -> (r: usize)
    ensures
        r == plus(a as int, b as int),
{
    if a <= usize::MAX - b {
        a + b
    } else {
        usize::MAX
    }
}

/// The failure to resolve `specifier`, which stands at `offset`.
pub open spec fn symbol_failure(message: Seq<char>, specifier: Seq<char>, offset: usize) -> Failure {
    Failure {
        kind: ExecErrorKind::CannotResolveSymbol,
        message,
        start: offset,
        end: plus(offset as int, utf8(specifier).len() as int),
    }
}

fn symbol_error(message: String, specifier: &str, offset: usize) -> (r: ExecError)
    ensures
        r.deep_view() == symbol_failure(message@, specifier@, offset),
{
    ExecError::CannotResolveSymbol(
        Problem { message, start: offset, end: add_up(offset, byte_length(specifier)) },
    )
}

/// What waits for the answer to what is being resolved.
pub enum Frame {
    /// The scope that `ident` stands for was asked for.
    Inside { ident: String, offset: usize },
    /// A scope was asked for, to resolve `suffix` in it.
    Member { offset: usize, suffix: String },
    /// The expression that overrides `specifier` was asked for.
    DeepOverride { scope: Scope, specifier: String },
    /// `current`, which overrides the scope, was asked what the name stands for.
    Override { scope: Scope, specifier: String, offset: usize, current: Scope, rest: Vec<Scope> },
    /// It was asked for the name's value, to see whether `result` is to be taken.
    OverrideValue { scope: Scope, specifier: String, offset: usize, rest: Vec<Scope>, result: Answer },
    /// What the name stands for was asked for, to make a value of it.
    Value { scope: Scope, specifier: String },
    /// The value under `key` was asked for, as one of a dictionary.
    Entry { scope: Scope, key: String, keys: Vec<String>, out: ConfigTable },
    /// A name that an expression depends on was asked for.
    Dependency {
        scope: Scope,
        specifier: String,
        expr: Expression,
        name: String,
        deps: Vec<(String, usize)>,
        resolved: Table<ValueOrScope>,
    },
}

/// What a `Frame` says.
#[verifier::ext_equal]
pub enum Waiting {
    Inside { ident: Seq<char>, offset: usize },
    Member { offset: usize, suffix: Seq<char> },
    DeepOverride { scope: usize, specifier: Seq<char> },
    Override { scope: usize, specifier: Seq<char>, offset: usize, current: usize, rest: Seq<usize> },
    OverrideValue {
        scope: usize,
        specifier: Seq<char>,
        offset: usize,
        rest: Seq<usize>,
        result: Result<Meaning, Failure>,
    },
    Value { scope: usize, specifier: Seq<char> },
    Entry { scope: usize, key: Seq<char>, keys: Seq<Seq<char>>, out: Seq<(Seq<char>, Node)> },
    Dependency {
        scope: usize,
        specifier: Seq<char>,
        expr: usize,
        name: Seq<char>,
        deps: Seq<(Seq<char>, usize)>,
        resolved: Seq<(Seq<char>, Meaning)>,
    },
}

impl DeepView for Frame {
    type V = Waiting;

    open spec fn deep_view(&self) -> Waiting {
        match self {
            Frame::Inside { ident, offset } => Waiting::Inside { ident: ident@, offset: *offset },
            Frame::Member { offset, suffix } => Waiting::Member { offset: *offset, suffix: suffix@ },
            Frame::DeepOverride { scope, specifier } => Waiting::DeepOverride { scope: scope.id, specifier: specifier@ },
            Frame::Override { scope, specifier, offset, current, rest } => Waiting::Override {
                scope: scope.id,
                specifier: specifier@,
                offset: *offset,
                current: current.id,
                rest: rest.deep_view(),
            },
            Frame::OverrideValue { scope, specifier, offset, rest, result } => Waiting::OverrideValue {
                scope: scope.id,
                specifier: specifier@,
                offset: *offset,
                rest: rest.deep_view(),
                result: told(*result),
            },
            Frame::Value { scope, specifier } => Waiting::Value { scope: scope.id, specifier: specifier@ },
            Frame::Entry { scope, key, keys, out } => Waiting::Entry {
                scope: scope.id,
                key: key@,
                keys: keys.deep_view(),
                out: out.deep_view(),
            },
            Frame::Dependency { scope, specifier, expr, name, deps, resolved } => Waiting::Dependency {
                scope: scope.id,
                specifier: specifier@,
                expr: expr.id,
                name: name@,
                deps: deps.deep_view(),
                resolved: resolved.deep_view(),
            },
        }
    }
}

/// What an evaluation does next.
pub enum Pending {
    /// Resolve a name in a scope.
    Resolve { scope: Scope, specifier: String, offset: usize },
    /// Ask the scopes `rest` that override the scope.
    Overrides { scope: Scope, specifier: String, offset: usize, rest: Vec<Scope> },
    /// Look among the scope's own names.
    Own { scope: Scope, specifier: String, offset: usize },
    /// Evaluate an expression in a scope.
    Evaluate { scope: Scope, specifier: String, expr: Expression },
    /// Take the names that the expression depends on.
    AwaitDependencies { scope: Scope, specifier: String, expr: Expression },
    /// Resolve the names `rest` that the expression depends on.
    Dependencies {
        scope: Scope,
        specifier: String,
        expr: Expression,
        deps: Vec<(String, usize)>,
        resolved: Table<ValueOrScope>,
    },
    /// Take what an expression evaluates to.
    AwaitEvaluation,
    /// Ask the resolver `index` of the scope for an import.
    Import { scope: Scope, specifier: String, direct: bool, from: String, index: usize },
    /// Take what the resolver answers.
    AwaitImport { scope: Scope, specifier: String, direct: bool, from: String, index: usize },
    /// Make a dictionary of the values under `keys`.
    Collect { scope: Scope, keys: Vec<String>, out: ConfigTable },
    /// Hand the answer to what waits for it.
    Answer(Answer),
}

/// What a `Pending` says.
#[verifier::ext_equal]
pub enum Next {
    Resolve { scope: usize, specifier: Seq<char>, offset: usize },
    Overrides { scope: usize, specifier: Seq<char>, offset: usize, rest: Seq<usize> },
    Own { scope: usize, specifier: Seq<char>, offset: usize },
    Evaluate { scope: usize, specifier: Seq<char>, expr: usize },
    AwaitDependencies { scope: usize, specifier: Seq<char>, expr: usize },
    Dependencies {
        scope: usize,
        specifier: Seq<char>,
        expr: usize,
        deps: Seq<(Seq<char>, usize)>,
        resolved: Seq<(Seq<char>, Meaning)>,
    },
    AwaitEvaluation,
    Import { scope: usize, specifier: Seq<char>, direct: bool, from: Seq<char>, index: usize },
    AwaitImport { scope: usize, specifier: Seq<char>, direct: bool, from: Seq<char>, index: usize },
    Collect { scope: usize, keys: Seq<Seq<char>>, out: Seq<(Seq<char>, Node)> },
    Answer(Result<Meaning, Failure>),
}

impl DeepView for Pending {
    type V = Next;

    open spec fn deep_view(&self) -> Next {
        match self {
            Pending::Resolve { scope, specifier, offset } => Next::Resolve {
                scope: scope.id,
                specifier: specifier@,
                offset: *offset,
            },
            Pending::Overrides { scope, specifier, offset, rest } => Next::Overrides {
                scope: scope.id,
                specifier: specifier@,
                offset: *offset,
                rest: rest.deep_view(),
            },
            Pending::Own { scope, specifier, offset } => Next::Own {
                scope: scope.id,
                specifier: specifier@,
                offset: *offset,
            },
            Pending::Evaluate { scope, specifier, expr } => Next::Evaluate {
                scope: scope.id,
                specifier: specifier@,
                expr: expr.id,
            },
            Pending::AwaitDependencies { scope, specifier, expr } => Next::AwaitDependencies {
                scope: scope.id,
                specifier: specifier@,
                expr: expr.id,
            },
            Pending::Dependencies { scope, specifier, expr, deps, resolved } => Next::Dependencies {
                scope: scope.id,
                specifier: specifier@,
                expr: expr.id,
                deps: deps.deep_view(),
                resolved: resolved.deep_view(),
            },
            Pending::AwaitEvaluation => Next::AwaitEvaluation,
            Pending::Import { scope, specifier, direct, from, index } => Next::Import {
                scope: scope.id,
                specifier: specifier@,
                direct: *direct,
                from: from@,
                index: *index,
            },
            Pending::AwaitImport { scope, specifier, direct, from, index } => Next::AwaitImport {
                scope: scope.id,
                specifier: specifier@,
                direct: *direct,
                from: from@,
                index: *index,
            },
            Pending::Collect { scope, keys, out } => Next::Collect {
                scope: scope.id,
                keys: keys.deep_view(),
                out: out.deep_view(),
            },
            Pending::Answer(answer) => Next::Answer(told(*answer)),
        }
    }
}

/// What an import brings: a module, its content, and where it was found.
pub struct ImportResolution {
    pub module: Module,
    pub content: String,
    pub context: Option<String>,
}

/// What an evaluation is told.
pub enum Event {
    /// Nothing: it goes on.
    Go,
    /// The names that the expression depends on, with their places.
    Dependencies(Vec<(String, usize)>),
    /// What the expression evaluates to.
    Evaluated(Answer),
    /// What the import brings.
    Imported(Result<ImportResolution, ExecError>),
}

/// What an evaluation needs next.
pub enum Action {
    /// Nothing: the next step can be taken.
    Go,
    /// The names that an expression depends on.
    Dependencies(Expression),
    /// What an expression evaluates to in a scope, where the names that it
    /// depends on stand for what they were resolved to.
    Evaluate { scope: Scope, expr: Expression, resolved: Table<ValueOrScope> },
    /// What a resolver finds.
    Import { resolver: usize, from: String, context: Option<String> },
    /// Nothing more: this is the result.
    Done(Answer),
}

/// What an `Action` says.
#[verifier::ext_equal]
pub enum Need {
    Go,
    Dependencies(usize),
    Evaluate { scope: usize, expr: usize, resolved: Seq<(Seq<char>, Meaning)> },
    Import { resolver: usize, from: Seq<char>, context: Option<Seq<char>> },
    Done(Result<Meaning, Failure>),
}

impl DeepView for Action {
    type V = Need;

    open spec fn deep_view(&self) -> Need {
        match self {
            Action::Go => Need::Go,
            Action::Dependencies(expr) => Need::Dependencies(expr.id),
            Action::Evaluate { scope, expr, resolved } => Need::Evaluate {
                scope: scope.id,
                expr: expr.id,
                resolved: resolved.deep_view(),
            },
            Action::Import { resolver, from, context } => Need::Import {
                resolver: *resolver,
                from: from@,
                context: context.deep_view(),
            },
            Action::Done(answer) => Need::Done(told(*answer)),
        }
    }
}

/// The resolution of a name, as far as it has come.
pub struct Evaluation {
    pub arena: Arena,
    pub stack: Vec<Frame>,
    pub pending: Pending,
    pub names: TypeNames,
}

/// What an `Evaluation` is: its scopes, what waits for answers, the last to wait
/// last, and what is next.
#[verifier::ext_equal]
pub struct State {
    pub arena: Seq<Inner>,
    pub stack: Seq<Waiting>,
    pub next: Next,
}

impl DeepView for Evaluation {
    type V = State;

    open spec fn deep_view(&self) -> State {
        State { arena: self.arena.deep_view(), stack: self.stack.deep_view(), next: self.pending.deep_view() }
    }
}

/// `arena` with `specifier` marked as being resolved in the scope `id`.
pub open spec fn begun(arena: Seq<Inner>, id: usize, specifier: Seq<char>) -> Seq<Inner> {
    let inner = inner_of(arena, id);
    with_inner(arena, id, Inner { in_progress: placed(inner.in_progress, specifier), ..inner })
}

/// `list` without `x`.
pub open spec fn without(list: Seq<Seq<char>>, x: Seq<char>) -> Seq<Seq<char>>
    decreases list.len(),
{
    if list.len() == 0 {
        Seq::empty()
    } else if list.last() == x {
        without(list.drop_last(), x)
    } else {
        without(list.drop_last(), x).push(list.last())
    }
}

/// `arena` with `specifier` no longer marked as being resolved in the scope `id`.
pub open spec fn ended(arena: Seq<Inner>, id: usize, specifier: Seq<char>) -> Seq<Inner> {
    let inner = inner_of(arena, id);
    with_inner(arena, id, Inner { in_progress: without(inner.in_progress, specifier), ..inner })
}

proof fn lemma_without_first(a: Seq<char>, s: Seq<Seq<char>>, x: Seq<char>)
    ensures
        without(seq![a] + s, x) == (if a == x {
            without(s, x)
        } else {
            seq![a] + without(s, x)
        }),
    decreases s.len(),
{
    let all = seq![a] + s;
    if s.len() == 0 {
        assert(all.drop_last() =~= Seq::empty());
        assert(without(all.drop_last(), x) =~= Seq::empty());
        assert(without(all, x) =~= (if a == x {
            Seq::empty()
        } else {
            seq![a]
        }));
        assert(without(s, x) =~= Seq::empty());
    } else {
        assert(all.drop_last() =~= seq![a] + s.drop_last());
        lemma_without_first(a, s.drop_last(), x);
        assert(without(all, x) =~= (if a == x {
            without(s, x)
        } else {
            seq![a] + without(s, x)
        }));
    }
}

proof fn lemma_without_absent(list: Seq<Seq<char>>, x: Seq<char>)
    requires
        !list.contains(x),
    ensures
        without(list, x) == list,
    decreases list.len(),
{
    if list.len() > 0 {
        assert(list[list.len() - 1] != x);
        assert forall|i: int| 0 <= i < list.drop_last().len() implies list.drop_last()[i] != x by {
            assert(list[i] != x);
        }
        lemma_without_absent(list.drop_last(), x);
        assert(list.drop_last().push(list.last()) =~= list);
    }
}

/// What is placed among others can be taken out again.
pub proof fn lemma_without_placed(list: Seq<Seq<char>>, x: Seq<char>)
    requires
        !list.contains(x),
    ensures
        without(placed(list, x), x) == list,
    decreases list.len(),
{
    if list.len() == 0 {
        lemma_without_first(x, Seq::empty(), x);
        assert(seq![x] + Seq::<Seq<char>>::empty() =~= seq![x]);
        assert(without(Seq::empty(), x) =~= list);
    } else {
        assert(list[0] != x);
        if before(x, list[0]) {
            lemma_without_first(x, list, x);
            lemma_without_absent(list, x);
        } else {
            let tail = list.skip(1);
            assert forall|i: int| 0 <= i < tail.len() implies tail[i] != x by {
                assert(tail[i] == list[i + 1]);
            }
            lemma_without_placed(tail, x);
            lemma_without_first(list[0], placed(tail, x), x);
            assert(seq![list[0]] + tail =~= list);
        }
    }
}

/// Once a name is no longer being resolved, the scopes are as they were before
/// it was.
pub proof fn law_mark_lifted(arena: Seq<Inner>, id: usize, specifier: Seq<char>)
    requires
        id < arena.len(),
        !inner_of(arena, id).in_progress.contains(specifier),
    ensures
        ended(begun(arena, id, specifier), id, specifier) == arena,
{
    lemma_without_placed(inner_of(arena, id).in_progress, specifier);
    assert(ended(begun(arena, id, specifier), id, specifier) =~= arena);
}

/// The step that begins to resolve a name: a path of names goes through the
/// scope of its first name; a name that is being resolved already is circular;
/// an expression that overrides the name decides; and else the scopes that
/// override the scope are asked.
pub open spec fn resolve_step(s: State, scope: usize, specifier: Seq<char>, offset: usize) -> State {
    let inner = inner_of(s.arena, scope);
    match cut(specifier, '.') {
        Some((prefix, suffix)) => match found(inner.scopes, prefix) {
            Some(known) => State {
                next: Next::Resolve {
                    scope: known,
                    specifier: suffix,
                    offset: plus(offset as int, utf8(prefix).len() as int),
                },
                ..s
            },
            None => State {
                stack: s.stack.push(
                    Waiting::Member { offset: plus(offset as int, utf8(prefix).len() as int), suffix },
                ).push(Waiting::Inside { ident: prefix, offset }),
                next: Next::Resolve { scope, specifier: prefix, offset },
                ..s
            },
        },
        None => if inner.in_progress.contains(specifier) {
            State {
                next: Next::Answer(
                    Err(
                        symbol_failure(
                            "circular dependency when resolving `"@ + specifier + "`"@,
                            specifier,
                            offset,
                        ),
                    ),
                ),
                ..s
            }
        } else {
            let marked = begun(s.arena, scope, specifier);
            let direct = match found(inner.deep_overrides, specifier) {
                Some(rows) => found(rows, Seq::empty()),
                None => None,
            };
            match direct {
                Some((within, expr)) => State {
                    arena: marked,
                    stack: s.stack.push(Waiting::DeepOverride { scope, specifier }),
                    next: Next::Evaluate { scope: within, specifier, expr },
                },
                None => State {
                    arena: marked,
                    next: Next::Overrides { scope, specifier, offset, rest: inner.overrides },
                    ..s
                },
            }
        },
    }
}

/// The step that asks the first of the scopes that override the scope; where
/// there is none left, the scope's own names are next.
pub open spec fn overrides_step(s: State, scope: usize, specifier: Seq<char>, offset: usize, rest: Seq<usize>) -> State {
    if rest.len() == 0 {
        State {
            arena: ended(s.arena, scope, specifier),
            next: Next::Own { scope, specifier, offset },
            ..s
        }
    } else {
        State {
            stack: s.stack.push(
                Waiting::Override { scope, specifier, offset, current: rest[0], rest: rest.skip(1) },
            ),
            next: Next::Resolve { scope: rest[0], specifier, offset },
            ..s
        }
    }
}

/// The step that looks among the scope's own names: one that was resolved
/// already, one that is bound to an expression, one of the scope around it; the
/// empty name is the dictionary of all names; and last an imported one.
pub open spec fn own_step(s: State, scope: usize, specifier: Seq<char>, offset: usize) -> State {
    let inner = inner_of(s.arena, scope);
    let unresolved = State {
        next: Next::Answer(
            Err(symbol_failure("unable to resolve identifier `"@ + specifier + "`"@, specifier, offset)),
        ),
        ..s
    };
    match found(inner.resolved, specifier) {
        Some(meaning) => State { next: Next::Answer(Ok(meaning)), ..s },
        None => match found(inner.unresolved, specifier) {
            Some(expr) => State { next: Next::Evaluate { scope, specifier, expr }, ..s },
            None => match inner.parent {
                Some(parent) => State { next: Next::Resolve { scope: parent, specifier, offset }, ..s },
                None => if specifier.len() == 0 {
                    State { next: Next::Collect { scope, keys: keys_of(s.arena, scope), out: Seq::empty() }, ..s }
                } else {
                    match found(inner.imports, specifier) {
                        Some((direct, from)) => if inner.resolvers.len() > 0 {
                            State { next: Next::Import { scope, specifier, direct, from, index: 0 }, ..s }
                        } else {
                            unresolved
                        },
                        None => unresolved,
                    }
                },
            },
        },
    }
}

/// The step that resolves the next name that an expression depends on; once
/// there is none left, the expression is evaluated.
pub open spec fn dependencies_step(
    s: State,
    scope: usize,
    specifier: Seq<char>,
    expr: usize,
    rest: Seq<(Seq<char>, usize)>,
    resolved: Seq<(Seq<char>, Meaning)>,
) -> (State, Need) {
    if rest.len() == 0 {
        (
            State { arena: ended(s.arena, scope, specifier), next: Next::AwaitEvaluation, ..s },
            Need::Evaluate { scope, expr, resolved },
        )
    } else {
        (
            State {
                stack: s.stack.push(
                    Waiting::Dependency { scope, specifier, expr, name: rest[0].0, deps: rest.skip(1), resolved },
                ),
                next: Next::Resolve { scope, specifier: rest[0].0, offset: rest[0].1 },
                ..s
            },
            Need::Go,
        )
    }
}

/// The step that asks for the value under the next key of a dictionary.
pub open spec fn collect_step(s: State, scope: usize, keys: Seq<Seq<char>>, out: Seq<(Seq<char>, Node)>) -> State {
    if keys.len() == 0 {
        State { next: Next::Answer(Ok(Meaning::Value(Node::Table(out)))), ..s }
    } else {
        State {
            stack: s.stack.push(Waiting::Entry { scope, key: keys[0], keys: keys.skip(1), out }).push(
                Waiting::Value { scope, specifier: keys[0] },
            ),
            next: Next::Resolve { scope, specifier: keys[0], offset: 0 },
            ..s
        }
    }
}

/// The step that takes what an import brings: the scope of the module, which
/// resolves its own imports as the importing scope does. A resolver that fails
/// leaves the import to the next one.
pub open spec fn imported_step(
    s: State,
    scope: usize,
    specifier: Seq<char>,
    direct: bool,
    from: Seq<char>,
    index: usize,
    found: Result<ImportResolution, ExecError>,
) -> State {
    let inner = inner_of(s.arena, scope);
    match found {
        Err(e) => if index + 1 >= inner.resolvers.len() {
            State { next: Next::Answer(Err(e.deep_view())), ..s }
        } else {
            State { next: Next::Import { scope, specifier, direct, from, index: (index + 1) as usize }, ..s }
        },
        Ok(resolution) => {
            let id = s.arena.len() as usize;
            let module = Inner {
                resolvers: inner.resolvers,
                context: resolution.context.deep_view(),
                ..module_inner(resolution.module, resolution.content@, id)
            };
            State {
                arena: s.arena.push(module),
                next: Next::Resolve {
                    scope: id,
                    specifier: if direct {
                        specifier
                    } else {
                        Seq::empty()
                    },
                    offset: 0,
                },
                ..s
            }
        },
    }
}

/// The step that hands an answer to what waits for it last.
pub open spec fn answer_step(names: TypeNames, s: State, answer: Result<Meaning, Failure>) -> (State, Need) {
    if s.stack.len() == 0 {
        (s, Need::Done(answer))
    } else {
        let below = State { stack: s.stack.drop_last(), ..s };
        (
            match s.stack.last() {
                Waiting::Inside { ident, offset } => match answer {
                    Ok(Meaning::Value(value)) => State {
                        next: Next::Answer(
                            Err(
                                symbol_failure(
                                    "unable to access inside of this (it's "@ + kind_name(names, value) + ")"@,
                                    ident,
                                    offset,
                                ),
                            ),
                        ),
                        ..below
                    },
                    _ => below,
                },
                Waiting::Member { offset, suffix } => match answer {
                    Ok(Meaning::Scope(scope)) => State {
                        next: Next::Resolve { scope, specifier: suffix, offset },
                        ..below
                    },
                    _ => below,
                },
                Waiting::DeepOverride { scope, specifier } => State {
                    arena: ended(s.arena, scope, specifier),
                    ..below
                },
                Waiting::Override { scope, specifier, offset, current, rest } => State {
                    stack: below.stack.push(
                        Waiting::OverrideValue { scope, specifier, offset, rest, result: answer },
                    ).push(Waiting::Value { scope: current, specifier }),
                    next: Next::Resolve { scope: current, specifier, offset },
                    ..below
                },
                Waiting::OverrideValue { scope, specifier, offset, rest, result } => {
                    let passed_over = match answer {
                        Err(e) => e.kind == ExecErrorKind::CannotResolveSymbol,
                        Ok(_) => false,
                    };
                    if passed_over {
                        State { next: Next::Overrides { scope, specifier, offset, rest }, ..below }
                    } else {
                        State { arena: ended(s.arena, scope, specifier), next: Next::Answer(result), ..below }
                    }
                },
                Waiting::Value { scope, specifier } => match answer {
                    Ok(Meaning::Scope(found_scope)) => {
                        let (arena, id) = walked(s.arena, scope, specifier, found_scope);
                        State {
                            arena,
                            next: Next::Collect { scope: id, keys: keys_of(arena, id), out: Seq::empty() },
                            ..below
                        }
                    },
                    _ => below,
                },
                Waiting::Entry { scope, key, keys, out } => match answer {
                    Ok(Meaning::Value(value)) => State {
                        next: Next::Collect { scope, keys, out: with_row(out, key, value) },
                        ..below
                    },
                    _ => below,
                },
                Waiting::Dependency { scope, specifier, expr, name, deps, resolved } => match answer {
                    Err(e) => below,
                    Ok(meaning) => {
                        let inner = inner_of(s.arena, scope);
                        State {
                            arena: with_inner(
                                s.arena,
                                scope,
                                Inner { resolved: with_row(inner.resolved, name, meaning), ..inner },
                            ),
                            next: Next::Dependencies {
                                scope,
                                specifier,
                                expr,
                                deps,
                                resolved: with_row(resolved, name, meaning),
                            },
                            ..below
                        }
                    },
                },
            },
            Need::Go,
        )
    }
}

/// One step of an evaluation. A step that was not asked for an answer that it
/// needs asks for it and stays where it is.
pub open spec fn stepped(names: TypeNames, s: State, event: Event) -> (State, Need) {
    match s.next {
        Next::Resolve { scope, specifier, offset } => (resolve_step(s, scope, specifier, offset), Need::Go),
        Next::Overrides { scope, specifier, offset, rest } => (
            overrides_step(s, scope, specifier, offset, rest),
            Need::Go,
        ),
        Next::Own { scope, specifier, offset } => (own_step(s, scope, specifier, offset), Need::Go),
        Next::Evaluate { scope, specifier, expr } => (
            State { next: Next::AwaitDependencies { scope, specifier, expr }, ..s },
            Need::Dependencies(expr),
        ),
        Next::AwaitDependencies { scope, specifier, expr } => match event {
            Event::Dependencies(list) => (
                State {
                    arena: begun(s.arena, scope, specifier),
                    next: Next::Dependencies { scope, specifier, expr, deps: list.deep_view(), resolved: Seq::empty() },
                    ..s
                },
                Need::Go,
            ),
            _ => (s, Need::Dependencies(expr)),
        },
        Next::Dependencies { scope, specifier, expr, deps, resolved } => dependencies_step(
            s,
            scope,
            specifier,
            expr,
            deps,
            resolved,
        ),
        Next::AwaitEvaluation => match event {
            Event::Evaluated(answer) => (State { next: Next::Answer(told(answer)), ..s }, Need::Go),
            _ => (s, Need::Go),
        },
        Next::Import { scope, specifier, direct, from, index } => (
            State { next: Next::AwaitImport { scope, specifier, direct, from, index }, ..s },
            Need::Import {
                resolver: resolver_at(inner_of(s.arena, scope), index),
                from,
                context: inner_of(s.arena, scope).context,
            },
        ),
        Next::AwaitImport { scope, specifier, direct, from, index } => match event {
            Event::Imported(found) => (
                imported_step(s, scope, specifier, direct, from, index, found),
                Need::Go,
            ),
            _ => (
                s,
                Need::Import {
                    resolver: resolver_at(inner_of(s.arena, scope), index),
                    from,
                    context: inner_of(s.arena, scope).context,
                },
            ),
        },
        Next::Collect { scope, keys, out } => (collect_step(s, scope, keys, out), Need::Go),
        Next::Answer(answer) => answer_step(names, s, answer),
    }
}

/// The number of the resolver `index` of a scope.
pub open spec fn resolver_at(inner: Inner, index: usize) -> usize {
    if index < inner.resolvers.len() {
        inner.resolvers[index as int]
    } else {
        0
    }
}

fn remove_text(list: &Vec<String>, x: &str) -> (r: Vec<String>)
    ensures
        r.deep_view() == without(list.deep_view(), x@),
{
    let ghost all = list.deep_view();
    let mut out: Vec<String> = Vec::new();
    let mut i: usize = 0;
    assert(out.deep_view() =~= without(all.take(0), x@));
    while i < list.len()
        invariant
            i <= list.len(),
            all == list.deep_view(),
            out.deep_view() == without(all.take(i as int), x@),
        decreases list.len() - i,
    {
        assert(all.take(i + 1).drop_last() =~= all.take(i as int));
        assert(all[i as int] == list@[i as int]@);
        if !same(list[i].as_str(), x) {
            keep(&mut out, list[i].clone());
        }
        i = i + 1;
    }
    assert(all.take(i as int) =~= all);
    out
}

fn begin(arena: &mut Arena, id: usize, specifier: &str)
    ensures
        final(arena).deep_view() == begun(old(arena).deep_view(), id, specifier@),
{
    let mut inner = arena.inner(id);
    place(&mut inner.in_progress_identifiers, specifier.to_owned());
    arena.set(id, inner);
}

fn end(arena: &mut Arena, id: usize, specifier: &str)
    ensures
        final(arena).deep_view() == ended(old(arena).deep_view(), id, specifier@),
{
    let mut inner = arena.inner(id);
    inner.in_progress_identifiers = remove_text(&inner.in_progress_identifiers, specifier);
    arena.set(id, inner);
}

/// The first of `list` and the rest.
fn split_first<T: Duplicate>(list: &Vec<T>) -> (r: (T, Vec<T>))
    requires
        list@.len() > 0,
    ensures
        r.0.deep_view() == list.deep_view()[0],
        r.1.deep_view() == list.deep_view().skip(1),
{
    let first = list[0].duplicate();
    let mut rest = list.duplicate();
    let ghost all = rest.deep_view();
    assert(all.len() == rest@.len() && all.len() == list@.len());
    let _removed = rest.remove(0);
    assert(rest.deep_view() =~= all.skip(1));
    (first, rest)
}

impl Evaluation {
    fn resolve_name(&mut self, scope: Scope, specifier: String, offset: usize)
        ensures
            final(self).deep_view() == resolve_step(old(self).deep_view(), scope.id, specifier@, offset),
            final(self).names == old(self).names,
    {
        let inner = self.arena.inner(scope.id);
        if let Some((prefix, suffix)) = split_once(specifier.as_str(), '.') {
            match inner.scopes.get(prefix.as_str()) {
                Some(known) => {
                    let offset: usize = add_up(offset, byte_length(prefix.as_str()));
                    self.pending = Pending::Resolve { scope: *known, specifier: suffix, offset };
                },
                None => {
                    let further: usize = add_up(offset, byte_length(prefix.as_str()));
                    keep(&mut self.stack, Frame::Member { offset: further, suffix });
                    keep(&mut self.stack, Frame::Inside { ident: prefix.clone(), offset });
                    self.pending = Pending::Resolve { scope, specifier: prefix, offset };
                },
            }
            return;
        }
        if holds_text(&inner.in_progress_identifiers, specifier.as_str()) {
            let message = cat3("circular dependency when resolving `", specifier.as_str(), "`");
            self.pending = Pending::Answer(Err(symbol_error(message, specifier.as_str(), offset)));
            return;
        }
        begin(&mut self.arena, scope.id, specifier.as_str());
        proof {
            reveal_strlit("");
            assert(""@ =~= Seq::empty());
        }
        let direct = match inner.deep_overrides.get(specifier.as_str()) {
            Some(rows) => match rows.get("") {
                Some(found) => Some(*found),
                None => None,
            },
            None => None,
        };
        match direct {
            Some((within, expr)) => {
                keep(&mut self.stack, Frame::DeepOverride { scope, specifier: specifier.clone() });
                self.pending = Pending::Evaluate { scope: within, specifier, expr };
            },
            None => {
                self.pending = Pending::Overrides { scope, specifier, offset, rest: inner.overrides };
            },
        }
    }

    fn ask_overrides(&mut self, scope: Scope, specifier: String, offset: usize, rest: Vec<Scope>)
        ensures
            final(self).deep_view() == overrides_step(
                old(self).deep_view(),
                scope.id,
                specifier@,
                offset,
                rest.deep_view(),
            ),
            final(self).names == old(self).names,
    {
        if rest.len() == 0 {
            end(&mut self.arena, scope.id, specifier.as_str());
            self.pending = Pending::Own { scope, specifier, offset };
        } else {
            let (current, rest) = split_first(&rest);
            keep(&mut self.stack, Frame::Override { scope, specifier: specifier.clone(), offset, current, rest });
            self.pending = Pending::Resolve { scope: current, specifier, offset };
        }
    }

    fn look_inside(&mut self, scope: Scope, specifier: String, offset: usize)
        ensures
            final(self).deep_view() == own_step(old(self).deep_view(), scope.id, specifier@, offset),
            final(self).names == old(self).names,
    {
        let inner = self.arena.inner(scope.id);
        if let Some(meaning) = inner.resolved_identifiers.get(specifier.as_str()) {
            self.pending = Pending::Answer(Ok(meaning.duplicate()));
            return;
        }
        if let Some(expr) = inner.unresolved_identifiers.get(specifier.as_str()) {
            self.pending = Pending::Evaluate { scope, specifier, expr: *expr };
            return;
        }
        if let Some(parent) = inner.parent_scope {
            self.pending = Pending::Resolve { scope: parent, specifier, offset };
            return;
        }
        if specifier.as_str().is_empty() {
            let keys = scope.keys(&self.arena);
            self.pending = Pending::Collect { scope, keys, out: Table::new() };
            return;
        }
        if let Some(import) = inner.unresolved_imports.get(specifier.as_str()) {
            if inner.import_resolvers.len() > 0 {
                let (direct, from) = match import {
                    crate::ccl::scope::ImportedIdentifier::Direct(from) => (true, from.clone()),
                    crate::ccl::scope::ImportedIdentifier::Aliased(from) => (false, from.clone()),
                };
                self.pending = Pending::Import { scope, specifier, direct, from, index: 0 };
                return;
            }
        }
        let message = cat3("unable to resolve identifier `", specifier.as_str(), "`");
        self.pending = Pending::Answer(Err(symbol_error(message, specifier.as_str(), offset)));
    }

    fn next_dependency(
        &mut self,
        scope: Scope,
        specifier: String,
        expr: Expression,
        rest: Vec<(String, usize)>,
        resolved: Table<ValueOrScope>,
    ) -> (r: Action)
        ensures
            (final(self).deep_view(), r.deep_view()) == dependencies_step(
                old(self).deep_view(),
                scope.id,
                specifier@,
                expr.id,
                rest.deep_view(),
                resolved.deep_view(),
            ),
            final(self).names == old(self).names,
    {
        if rest.len() == 0 {
            end(&mut self.arena, scope.id, specifier.as_str());
            self.pending = Pending::AwaitEvaluation;
            Action::Evaluate { scope, expr, resolved }
        } else {
            let ((name, start), rest) = split_first(&rest);
            keep(
                &mut self.stack,
                Frame::Dependency { scope, specifier, expr, name: name.clone(), deps: rest, resolved },
            );
            self.pending = Pending::Resolve { scope, specifier: name, offset: start };
            Action::Go
        }
    }

    fn next_entry(&mut self, scope: Scope, keys: Vec<String>, out: ConfigTable)
        ensures
            final(self).deep_view() == collect_step(
                old(self).deep_view(),
                scope.id,
                keys.deep_view(),
                out.deep_view(),
            ),
            final(self).names == old(self).names,
    {
        if keys.len() == 0 {
            self.pending = Pending::Answer(Ok(ValueOrScope::Value(table(out))));
        } else {
            let (key, rest) = split_first(&keys);
            keep(&mut self.stack, Frame::Entry { scope, key: key.clone(), keys: rest, out });
            keep(&mut self.stack, Frame::Value { scope, specifier: key.clone() });
            self.pending = Pending::Resolve { scope, specifier: key, offset: 0 };
        }
    }

    fn take_import(
        &mut self,
        scope: Scope,
        specifier: String,
        direct: bool,
        from: String,
        index: usize,
        found: Result<ImportResolution, ExecError>,
    )
        ensures
            final(self).deep_view() == imported_step(
                old(self).deep_view(),
                scope.id,
                specifier@,
                direct,
                from@,
                index,
                found,
            ),
            final(self).names == old(self).names,
    {
        let inner = self.arena.inner(scope.id);
        match found {
            Err(e) => {
                if inner.import_resolvers.len() == 0 || index >= inner.import_resolvers.len() - 1 {
                    self.pending = Pending::Answer(Err(e));
                } else {
                    self.pending = Pending::Import { scope, specifier, direct, from, index: index + 1 };
                }
            },
            Ok(resolution) => {
                let ghost before = self.arena.deep_view();
                let module = Scope::from_module(&mut self.arena, &resolution.module, resolution.content);
                module.add_import_resolvers(&mut self.arena, inner.import_resolvers);
                module.set_import_context(&mut self.arena, resolution.context);
                proof {
                    let id = module.id;
                    let expected = Inner {
                        resolvers: inner_of(before, scope.id).resolvers,
                        context: resolution.context.deep_view(),
                        ..module_inner(resolution.module, resolution.content@, id)
                    };
                    assert(self.arena.deep_view() =~= before.push(expected));
                }
                let name = if direct {
                    specifier
                } else {
                    String::new()
                };
                assert(!direct ==> name@ =~= Seq::empty());
                self.pending = Pending::Resolve { scope: module, specifier: name, offset: 0 };
            },
        }
    }

    fn hand_answer(&mut self, answer: Answer) -> (r: Action)
        requires
            old(self).deep_view().next == Next::Answer(told(answer)),
        ensures
            (final(self).deep_view(), r.deep_view()) == answer_step(
                old(self).names,
                old(self).deep_view(),
                told(answer),
            ),
            final(self).names == old(self).names,
    {
        if self.stack.len() == 0 {
            return Action::Done(answer);
        }
        let ghost stack = self.stack.deep_view();
        let frame = self.stack.pop().unwrap();
        assert(self.stack.deep_view() =~= stack.drop_last());
        assert(frame.deep_view() == stack.last());
        match frame {
            Frame::Inside { ident, offset } => match answer {
                Ok(ValueOrScope::Value(value)) => {
                    let message = cat3(
                        "unable to access inside of this (it's ",
                        name_of_type(&self.names, &value).as_str(),
                        ")",
                    );
                    self.pending = Pending::Answer(Err(symbol_error(message, ident.as_str(), offset)));
                },
                _ => {},
            },
            Frame::Member { offset, suffix } => match answer {
                Ok(ValueOrScope::Scope(scope)) => {
                    self.pending = Pending::Resolve { scope, specifier: suffix, offset };
                },
                _ => {},
            },
            Frame::DeepOverride { scope, specifier } => {
                end(&mut self.arena, scope.id, specifier.as_str());
            },
            Frame::Override { scope, specifier, offset, current, rest } => {
                keep(
                    &mut self.stack,
                    Frame::OverrideValue { scope, specifier: specifier.clone(), offset, rest, result: answer },
                );
                keep(&mut self.stack, Frame::Value { scope: current, specifier: specifier.clone() });
                self.pending = Pending::Resolve { scope: current, specifier, offset };
            },
            Frame::OverrideValue { scope, specifier, offset, rest, result } => {
                let passed_over = match &answer {
                    Err(ExecError::CannotResolveSymbol(_)) => true,
                    _ => false,
                };
                if passed_over {
                    self.pending = Pending::Overrides { scope, specifier, offset, rest };
                } else {
                    end(&mut self.arena, scope.id, specifier.as_str());
                    self.pending = Pending::Answer(result);
                }
            },
            Frame::Value { scope, specifier } => match answer {
                Ok(ValueOrScope::Scope(found)) => {
                    let walk = self.arena.walk(scope.id, specifier.as_str(), found.id);
                    let keys = walk.keys(&self.arena);
                    self.pending = Pending::Collect { scope: walk, keys, out: Table::new() };
                },
                _ => {},
            },
            Frame::Entry { scope, key, keys, out } => match answer {
                Ok(ValueOrScope::Value(value)) => {
                    let mut out = out;
                    out.insert(key, value);
                    self.pending = Pending::Collect { scope, keys, out };
                },
                _ => {},
            },
            Frame::Dependency { scope, specifier, expr, name, deps, resolved } => match answer {
                Err(_) => {},
                Ok(meaning) => {
                    let mut inner = self.arena.inner(scope.id);
                    inner.resolved_identifiers.insert(name.clone(), meaning.duplicate());
                    self.arena.set(scope.id, inner);
                    let mut resolved = resolved;
                    resolved.insert(name, meaning);
                    self.pending = Pending::Dependencies { scope, specifier, expr, deps, resolved };
                },
            },
        }
        Action::Go
    }

    fn ask_import(&self, scope: Scope, from: &str, index: usize) -> (r: Action)
        ensures
            r.deep_view() == (Need::Import {
                resolver: resolver_at(inner_of(self.arena.deep_view(), scope.id), index),
                from: from@,
                context: inner_of(self.arena.deep_view(), scope.id).context,
            }),
    {
        let inner = self.arena.inner(scope.id);
        let resolver: usize = if index < inner.import_resolvers.len() {
            inner.import_resolvers[index]
        } else {
            0
        };
        Action::Import { resolver, from: from.to_owned(), context: inner.import_context }
    }

    /// Takes one step, with the answer that the step before asked for.
    pub fn step(&mut self, event: Event) -> (r: Action)
        ensures
            (final(self).deep_view(), r.deep_view()) == stepped(old(self).names, old(self).deep_view(), event),
            final(self).names == old(self).names,
    {
        let ghost s = self.deep_view();
        let mut pending = Pending::AwaitEvaluation;
        std::mem::swap(&mut pending, &mut self.pending);
        match pending {
            Pending::Resolve { scope, specifier, offset } => {
                proof {
                    lemma_resolve_ignores_next(s, self.deep_view(), scope.id, specifier@, offset);
                }
                self.resolve_name(scope, specifier, offset);
                Action::Go
            },
            Pending::Overrides { scope, specifier, offset, rest } => {
                self.ask_overrides(scope, specifier, offset, rest);
                Action::Go
            },
            Pending::Own { scope, specifier, offset } => {
                self.look_inside(scope, specifier, offset);
                Action::Go
            },
            Pending::Evaluate { scope, specifier, expr } => {
                self.pending = Pending::AwaitDependencies { scope, specifier, expr };
                Action::Dependencies(expr)
            },
            Pending::AwaitDependencies { scope, specifier, expr } => match event {
                Event::Dependencies(list) => {
                    begin(&mut self.arena, scope.id, specifier.as_str());
                    self.pending = Pending::Dependencies { scope, specifier, expr, deps: list, resolved: Table::new() };
                    Action::Go
                },
                _ => {
                    self.pending = Pending::AwaitDependencies { scope, specifier, expr };
                    Action::Dependencies(expr)
                },
            },
            Pending::Dependencies { scope, specifier, expr, deps, resolved } => self.next_dependency(
                scope,
                specifier,
                expr,
                deps,
                resolved,
            ),
            Pending::AwaitEvaluation => {
                if let Event::Evaluated(answer) = event {
                    self.pending = Pending::Answer(answer);
                }
                Action::Go
            },
            Pending::Import { scope, specifier, direct, from, index } => {
                let action = self.ask_import(scope, from.as_str(), index);
                self.pending = Pending::AwaitImport { scope, specifier, direct, from, index };
                action
            },
            Pending::AwaitImport { scope, specifier, direct, from, index } => match event {
                Event::Imported(found) => {
                    self.take_import(scope, specifier, direct, from, index, found);
                    Action::Go
                },
                _ => {
                    let action = self.ask_import(scope, from.as_str(), index);
                    self.pending = Pending::AwaitImport { scope, specifier, direct, from, index };
                    action
                },
            },
            Pending::Collect { scope, keys, out } => {
                self.next_entry(scope, keys, out);
                Action::Go
            },
            Pending::Answer(answer) => {
                self.pending = Pending::Answer(copy_answer(&answer));
                self.hand_answer(answer)
            },
        }
    }
}

/// Beginning to resolve a name does not depend on what was to be done next.
proof fn lemma_resolve_ignores_next(s: State, t: State, scope: usize, specifier: Seq<char>, offset: usize)
    requires
        t == (State { next: t.next, ..s }),
    ensures
        resolve_step(t, scope, specifier, offset) == resolve_step(s, scope, specifier, offset),
{
}

impl Scope {
    /// The evaluation that says what `specifier` stands for in the scope.
    pub fn partially_resolve(&self, arena: Arena, names: TypeNames, specifier: String, offset: usize) -> (r: Evaluation)
        ensures
            r.deep_view() == (State {
                arena: arena.deep_view(),
                stack: Seq::empty(),
                next: Next::Resolve { scope: self.id, specifier: specifier@, offset },
            }),
            r.names == names,
    {
        let r = Evaluation { arena, stack: Vec::new(), pending: Pending::Resolve { scope: *self, specifier, offset }, names };
        assert(r.stack.deep_view() =~= Seq::empty());
        r
    }

    /// The evaluation that resolves `specifier` in the scope to a value.
    pub fn resolve(&self, arena: Arena, names: TypeNames, specifier: String, offset: usize) -> (r: Evaluation)
        ensures
            r.deep_view() == (State {
                arena: arena.deep_view(),
                stack: seq![Waiting::Value { scope: self.id, specifier: specifier@ }],
                next: Next::Resolve { scope: self.id, specifier: specifier@, offset },
            }),
            r.names == names,
    {
        let mut r = self.partially_resolve(arena, names, specifier.clone(), offset);
        keep(&mut r.stack, Frame::Value { scope: *self, specifier });
        assert(r.stack.deep_view() =~= seq![Waiting::Value { scope: self.id, specifier: specifier@ }]);
        r
    }

    /// The evaluation that makes a value of the scope that `specifier` stands
    /// for in this scope.
    pub fn resolve_scope_value(&self, arena: Arena, names: TypeNames, specifier: String, scope: Scope) -> (r: Evaluation)
        ensures
            r.deep_view() == (State {
                arena: arena.deep_view(),
                stack: seq![Waiting::Value { scope: self.id, specifier: specifier@ }],
                next: Next::Answer(Ok(Meaning::Scope(scope.id))),
            }),
            r.names == names,
    {
        let mut r = Evaluation {
            arena,
            stack: Vec::new(),
            pending: Pending::Answer(Ok(ValueOrScope::Scope(scope))),
            names,
        };
        keep(&mut r.stack, Frame::Value { scope: *self, specifier });
        assert(r.stack.deep_view() =~= seq![Waiting::Value { scope: self.id, specifier: specifier@ }]);
        r
    }

    /// The evaluation that says which scope `ident` stands for in the scope.
    pub fn resolve_scope(&self, arena: Arena, names: TypeNames, ident: String, offset: usize) -> (r: Evaluation)
        ensures
            r.names == names,
            r.deep_view() == (match found(inner_of(arena.deep_view(), self.id).scopes, ident@) {
                Some(known) => State {
                    arena: arena.deep_view(),
                    stack: Seq::empty(),
                    next: Next::Answer(Ok(Meaning::Scope(known))),
                },
                None => State {
                    arena: arena.deep_view(),
                    stack: seq![Waiting::Inside { ident: ident@, offset }],
                    next: Next::Resolve { scope: self.id, specifier: ident@, offset },
                },
            }),
    {
        let inner = arena.inner(self.id);
        match inner.scopes.get(ident.as_str()) {
            Some(known) => {
                let r = Evaluation {
                    arena,
                    stack: Vec::new(),
                    pending: Pending::Answer(Ok(ValueOrScope::Scope(*known))),
                    names,
                };
                assert(r.stack.deep_view() =~= Seq::empty());
                r
            },
            None => {
                let mut r = self.partially_resolve(arena, names, ident.clone(), offset);
                keep(&mut r.stack, Frame::Inside { ident, offset });
                assert(r.stack.deep_view() =~= seq![Waiting::Inside { ident: ident@, offset }]);
                r
            },
        }
    }

    /// The evaluation of an expression that `specifier` is bound to in the scope.
    pub fn evaluate_expression(&self, arena: Arena, names: TypeNames, specifier: String, expr: Expression) -> (r: Evaluation)
        ensures
            r.deep_view() == (State {
                arena: arena.deep_view(),
                stack: Seq::empty(),
                next: Next::Evaluate { scope: self.id, specifier: specifier@, expr: expr.id },
            }),
            r.names == names,
    {
        let r = Evaluation { arena, stack: Vec::new(), pending: Pending::Evaluate { scope: *self, specifier, expr }, names };
        assert(r.stack.deep_view() =~= Seq::empty());
        r
    }
}

/// The start of the evaluation of `specifier` in a module.
pub open spec fn module_start(
    module: Module,
    content: Seq<char>,
    specifier: Seq<char>,
    resolvers: Seq<usize>,
    context: Option<Seq<char>>,
) -> State {
    State {
        arena: seq![Inner { resolvers, context, ..module_inner(module, content, 0) }],
        stack: seq![Waiting::Value { scope: 0, specifier }],
        next: Next::Resolve { scope: 0, specifier, offset: 0 },
    }
}

/// The evaluation of `specifier` in a module, whose imports the given resolvers
/// resolve.
pub fn exec_with_import_resolvers(
    module: &Module,
    content: &str,
    specifier: &str,
    resolvers: Vec<usize>,
    names: TypeNames,
) -> (r: Evaluation)
    ensures
        r.deep_view() == module_start(*module, content@, specifier@, resolvers.deep_view(), None),
        r.names == names,
{
    exec_with_import_resolvers_and_context(module, content, specifier, resolvers, None, names)
}

/// The evaluation of `specifier` in a module found at `import_context`, whose
/// imports the given resolvers resolve.
pub fn exec_with_import_resolvers_and_context(
    module: &Module,
    content: &str,
    specifier: &str,
    resolvers: Vec<usize>,
    import_context: Option<String>,
    names: TypeNames,
) -> (r: Evaluation)
    ensures
        r.deep_view() == module_start(
            *module,
            content@,
            specifier@,
            resolvers.deep_view(),
            import_context.deep_view(),
        ),
        r.names == names,
{
    let mut arena = Arena::new();
    let root = Scope::from_module(&mut arena, module, content.to_owned());
    root.add_import_resolvers(&mut arena, resolvers);
    root.set_import_context(&mut arena, import_context);
    proof {
        let start = module_start(
            *module,
            content@,
            specifier@,
            resolvers.deep_view(),
            import_context.deep_view(),
        );
        assert(arena.deep_view() =~= start.arena);
    }
    root.resolve(arena, names, specifier.to_owned(), 0)
}

/// The evaluation of `specifier` in a module that imports nothing.
pub fn exec(module: &Module, content: &str, specifier: &str, names: TypeNames) -> (r: Evaluation)
    ensures
        r.deep_view() == module_start(*module, content@, specifier@, Seq::empty(), None),
        r.names == names,
{
    let resolvers: Vec<usize> = Vec::new();
    assert(resolvers.deep_view() =~= Seq::<usize>::empty());
    exec_with_import_resolvers_and_context(module, content, specifier, resolvers, None, names)
}

} // verus!
