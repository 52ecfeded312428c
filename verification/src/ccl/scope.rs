//! Scopes: what the names of a module or a dictionary stand for.

use vstd::prelude::*;

use crate::digest::{byte_range, utf8};
use crate::reach::{closed_links, depends, reachable};
use crate::table::{ascending, found, in_order, law_ordered, lemma_ascending_unique, lemma_found_name, names, with_row, Table};
use crate::text::{cut, keep, split_once, Duplicate};
use crate::value::{ConfigValue, Node};

verus! {

/// An expression of a module, by its number among those that were parsed.
#[derive(Clone, Copy, Debug, PartialEq, Eq, Structural)]
pub struct Expression {
    pub id: usize,
}

impl DeepView for Expression {
    type V = usize;

    open spec fn deep_view(&self) -> usize {
        self.id
    }
}

impl Duplicate for Expression {
    fn duplicate(&self) -> (r: Self) {
        *self
    }
}

/// A scope, by its number among all scopes of an evaluation.
#[derive(Clone, Copy, Debug, PartialEq, Eq, Structural)]
pub struct Scope {
    pub id: usize,
}

impl DeepView for Scope {
    type V = usize;

    open spec fn deep_view(&self) -> usize {
        self.id
    }
}

impl Duplicate for Scope {
    fn duplicate(&self) -> (r: Self) {
        *self
    }
}

/// What a name stands for once it was resolved.
pub enum ValueOrScope {
    Value(ConfigValue),
    Scope(Scope),
}

/// What a `ValueOrScope` is.
#[verifier::ext_equal]
pub enum Meaning {
    Value(Node),
    Scope(usize),
}

impl DeepView for ValueOrScope {
    type V = Meaning;

    open spec fn deep_view(&self) -> Meaning {
        match self {
            ValueOrScope::Value(value) => Meaning::Value(value.deep_view()),
            ValueOrScope::Scope(scope) => Meaning::Scope(scope.id),
        }
    }
}

impl Duplicate for ValueOrScope {
    fn duplicate(&self) -> (r: Self) {
        match self {
            ValueOrScope::Value(value) => ValueOrScope::Value(value.duplicate()),
            ValueOrScope::Scope(scope) => ValueOrScope::Scope(*scope),
        }
    }
}

/// A name that a module imports: under its own name, or as the whole module.
pub enum ImportedIdentifier {
    Direct(String),
    Aliased(String),
}

/// What an `ImportedIdentifier` is: whether it is imported under its own name,
/// and where from.
impl DeepView for ImportedIdentifier {
    type V = (bool, Seq<char>);

    open spec fn deep_view(&self) -> (bool, Seq<char>) {
        match self {
            ImportedIdentifier::Direct(from) => (true, from@),
            ImportedIdentifier::Aliased(from) => (false, from@),
        }
    }
}

impl Duplicate for ImportedIdentifier {
    fn duplicate(&self) -> (r: Self) {
        match self {
            ImportedIdentifier::Direct(from) => ImportedIdentifier::Direct(from.clone()),
            ImportedIdentifier::Aliased(from) => ImportedIdentifier::Aliased(from.clone()),
        }
    }
}

/// The expressions that stand in for names deep inside another scope.
pub type Overrides = Table<(Scope, Expression)>;

pub struct ScopeInner {
    pub in_progress_identifiers: Vec<String>,
    pub resolved_identifiers: Table<ValueOrScope>,
    pub unresolved_identifiers: Table<Expression>,
    pub unresolved_imports: Table<ImportedIdentifier>,
    pub scopes: Table<Scope>,
    pub content: String,
    pub parent_scope: Option<Scope>,
    pub overrides: Vec<Scope>,
    pub deep_overrides: Table<Overrides>,
    pub start: usize,
    pub end: usize,
    pub import_resolvers: Vec<usize>,
    pub import_context: Option<String>,
}

/// What a `ScopeInner` says.
#[verifier::ext_equal]
pub struct Inner {
    pub in_progress: Seq<Seq<char>>,
    pub resolved: Seq<(Seq<char>, Meaning)>,
    pub unresolved: Seq<(Seq<char>, usize)>,
    pub imports: Seq<(Seq<char>, (bool, Seq<char>))>,
    pub scopes: Seq<(Seq<char>, usize)>,
    pub content: Seq<char>,
    pub parent: Option<usize>,
    pub overrides: Seq<usize>,
    pub deep_overrides: Seq<(Seq<char>, Seq<(Seq<char>, (usize, usize))>)>,
    pub start: usize,
    pub end: usize,
    pub resolvers: Seq<usize>,
    pub context: Option<Seq<char>>,
}

impl DeepView for ScopeInner {
    type V = Inner;

    open spec fn deep_view(&self) -> Inner {
        Inner {
            in_progress: self.in_progress_identifiers.deep_view(),
            resolved: self.resolved_identifiers.deep_view(),
            unresolved: self.unresolved_identifiers.deep_view(),
            imports: self.unresolved_imports.deep_view(),
            scopes: self.scopes.deep_view(),
            content: self.content@,
            parent: self.parent_scope.deep_view(),
            overrides: self.overrides.deep_view(),
            deep_overrides: self.deep_overrides.deep_view(),
            start: self.start,
            end: self.end,
            resolvers: self.import_resolvers.deep_view(),
            context: self.import_context.deep_view(),
        }
    }
}

impl Duplicate for ScopeInner {
    fn duplicate(&self) -> (r: Self) {
        ScopeInner {
            in_progress_identifiers: self.in_progress_identifiers.duplicate(),
            resolved_identifiers: self.resolved_identifiers.duplicate(),
            unresolved_identifiers: self.unresolved_identifiers.duplicate(),
            unresolved_imports: self.unresolved_imports.duplicate(),
            scopes: self.scopes.duplicate(),
            content: self.content.clone(),
            parent_scope: self.parent_scope.duplicate(),
            overrides: self.overrides.duplicate(),
            deep_overrides: self.deep_overrides.duplicate(),
            start: self.start,
            end: self.end,
            import_resolvers: self.import_resolvers.duplicate(),
            import_context: self.import_context.duplicate(),
        }
    }
}

/// A scope without names for `content[start..end]`.
pub open spec fn empty_inner(content: Seq<char>, start: usize, end: usize) -> Inner {
    Inner {
        in_progress: Seq::empty(),
        resolved: Seq::empty(),
        unresolved: Seq::empty(),
        imports: Seq::empty(),
        scopes: Seq::empty(),
        content,
        parent: None,
        overrides: Seq::empty(),
        deep_overrides: Seq::empty(),
        start,
        end,
        resolvers: Seq::empty(),
        context: None,
    }
}

fn empty_scope(content: String, start: usize, end: usize) -> (r: ScopeInner)
    ensures
        r.deep_view() == empty_inner(content@, start, end),
{
    let r = ScopeInner {
        in_progress_identifiers: Vec::new(),
        resolved_identifiers: Table::new(),
        unresolved_identifiers: Table::new(),
        unresolved_imports: Table::new(),
        scopes: Table::new(),
        content,
        parent_scope: None,
        overrides: Vec::new(),
        deep_overrides: Table::new(),
        start,
        end,
        import_resolvers: Vec::new(),
        import_context: None,
    };
    assert(r.deep_view() =~= empty_inner(content@, start, end));
    r
}

/// All scopes of an evaluation.
pub struct Arena {
    pub scopes: Vec<ScopeInner>,
}

impl DeepView for Arena {
    type V = Seq<Inner>;

    open spec fn deep_view(&self) -> Seq<Inner> {
        self.scopes.deep_view()
    }
}

/// The scope `id`; one without names where there is none.
pub open spec fn inner_of(arena: Seq<Inner>, id: usize) -> Inner {
    if id < arena.len() {
        arena[id as int]
    } else {
        empty_inner(Seq::empty(), 0, 0)
    }
}

/// `arena` with `inner` as the scope `id`, where there is one.
pub open spec fn with_inner(arena: Seq<Inner>, id: usize, inner: Inner) -> Seq<Inner> {
    if id < arena.len() {
        arena.update(id as int, inner)
    } else {
        arena
    }
}

/// `arena` with the scope `over` as one more that overrides the scope `id`.
pub open spec fn with_override(arena: Seq<Inner>, id: usize, over: usize) -> Seq<Inner> {
    let inner = inner_of(arena, id);
    with_inner(arena, id, Inner { overrides: inner.overrides.push(over), ..inner })
}

/// The part of a list of numbers below `bound`.
pub open spec fn below(list: Seq<usize>, bound: nat) -> Seq<usize>
    decreases list.len(),
{
    if list.len() == 0 {
        Seq::empty()
    } else if list.last() < bound {
        below(list.drop_last(), bound).push(list.last())
    } else {
        below(list.drop_last(), bound)
    }
}

/// The scopes that override each scope.
pub open spec fn override_links(arena: Seq<Inner>) -> Seq<Seq<usize>> {
    arena.map_values(|inner: Inner| below(inner.overrides, arena.len()))
}

/// Whether a scope or one that overrides it binds `name`.
pub open spec fn has_key(arena: Seq<Inner>, id: usize, name: Seq<char>) -> bool {
    ||| found(inner_of(arena, id).unresolved, name) is Some
    ||| exists|t: int|
        0 <= t < arena.len() && #[trigger] depends(override_links(arena), id as int, t) && found(
            arena[t].unresolved,
            name,
        ) is Some
}

/// Whether `list` has, in order, the names that a scope and those that override
/// it bind.
pub open spec fn lists_keys(arena: Seq<Inner>, id: usize, list: Seq<Seq<char>>) -> bool {
    &&& ascending(list)
    &&& forall|name: Seq<char>| #[trigger] list.contains(name) <==> has_key(arena, id, name)
}

/// The names that a scope and those that override it bind, in order.
pub open spec fn keys_of(arena: Seq<Inner>, id: usize) -> Seq<Seq<char>> {
    choose|list: Seq<Seq<char>>| lists_keys(arena, id, list)
}

/// `scopes` with every override of `more` under `name`.
pub open spec fn with_overrides(
    deep: Seq<(Seq<char>, Seq<(Seq<char>, (usize, usize))>)>,
    name: Seq<char>,
    more: Seq<(Seq<char>, (usize, usize))>,
) -> Seq<(Seq<char>, Seq<(Seq<char>, (usize, usize))>)> {
    with_row(deep, name, crate::context::with_rows(found(deep, name).unwrap_or(Seq::empty()), more))
}

/// A binding of a name, or of a name inside of names, to an expression. `text`
/// is how the whole left side is written, `rest` how it is without its first name.
pub struct Binding {
    pub names: Vec<String>,
    pub text: String,
    pub rest: String,
    pub value: Expression,
}

/// What a `Binding` says.
#[verifier::ext_equal]
pub struct Bound {
    pub names: Seq<Seq<char>>,
    pub text: Seq<char>,
    pub rest: Seq<char>,
    pub value: usize,
}

impl DeepView for Binding {
    type V = Bound;

    open spec fn deep_view(&self) -> Bound {
        Bound { names: self.names.deep_view(), text: self.text@, rest: self.rest@, value: self.value.id }
    }
}

/// What an import brings: some names of a module, or the module under a name.
pub enum ImportSpecification {
    Multiple(Vec<String>),
    Single(String),
}

pub struct Import {
    pub spec_: ImportSpecification,
    pub from: String,
}

/// What an `Import` says: whether the names are the module's own, the names,
/// and where from.
impl DeepView for Import {
    type V = (bool, Seq<Seq<char>>, Seq<char>);

    open spec fn deep_view(&self) -> (bool, Seq<Seq<char>>, Seq<char>) {
        match self.spec_ {
            ImportSpecification::Multiple(names) => (true, names.deep_view(), self.from@),
            ImportSpecification::Single(name) => (false, seq![name@], self.from@),
        }
    }
}

/// A parsed module.
pub struct Module {
    pub start: usize,
    pub end: usize,
    pub imports: Vec<Import>,
    pub bindings: Vec<Binding>,
    pub value: Option<Expression>,
}

/// A parsed dictionary.
pub struct DictionaryExpression {
    pub start: usize,
    pub end: usize,
    pub values: Vec<Binding>,
}

/// `inner` with the first `n` of `names` imported.
pub open spec fn with_imported(inner: Inner, direct: bool, names: Seq<Seq<char>>, from: Seq<char>, n: int) -> Inner
    decreases n,
{
    if n <= 0 {
        inner
    } else {
        let before = with_imported(inner, direct, names, from, n - 1);
        Inner { imports: with_row(before.imports, names[n - 1], (direct, from)), ..before }
    }
}

/// `inner` with the first `n` imports.
pub open spec fn with_imports(inner: Inner, imports: Seq<(bool, Seq<Seq<char>>, Seq<char>)>, n: int) -> Inner
    decreases n,
{
    if n <= 0 {
        inner
    } else {
        let (direct, names, from) = imports[n - 1];
        with_imported(with_imports(inner, imports, n - 1), direct, names, from, names.len() as int)
    }
}

/// The scope `id` with one more binding: a name inside of names overrides what
/// the first of them stands for.
pub open spec fn with_binding(inner: Inner, id: usize, b: Bound) -> Inner {
    if b.names.len() > 1 {
        Inner {
            deep_overrides: with_overrides(inner.deep_overrides, b.names[0], seq![(b.rest, (id, b.value))]),
            ..inner
        }
    } else {
        Inner { unresolved: with_row(inner.unresolved, b.text, b.value), ..inner }
    }
}

/// The scope `id` with the first `n` bindings.
pub open spec fn with_bindings(inner: Inner, id: usize, bindings: Seq<Bound>, n: int) -> Inner
    decreases n,
{
    if n <= 0 {
        inner
    } else {
        with_binding(with_bindings(inner, id, bindings, n - 1), id, bindings[n - 1])
    }
}

/// The scope of a module; its own value stands under the empty name.
pub open spec fn module_inner(m: Module, content: Seq<char>, id: usize) -> Inner {
    let bound = with_bindings(
        with_imports(
            empty_inner(content, m.start, m.end),
            m.imports.deep_view(),
            m.imports.deep_view().len() as int,
        ),
        id,
        m.bindings.deep_view(),
        m.bindings.deep_view().len() as int,
    );
    match m.value {
        Some(value) => Inner { unresolved: with_row(bound.unresolved, Seq::empty(), value.id), ..bound },
        None => bound,
    }
}

/// The scope of a dictionary.
pub open spec fn dictionary_inner(d: DictionaryExpression, content: Seq<char>, id: usize) -> Inner {
    with_bindings(
        empty_inner(content, d.start, d.end),
        id,
        d.values.deep_view(),
        d.values.deep_view().len() as int,
    )
}

fn put_overrides(inner: &mut ScopeInner, name: String, more: &Overrides)
    ensures
        final(inner).deep_view() == (Inner {
            deep_overrides: with_overrides(old(inner).deep_view().deep_overrides, name@, more.deep_view()),
            ..old(inner).deep_view()
        }),
{
    let mut entry = match inner.deep_overrides.get(name.as_str()) {
        Some(entry) => entry.duplicate(),
        None => Table::new(),
    };
    crate::context::extend(&mut entry, &more.rows);
    inner.deep_overrides.insert(name, entry);
}

fn put_binding(inner: &mut ScopeInner, id: usize, binding: &Binding)
    ensures
        final(inner).deep_view() == with_binding(old(inner).deep_view(), id, binding.deep_view()),
{
    if binding.names.len() > 1 {
        let mut rows: Vec<(String, (Scope, Expression))> = Vec::new();
        keep(&mut rows, (binding.rest.clone(), (Scope { id }, binding.value)));
        assert(rows.deep_view() =~= seq![(binding.rest@, (id, binding.value.id))]);
        put_overrides(inner, binding.names[0].clone(), &Table { rows });
    } else {
        inner.unresolved_identifiers.insert(binding.text.clone(), binding.value);
    }
}

fn put_bindings(inner: &mut ScopeInner, id: usize, bindings: &Vec<Binding>)
    ensures
        final(inner).deep_view() == with_bindings(
            old(inner).deep_view(),
            id,
            bindings.deep_view(),
            bindings.deep_view().len() as int,
        ),
{
    let ghost list = bindings.deep_view();
    let mut i: usize = 0;
    while i < bindings.len()
        invariant
            i <= bindings.len(),
            list == bindings.deep_view(),
            inner.deep_view() == with_bindings(old(inner).deep_view(), id, list, i as int),
        decreases bindings.len() - i,
    {
        assert(list[i as int] == bindings@[i as int].deep_view());
        put_binding(inner, id, &bindings[i]);
        i = i + 1;
    }
}

fn put_imported(inner: &mut ScopeInner, direct: bool, list: &Vec<String>, from: &str)
    ensures
        final(inner).deep_view() == with_imported(
            old(inner).deep_view(),
            direct,
            list.deep_view(),
            from@,
            list.deep_view().len() as int,
        ),
{
    let ghost all = list.deep_view();
    let mut i: usize = 0;
    while i < list.len()
        invariant
            i <= list.len(),
            all == list.deep_view(),
            inner.deep_view() == with_imported(old(inner).deep_view(), direct, all, from@, i as int),
        decreases list.len() - i,
    {
        assert(all[i as int] == list@[i as int]@);
        let import = if direct {
            ImportedIdentifier::Direct(from.to_owned())
        } else {
            ImportedIdentifier::Aliased(from.to_owned())
        };
        inner.unresolved_imports.insert(list[i].clone(), import);
        i = i + 1;
    }
}

fn put_imports(inner: &mut ScopeInner, imports: &Vec<Import>)
    ensures
        final(inner).deep_view() == with_imports(
            old(inner).deep_view(),
            imports.deep_view(),
            imports.deep_view().len() as int,
        ),
{
    let ghost list = imports.deep_view();
    let mut i: usize = 0;
    while i < imports.len()
        invariant
            i <= imports.len(),
            list == imports.deep_view(),
            inner.deep_view() == with_imports(old(inner).deep_view(), list, i as int),
        decreases imports.len() - i,
    {
        assert(list[i as int] == imports@[i as int].deep_view());
        match &imports[i].spec_ {
            ImportSpecification::Multiple(many) => put_imported(inner, true, many, imports[i].from.as_str()),
            ImportSpecification::Single(name) => {
                let mut one: Vec<String> = Vec::new();
                keep(&mut one, name.clone());
                assert(one.deep_view() =~= seq![name@]);
                put_imported(inner, false, &one, imports[i].from.as_str());
            },
        }
        i = i + 1;
    }
}

/// The first name of a path of names, and what follows it.
pub open spec fn path_parts(key: Seq<char>) -> (Seq<char>, Seq<char>) {
    match cut(key, '.') {
        Some(parts) => parts,
        None => (key, Seq::empty()),
    }
}

/// `inner` with the first `n` overrides of `more`, each one name further inside.
pub open spec fn with_deeper(inner: Inner, more: Seq<(Seq<char>, (usize, usize))>, n: int) -> Inner
    decreases n,
{
    if n <= 0 {
        inner
    } else {
        let before = with_deeper(inner, more, n - 1);
        let (first, rest) = path_parts(more[n - 1].0);
        Inner { deep_overrides: with_overrides(before.deep_overrides, first, seq![(rest, more[n - 1].1)]), ..before }
    }
}

fn put_deeper(inner: &mut ScopeInner, more: &Overrides)
    ensures
        final(inner).deep_view() == with_deeper(
            old(inner).deep_view(),
            more.deep_view(),
            more.deep_view().len() as int,
        ),
{
    let ghost list = more.deep_view();
    let mut i: usize = 0;
    while i < more.rows.len()
        invariant
            i <= more.rows.len(),
            list == more.deep_view(),
            inner.deep_view() == with_deeper(old(inner).deep_view(), list, i as int),
        decreases more.rows.len() - i,
    {
        assert(list[i as int] == (more.rows@[i as int].0@, more.rows@[i as int].1.deep_view()));
        let (first, rest) = match split_once(more.rows[i].0.as_str(), '.') {
            Some(parts) => parts,
            None => (more.rows[i].0.clone(), String::new()),
        };
        assert(cut(list[i as int].0, '.') is None ==> rest@ =~= Seq::empty());
        let mut rows: Vec<(String, (Scope, Expression))> = Vec::new();
        keep(&mut rows, (rest, more.rows[i].1.duplicate()));
        assert(rows.deep_view() =~= seq![(rest@, list[i as int].1)]);
        put_overrides(inner, first, &Table { rows });
        i = i + 1;
    }
}

/// `arena` once the scope `scope`, which `specifier` stands for in the scope
/// `id`, can be walked: where names inside of it are overridden, that is a copy
/// which knows of them. With it, the scope to walk.
pub open spec fn walked(arena: Seq<Inner>, id: usize, specifier: Seq<char>, scope: usize) -> (Seq<Inner>, usize) {
    match found(inner_of(arena, id).deep_overrides, specifier) {
        None => (arena, scope),
        Some(more) => (
            arena.push(with_deeper(inner_of(arena, scope), more, more.len() as int)),
            arena.len() as usize,
        ),
    }
}

impl Arena {
    pub fn new() -> (r: Self)
        ensures
            r.deep_view() == Seq::<Inner>::empty(),
    {
        let r = Arena { scopes: Vec::new() };
        assert(r.deep_view() =~= Seq::<Inner>::empty());
        r
    }

    /// A copy of the scope `id`.
    pub fn inner(&self, id: usize) -> (r: ScopeInner)
        ensures
            r.deep_view() == inner_of(self.deep_view(), id),
    {
        if id < self.scopes.len() {
            self.scopes[id].duplicate()
        } else {
            let r = empty_scope(String::new(), 0, 0);
            assert(r.deep_view() =~= empty_inner(Seq::empty(), 0, 0));
            r
        }
    }

    /// Puts `inner` in the place of the scope `id`, where there is one.
    pub fn set(&mut self, id: usize, inner: ScopeInner)
        ensures
            final(self).deep_view() == with_inner(old(self).deep_view(), id, inner.deep_view()),
    {
        if id < self.scopes.len() {
            self.scopes.set(id, inner);
            assert(self.deep_view() =~= old(self).deep_view().update(id as int, inner.deep_view()));
        }
    }

    /// Adds a scope.
    pub fn add(&mut self, inner: ScopeInner) -> (r: Scope)
        ensures
            final(self).deep_view() == old(self).deep_view().push(inner.deep_view()),
            r.id == old(self).deep_view().len(),
    {
        let id: usize = self.scopes.len();
        keep(&mut self.scopes, inner);
        Scope { id }
    }

    /// Makes the scope `id` ready to be walked as what `specifier` stands for in
    /// the scope `within`.
    pub fn walk(&mut self, within: usize, specifier: &str, id: usize) -> (r: Scope)
        ensures
            (final(self).deep_view(), r.id) == walked(old(self).deep_view(), within, specifier@, id),
    {
        let outer = self.inner(within);
        match outer.deep_overrides.get(specifier) {
            None => Scope { id },
            Some(more) => {
                let mut copy = self.inner(id);
                put_deeper(&mut copy, more);
                self.add(copy)
            },
        }
    }
}

fn keep_below(list: &Vec<Scope>, bound: usize) -> (r: Vec<usize>)
    ensures
        r.deep_view() == below(list.deep_view(), bound as nat),
        forall|k: int| 0 <= k < r@.len() ==> (#[trigger] r@[k]) < bound,
{
    let ghost all = list.deep_view();
    let mut out: Vec<usize> = Vec::new();
    let mut i: usize = 0;
    assert(out.deep_view() =~= below(all.take(0), bound as nat));
    while i < list.len()
        invariant
            i <= list.len(),
            all == list.deep_view(),
            out.deep_view() == below(all.take(i as int), bound as nat),
            forall|k: int| 0 <= k < out@.len() ==> (#[trigger] out@[k]) < bound,
        decreases list.len() - i,
    {
        assert(all.take(i + 1).drop_last() =~= all.take(i as int));
        assert(all[i as int] == list@[i as int].id);
        if list[i].id < bound {
            keep(&mut out, list[i].id);
        }
        i = i + 1;
    }
    assert(all.take(i as int) =~= all);
    out
}

fn add_names(out: &mut Vec<String>, rows: &Table<Expression>)
    ensures
        final(out).deep_view() == old(out).deep_view() + names(rows.deep_view()),
{
    let ghost all = names(rows.deep_view());
    let mut i: usize = 0;
    assert(out.deep_view() =~= old(out).deep_view() + all.take(0));
    while i < rows.rows.len()
        invariant
            i <= rows.rows.len(),
            all == names(rows.deep_view()),
            out.deep_view() == old(out).deep_view() + all.take(i as int),
        decreases rows.rows.len() - i,
    {
        assert(all[i as int] == rows.rows@[i as int].0@);
        keep(out, rows.rows[i].0.clone());
        i = i + 1;
        assert(out.deep_view() =~= old(out).deep_view() + all.take(i as int));
    }
    assert(all.take(i as int) =~= all);
}

proof fn lemma_contains_sum(a: Seq<Seq<char>>, b: Seq<Seq<char>>, x: Seq<char>)
    ensures
        (a + b).contains(x) <==> a.contains(x) || b.contains(x),
{
    if a.contains(x) {
        let k = choose|k: int| 0 <= k < a.len() && a[k] == x;
        assert((a + b)[k] == x);
    }
    if b.contains(x) {
        let k = choose|k: int| 0 <= k < b.len() && b[k] == x;
        assert((a + b)[a.len() + k] == x);
    }
    if (a + b).contains(x) {
        let k = choose|k: int| 0 <= k < (a + b).len() && (a + b)[k] == x;
        if k < a.len() {
            assert(a[k] == x);
        } else {
            assert(b[k - a.len()] == x);
        }
    }
}

impl Scope {
    /// Adds a scope without names for `content[start..end]`.
    pub fn empty(arena: &mut Arena, content: String, start: usize, end: usize) -> (r: Self)
        ensures
            final(arena).deep_view() == old(arena).deep_view().push(empty_inner(content@, start, end)),
            r.id == old(arena).deep_view().len(),
    {
        arena.add(empty_scope(content, start, end))
    }

    /// The part of the content that the scope is for.
    pub fn scope_content(&self, arena: &Arena) -> (r: String)
        requires
            inner_of(arena.deep_view(), self.id).start <= inner_of(arena.deep_view(), self.id).end,
            vstd::utf8::is_char_boundary(
                utf8(inner_of(arena.deep_view(), self.id).content),
                inner_of(arena.deep_view(), self.id).start as int,
            ),
            vstd::utf8::is_char_boundary(
                utf8(inner_of(arena.deep_view(), self.id).content),
                inner_of(arena.deep_view(), self.id).end as int,
            ),
        ensures
            utf8(r@) == utf8(inner_of(arena.deep_view(), self.id).content).subrange(
                inner_of(arena.deep_view(), self.id).start as int,
                inner_of(arena.deep_view(), self.id).end as int,
            ),
    {
        let inner = arena.inner(self.id);
        byte_range(inner.content.as_str(), inner.start, inner.end)
    }

    /// Adds a copy of the scope.
    pub fn duplicate(&self, arena: &mut Arena) -> (r: Self)
        ensures
            final(arena).deep_view() == old(arena).deep_view().push(inner_of(old(arena).deep_view(), self.id)),
            r.id == old(arena).deep_view().len(),
    {
        let inner = arena.inner(self.id);
        arena.add(inner)
    }

    pub fn add_override(&self, arena: &mut Arena, override_scope: Scope)
        ensures
            final(arena).deep_view() == with_override(old(arena).deep_view(), self.id, override_scope.id),
    {
        let mut inner = arena.inner(self.id);
        keep(&mut inner.overrides, override_scope);
        arena.set(self.id, inner);
    }

    pub fn add_deep_overrides(&self, arena: &mut Arena, name: String, overrides: &Overrides)
        ensures
            final(arena).deep_view() == with_inner(
                old(arena).deep_view(),
                self.id,
                Inner {
                    deep_overrides: with_overrides(
                        inner_of(old(arena).deep_view(), self.id).deep_overrides,
                        name@,
                        overrides.deep_view(),
                    ),
                    ..inner_of(old(arena).deep_view(), self.id)
                },
            ),
    {
        let mut inner = arena.inner(self.id);
        put_overrides(&mut inner, name, overrides);
        arena.set(self.id, inner);
    }

    /// Adds the scope of a module.
    pub fn from_module(arena: &mut Arena, module: &Module, content: String) -> (r: Self)
        ensures
            r.id == old(arena).deep_view().len(),
            final(arena).deep_view() == old(arena).deep_view().push(module_inner(*module, content@, r.id)),
    {
        let id: usize = arena.scopes.len();
        let mut inner = empty_scope(content, module.start, module.end);
        put_imports(&mut inner, &module.imports);
        put_bindings(&mut inner, id, &module.bindings);
        if let Some(value) = module.value {
            let name = String::new();
            assert(name@ =~= Seq::empty());
            inner.unresolved_identifiers.insert(name, value);
        }
        arena.add(inner)
    }

    /// Adds the scope of a dictionary.
    pub fn from_dictionary(arena: &mut Arena, dict: &DictionaryExpression, content: String) -> (r: Self)
        ensures
            r.id == old(arena).deep_view().len(),
            final(arena).deep_view() == old(arena).deep_view().push(dictionary_inner(*dict, content@, r.id)),
    {
        let id: usize = arena.scopes.len();
        let mut inner = empty_scope(content, dict.start, dict.end);
        put_bindings(&mut inner, id, &dict.values);
        arena.add(inner)
    }

    pub fn add_import_resolvers(&self, arena: &mut Arena, resolvers: Vec<usize>)
        ensures
            final(arena).deep_view() == with_inner(
                old(arena).deep_view(),
                self.id,
                Inner { resolvers: resolvers.deep_view(), ..inner_of(old(arena).deep_view(), self.id) },
            ),
    {
        let mut inner = arena.inner(self.id);
        inner.import_resolvers = resolvers;
        arena.set(self.id, inner);
    }

    pub fn set_import_context(&self, arena: &mut Arena, context: Option<String>)
        ensures
            final(arena).deep_view() == with_inner(
                old(arena).deep_view(),
                self.id,
                Inner { context: context.deep_view(), ..inner_of(old(arena).deep_view(), self.id) },
            ),
    {
        let mut inner = arena.inner(self.id);
        inner.import_context = context;
        arena.set(self.id, inner);
    }

    pub fn set_parent(&self, arena: &mut Arena, parent: Scope)
        ensures
            final(arena).deep_view() == with_inner(
                old(arena).deep_view(),
                self.id,
                Inner { parent: Some(parent.id), ..inner_of(old(arena).deep_view(), self.id) },
            ),
    {
        let mut inner = arena.inner(self.id);
        inner.parent_scope = Some(parent);
        arena.set(self.id, inner);
    }

    /// The names that the scope and those that override it bind, in order.
    pub fn keys(&self, arena: &Arena) -> (r: Vec<String>)
        ensures
            r.deep_view() == keys_of(arena.deep_view(), self.id),
            lists_keys(arena.deep_view(), self.id, r.deep_view()),
    {
        let ghost all = arena.deep_view();
        let ghost links = override_links(all);
        let mut found_names: Vec<String> = Vec::new();
        let own = arena.inner(self.id);
        assert(found_names.deep_view() =~= Seq::<Seq<char>>::empty());
        add_names(&mut found_names, &own.unresolved_identifiers);
        proof {
            assert(found_names.deep_view() =~= names(inner_of(all, self.id).unresolved));
            assert forall|name: Seq<char>| #[trigger] found_names.deep_view().contains(name) <==> found(
                inner_of(all, self.id).unresolved,
                name,
            ) is Some by {
                lemma_found_name(inner_of(all, self.id).unresolved, name);
            }
        }
        if self.id < arena.scopes.len() {
            let mut table: Vec<Vec<usize>> = Vec::new();
            let mut i: usize = 0;
            while i < arena.scopes.len()
                invariant
                    i <= arena.scopes.len(),
                    all == arena.deep_view(),
                    links == override_links(all),
                    table.deep_view() == links.take(i as int),
                    table@.len() == i,
                    forall|a: int, b: int|
                        0 <= a < table@.len() && 0 <= b < table@[a]@.len() ==> (#[trigger] table@[a]@[b]) < all.len(),
                decreases arena.scopes.len() - i,
            {
                assert(all[i as int] == arena.scopes@[i as int].deep_view());
                keep(&mut table, keep_below(&arena.scopes[i].overrides, arena.scopes.len()));
                i = i + 1;
                assert(links.take(i as int) =~= links.take(i - 1).push(links[i - 1]));
            }
            proof {
                assert(links.take(i as int) =~= links);
                assert forall|a: int, b: int|
                    0 <= a < links.len() && 0 <= b < links[a].len() implies (#[trigger] links[a][b]) < links.len() by {
                    assert(links[a][b] == table@[a]@[b]);
                }
                assert(closed_links(links));
            }
            let marks = reachable(&table, self.id);
            let mut t: usize = 0;
            while t < arena.scopes.len()
                invariant
                    t <= arena.scopes.len(),
                    all == arena.deep_view(),
                    links == override_links(all),
                    marks@.len() == all.len(),
                    forall|u: int| 0 <= u < marks@.len() ==> (#[trigger] marks@[u] <==> depends(links, self.id as int, u)),
                    forall|name: Seq<char>| #[trigger]
                        found_names.deep_view().contains(name) <==> found(inner_of(all, self.id).unresolved, name) is Some
                            || exists|u: int|
                            0 <= u < t && #[trigger] depends(links, self.id as int, u) && found(
                                all[u].unresolved,
                                name,
                            ) is Some,
                decreases arena.scopes.len() - t,
            {
                assert(all[t as int] == arena.scopes@[t as int].deep_view());
                let ghost start = found_names.deep_view();
                if marks[t] {
                    add_names(&mut found_names, &arena.scopes[t].unresolved_identifiers);
                }
                proof {
                    let rows = all[t as int].unresolved;
                    assert forall|name: Seq<char>| #[trigger]
                        found_names.deep_view().contains(name) <==> found(inner_of(all, self.id).unresolved, name) is Some
                            || exists|u: int|
                            0 <= u < t + 1 && #[trigger] depends(links, self.id as int, u) && found(
                                all[u].unresolved,
                                name,
                            ) is Some by {
                        lemma_contains_sum(start, names(rows), name);
                        lemma_found_name(rows, name);
                        assert(start.contains(name) <==> found(inner_of(all, self.id).unresolved, name) is Some
                            || exists|u: int|
                            0 <= u < t && #[trigger] depends(links, self.id as int, u) && found(
                                all[u].unresolved,
                                name,
                            ) is Some);
                        if marks@[t as int] && names(rows).contains(name) {
                            assert(depends(links, self.id as int, t as int));
                        }
                        if exists|u: int|
                            0 <= u < t + 1 && #[trigger] depends(links, self.id as int, u) && found(
                                all[u].unresolved,
                                name,
                            ) is Some {
                            let u = choose|u: int|
                                0 <= u < t + 1 && #[trigger] depends(links, self.id as int, u) && found(
                                    all[u].unresolved,
                                    name,
                                ) is Some;
                            if u == t {
                                assert(marks@[t as int]);
                            }
                        }
                    }
                }
                t = t + 1;
            }
        } else {
            proof {
                assert forall|u: int| 0 <= u < all.len() implies !#[trigger] depends(links, self.id as int, u) by {
                    if depends(links, self.id as int, u) {
                        let path = choose|path: Seq<int>|
                            #[trigger] crate::reach::leads(links, self.id as int, path) && path.last() == u;
                        assert(0 <= path[0] < links.len());
                    }
                }
            }
        }
        let out = in_order(&found_names);
        proof {
            law_ordered(found_names.deep_view());
            let list = out.deep_view();
            assert forall|name: Seq<char>| #[trigger] list.contains(name) <==> has_key(all, self.id, name) by {
                assert(list.contains(name) <==> found_names.deep_view().contains(name));
            }
            assert(lists_keys(all, self.id, list));
            let other = keys_of(all, self.id);
            assert(lists_keys(all, self.id, other));
            assert forall|name: Seq<char>| other.contains(name) <==> list.contains(name) by {
                assert(other.contains(name) <==> has_key(all, self.id, name));
                assert(list.contains(name) <==> has_key(all, self.id, name));
            }
            lemma_ascending_unique(other, list);
        }
        out
    }
}

} // verus!
