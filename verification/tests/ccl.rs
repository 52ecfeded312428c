//! Scopes, and how names are resolved in them.

use cbs::ccl::exec::{
    exec, exec_with_import_resolvers, exec_with_import_resolvers_and_context, Action, Evaluation, Event, ExecError,
    ImportResolution, Problem, TypeNames,
};
use cbs::ccl::scope::{
    Arena, Binding, DictionaryExpression, Expression, Import, ImportSpecification, Module, Scope, ValueOrScope,
};
use cbs::documents::write_json;
use cbs::table::Table;
use cbs::text::Duplicate;
use cbs::value::ConfigValue;

/// What an expression is.
enum Expr {
    Text(&'static str),
    Name(&'static str),
    Dict(Vec<(&'static str, usize)>),
    /// What a name stands for, with some names in it changed.
    With(&'static str, Vec<(&'static str, usize)>),
}

fn names() -> TypeNames {
    TypeNames {
        string: "string".to_string(),
        boolean: "bool".to_string(),
        number: "number".to_string(),
        array: "array".to_string(),
        dictionary: "dictionary".to_string(),
        null: "null".to_string(),
    }
}

fn bindings(list: &[(&'static str, usize)]) -> Vec<Binding> {
    list.iter()
        .map(|(text, value)| Binding {
            names: text.split('.').map(|name| name.to_string()).collect(),
            text: text.to_string(),
            rest: text.split_once('.').map(|(_, rest)| rest).unwrap_or("").to_string(),
            value: Expression { id: *value },
        })
        .collect()
}

fn module(list: &[(&'static str, usize)], value: Option<usize>) -> Module {
    Module {
        start: 0,
        end: 0,
        imports: Vec::new(),
        bindings: bindings(list),
        value: value.map(|id| Expression { id }),
    }
}

fn dictionary(list: &[(&'static str, usize)]) -> DictionaryExpression {
    DictionaryExpression { start: 0, end: 0, values: bindings(list) }
}

fn dependencies(expr: &Expr) -> Vec<(String, usize)> {
    match expr {
        Expr::Name(name) | Expr::With(name, _) => vec![(name.to_string(), 0)],
        _ => Vec::new(),
    }
}

fn copy(value: &ValueOrScope) -> ValueOrScope {
    value.duplicate()
}

fn evaluate(arena: &mut Arena, scope: Scope, expr: &Expr, resolved: &Table<ValueOrScope>) -> ValueOrScope {
    match expr {
        Expr::Text(text) => ValueOrScope::Value(ConfigValue::String(text.to_string())),
        Expr::Name(name) => copy(resolved.get(name).unwrap()),
        Expr::Dict(list) => {
            let inner = Scope::from_dictionary(arena, &dictionary(list), String::new());
            inner.set_parent(arena, scope);
            ValueOrScope::Scope(inner)
        }
        Expr::With(name, list) => {
            let base = match resolved.get(name) {
                Some(ValueOrScope::Scope(base)) => *base,
                _ => panic!("{name} is no scope"),
            };
            let changed = base.duplicate(arena);
            let inner = Scope::from_dictionary(arena, &dictionary(list), String::new());
            inner.set_parent(arena, scope);
            changed.add_override(arena, inner);
            ValueOrScope::Scope(changed)
        }
    }
}

/// Takes all steps; imports are answered by `import`.
fn run(
    mut evaluation: Evaluation,
    exprs: &[Expr],
    import: impl Fn(usize, &str, Option<&str>) -> Result<ImportResolution, ExecError>,
) -> Result<String, ExecError> {
    match meaning(&mut evaluation, exprs, import) {
        Ok(ValueOrScope::Value(value)) => Ok(write_json(&value)),
        Ok(ValueOrScope::Scope(_)) => panic!("a scope is no value"),
        Err(e) => Err(e),
    }
}

/// Takes all steps, and gives what the evaluation comes to.
fn meaning(
    evaluation: &mut Evaluation,
    exprs: &[Expr],
    import: impl Fn(usize, &str, Option<&str>) -> Result<ImportResolution, ExecError>,
) -> Result<ValueOrScope, ExecError> {
    let mut event = Event::Go;
    for _ in 0..10000 {
        match evaluation.step(event) {
            Action::Go => event = Event::Go,
            Action::Dependencies(expr) => event = Event::Dependencies(dependencies(&exprs[expr.id])),
            Action::Evaluate { scope, expr, resolved } => {
                let value = evaluate(&mut evaluation.arena, scope, &exprs[expr.id], &resolved);
                event = Event::Evaluated(Ok(value));
            }
            Action::Import { resolver, from, context } => {
                event = Event::Imported(import(resolver, &from, context.as_deref()));
            }
            Action::Done(answer) => return answer,
        }
    }
    panic!("no end")
}

fn nothing(_: usize, from: &str, _: Option<&str>) -> Result<ImportResolution, ExecError> {
    Err(ExecError::ImportResolutionError(format!("no {from}")))
}

fn value_of(list: &[(&'static str, usize)], value: Option<usize>, specifier: &str, exprs: &[Expr]) -> Result<String, ExecError> {
    run(exec(&module(list, value), "", specifier, names()), exprs, nothing)
}

fn symbol_message(r: Result<String, ExecError>) -> String {
    match r {
        Err(ExecError::CannotResolveSymbol(problem)) => problem.message,
        _ => panic!("resolved"),
    }
}

#[test]
fn a_module_is_the_dictionary_of_its_names() {
    let exprs = [Expr::Text("x"), Expr::Name("a"), Expr::Dict(vec![("k", 0), ("l", 3)]), Expr::Name("b")];
    let list = [("a", 0), ("b", 1), ("c", 2)];
    let all = "{\"a\":\"x\",\"b\":\"x\",\"c\":{\"k\":\"x\",\"l\":\"x\"}}";
    assert_eq!(value_of(&list, None, "", &exprs).ok().unwrap(), all);
    assert_eq!(value_of(&list, None, "b", &exprs).ok().unwrap(), "\"x\"");
    assert_eq!(value_of(&list, None, "c.l", &exprs).ok().unwrap(), "\"x\"");
    assert_eq!(value_of(&list, Some(2), "", &exprs).ok().unwrap(), "{\"k\":\"x\",\"l\":\"x\"}");
}

#[test]
fn what_is_not_there_cannot_be_resolved() {
    let exprs = [Expr::Name("lost"), Expr::Name("b"), Expr::Name("a"), Expr::Text("x")];
    assert_eq!(
        symbol_message(value_of(&[("a", 0)], None, "a", &exprs)),
        "unable to resolve identifier `lost`"
    );
    let circle = [("a", 1), ("b", 2)];
    assert_eq!(
        symbol_message(value_of(&circle, None, "a", &exprs)),
        "circular dependency when resolving `a`"
    );
    match value_of(&[("s", 3)], None, "s.t", &exprs) {
        Err(ExecError::CannotResolveSymbol(problem)) => assert!(problem.message.contains("string")),
        _ => panic!("resolved"),
    }
}

#[test]
fn names_in_a_dictionary_can_be_changed() {
    let exprs = [
        Expr::Text("old"),
        Expr::Name("k"),
        Expr::Dict(vec![("k", 0), ("l", 1)]),
        Expr::Text("new"),
        Expr::With("base", vec![("k", 3)]),
    ];
    let list = [("base", 2), ("changed", 4)];
    assert_eq!(value_of(&list, None, "changed", &exprs).ok().unwrap(), "{\"k\":\"new\",\"l\":\"new\"}");
    assert_eq!(value_of(&list, None, "base", &exprs).ok().unwrap(), "{\"k\":\"old\",\"l\":\"old\"}");
    let deep = [("base", 2), ("base.k", 3)];
    assert_eq!(value_of(&deep, None, "base", &exprs).ok().unwrap(), "{\"k\":\"new\",\"l\":\"new\"}");
}

#[test]
fn imports_bring_names_of_other_modules() {
    let exprs = [Expr::Text("theirs"), Expr::Name("theirs"), Expr::Name("whole")];
    let mut root = module(&[("mine", 1), ("all", 2)], None);
    root.imports.push(Import {
        spec_: ImportSpecification::Multiple(vec!["theirs".to_string()]),
        from: "//x:y.ccl".to_string(),
    });
    root.imports.push(Import { spec_: ImportSpecification::Single("whole".to_string()), from: "z.ccl".to_string() });
    let brought = |resolver: usize, from: &str, context: Option<&str>| {
        assert_eq!(context, Some("/w/BUILD.ccl"));
        if resolver == 7 {
            return Err(ExecError::ImportResolutionError("not here".to_string()));
        }
        assert_eq!(resolver, 8);
        assert!(from == "//x:y.ccl" || from == "z.ccl");
        Ok(ImportResolution { module: module(&[("theirs", 0)], None), content: String::new(), context: None })
    };
    let evaluation = exec_with_import_resolvers_and_context(
        &root,
        "",
        "",
        vec![7, 8],
        Some("/w/BUILD.ccl".to_string()),
        names(),
    );
    assert_eq!(
        run(evaluation, &exprs, brought).ok().unwrap(),
        "{\"all\":{\"theirs\":\"theirs\"},\"mine\":\"theirs\"}"
    );
    let evaluation = exec_with_import_resolvers_and_context(&root, "", "mine", vec![7], None, names());
    match run(evaluation, &exprs, nothing) {
        Err(ExecError::ImportResolutionError(message)) => assert_eq!(message, "no //x:y.ccl"),
        _ => panic!("imported"),
    }
}

#[test]
fn a_scope_has_the_names_that_stand_in_it_or_over_it() {
    let mut arena = Arena::new();
    let scope = Scope::from_dictionary(&mut arena, &dictionary(&[("b", 0), ("a", 0)]), "0123456789".to_string());
    let over = Scope::from_dictionary(&mut arena, &dictionary(&[("c", 0)]), String::new());
    let other = scope.duplicate(&mut arena);
    other.add_override(&mut arena, over);
    assert_eq!(scope.keys(&arena), vec!["a", "b"]);
    assert_eq!(other.keys(&arena), vec!["a", "b", "c"]);
    let empty = Scope::empty(&mut arena, "0123456789".to_string(), 2, 5);
    assert_eq!(empty.scope_content(&arena), "234");
    assert_eq!(empty.keys(&arena), Vec::<String>::new());
}

#[test]
fn a_copy_of_a_scope_goes_its_own_way() {
    let mut arena = Arena::new();
    let scope = Scope::from_dictionary(&mut arena, &dictionary(&[("a", 0)]), "ab".to_string());
    let over = Scope::from_dictionary(&mut arena, &dictionary(&[("b", 0)]), String::new());
    let copy = scope.duplicate(&mut arena);
    assert_eq!(copy.keys(&arena), scope.keys(&arena));
    copy.add_override(&mut arena, over);
    copy.set_parent(&mut arena, over);
    copy.set_import_context(&mut arena, Some("x".to_string()));
    assert_eq!(scope.keys(&arena), vec!["a"]);
    assert_eq!(copy.keys(&arena), vec!["a", "b"]);
    let inner = arena.inner(scope.id);
    assert!(inner.overrides.is_empty() && inner.parent_scope.is_none() && inner.import_context.is_none());
    let again = scope.duplicate(&mut arena);
    scope.add_override(&mut arena, over);
    assert_eq!(again.keys(&arena), vec!["a"]);
}

#[test]
fn a_module_is_what_each_of_its_names_is() {
    let exprs = [Expr::Text("x"), Expr::Name("a"), Expr::Dict(vec![("k", 0), ("l", 1)])];
    let list = [("b", 1), ("a", 0), ("c", 2)];
    let alone = |name: &str| value_of(&list, None, name, &exprs).ok().unwrap();
    assert_eq!(
        alone(""),
        format!("{{\"a\":{},\"b\":{},\"c\":{}}}", alone("a"), alone("b"), alone("c"))
    );
    assert_eq!(alone("c"), format!("{{\"k\":{},\"l\":{}}}", alone("c.k"), alone("c.l")));
}

#[test]
fn a_path_is_what_a_dictionary_has_under_a_name() {
    let list = [("n", 0), ("m", 3), ("p", 5)];
    let exprs = [
        Expr::Dict(vec![("x", 1), ("y", 2)]),
        Expr::Text("yes"),
        Expr::Text("no"),
        Expr::With("n", vec![("x", 4)]),
        Expr::Text("other"),
        Expr::Name("n.x"),
    ];
    let value = |name: &str| value_of(&list, None, name, &exprs).ok().unwrap();
    assert_eq!(value("n"), "{\"x\":\"yes\",\"y\":\"no\"}");
    assert_eq!((value("n.x"), value("n.y"), value("p")), ("\"yes\"".to_string(), "\"no\"".to_string(), value("n.x")));
    assert_eq!(value("m"), "{\"x\":\"other\",\"y\":\"no\"}");
    assert_eq!((value("m.x"), value("m.y")), ("\"other\"".to_string(), "\"no\"".to_string()));
    assert_eq!(value(""), format!("{{\"m\":{},\"n\":{},\"p\":{}}}", value("m"), value("n"), value("p")));
}

#[test]
fn errors_are_shown_with_their_place() {
    let problem = || Problem { message: "m".to_string(), start: 1, end: 2 };
    assert_eq!(ExecError::CannotResolveSymbol(problem()).render("shown"), "shown");
    assert_eq!(ExecError::OperatorWithInvalidType(problem()).render("shown"), "shown");
    assert_eq!(ExecError::ArraysCannotContainDictionaries(problem()).render("shown"), "shown");
    assert_eq!(ExecError::ImportParsingError(problem()).render("shown"), "shown");
    assert_eq!(ExecError::ImportResolutionError("why".to_string()).render("shown"), "why");
}

#[test]
fn a_name_can_stand_for_a_scope() {
    let exprs = [Expr::Text("x"), Expr::Dict(vec![("k", 0)])];
    let built = || {
        let mut arena = Arena::new();
        let scope = Scope::from_dictionary(&mut arena, &dictionary(&[("d", 1), ("t", 0)]), String::new());
        (arena, scope)
    };
    let (arena, scope) = built();
    let mut evaluation = scope.resolve_scope(arena, names(), "d".to_string(), 0);
    match meaning(&mut evaluation, &exprs, nothing) {
        Ok(ValueOrScope::Scope(inner)) => assert_eq!(inner.keys(&evaluation.arena), vec!["k"]),
        _ => panic!("no scope"),
    }
    let (arena, scope) = built();
    assert_eq!(
        symbol_message(run(scope.resolve_scope(arena, names(), "t".to_string(), 0), &exprs, nothing)),
        "unable to access inside of this (it's string)"
    );
    let (arena, scope) = built();
    assert_eq!(
        symbol_message(run(scope.resolve_scope(arena, names(), "lost".to_string(), 0), &exprs, nothing)),
        "unable to resolve identifier `lost`"
    );
    let (arena, scope) = built();
    let evaluation = scope.resolve(arena, names(), "d.k".to_string(), 0);
    assert_eq!(run(evaluation, &exprs, nothing).ok().unwrap(), "\"x\"");
    let (arena, scope) = built();
    let evaluation = scope.evaluate_expression(arena, names(), "t".to_string(), Expression { id: 0 });
    assert_eq!(run(evaluation, &exprs, nothing).ok().unwrap(), "\"x\"");
}

#[test]
fn imports_need_no_context() {
    let exprs = [Expr::Text("theirs"), Expr::Name("theirs")];
    let mut root = module(&[("mine", 1)], None);
    root.imports.push(Import {
        spec_: ImportSpecification::Multiple(vec!["theirs".to_string()]),
        from: "z.ccl".to_string(),
    });
    let brought = |resolver: usize, _: &str, context: Option<&str>| {
        assert_eq!((resolver, context), (3, None));
        Ok(ImportResolution { module: module(&[("theirs", 0)], None), content: String::new(), context: None })
    };
    let evaluation = exec_with_import_resolvers(&root, "", "mine", vec![3], names());
    assert_eq!(run(evaluation, &exprs, brought).ok().unwrap(), "\"theirs\"");
}
