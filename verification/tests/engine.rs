use tablescript::doc::Doc;
use tablescript::interp::Diag;
use tablescript::value::{render, int_to_text, Value};
use tablescript::scope::Scope;
use tablescript::{run_document, EngineError};

fn text(s: &str) -> Doc {
    Doc::Text(s.to_string())
}

fn call(head: &str, args: Vec<Doc>) -> Doc {
    Doc::Table(vec![(head.to_string(), Doc::Arr(args))])
}

fn table(entries: Vec<(&str, Doc)>) -> Doc {
    Doc::Table(entries.into_iter().map(|(k, v)| (k.to_string(), v)).collect())
}

fn names(items: &[&str]) -> Doc {
    Doc::Arr(items.iter().map(|s| text(s)).collect())
}

fn function(locals: Option<&[&str]>, arguments: Option<&[&str]>, instructions: Vec<Doc>) -> Doc {
    let mut entries: Vec<(String, Doc)> = Vec::new();
    if let Some(ls) = locals {
        entries.push(("locals".to_string(), names(ls)));
    }
    if let Some(args) = arguments {
        entries.push(("arguments".to_string(), names(args)));
    }
    entries.push(("instructions".to_string(), Doc::Arr(instructions)));
    Doc::Table(entries)
}

fn document(functions: Vec<(&str, Doc)>) -> Doc {
    table(vec![("function", table(functions))])
}

fn run_ok(doc: &Doc) -> (String, Vec<Diag>) {
    let mut out = String::new();
    let mut diags: Vec<Diag> = Vec::new();
    let r = run_document(doc, 100, &mut out, &mut diags);
    assert!(r.is_ok());
    (out, diags)
}

#[test]
fn hello_world() {
    let doc = document(vec![(
        "main",
        function(None, None, vec![call("println", vec![text("Hello, world!")])]),
    )]);
    let (out, diags) = run_ok(&doc);
    assert_eq!(out, "Hello, world!\n");
    assert!(diags.is_empty());
}

#[test]
fn write_then_read_local() {
    let doc = document(vec![(
        "main",
        function(
            Some(&["x"]),
            None,
            vec![
                call("x", vec![Doc::Integer(5)]),
                call("println", vec![call("x", vec![])]),
            ],
        ),
    )]);
    let (out, diags) = run_ok(&doc);
    assert_eq!(out, "5\n");
    assert!(diags.is_empty());
}

#[test]
fn unknown_callable_is_reported_and_execution_continues() {
    let doc = document(vec![(
        "main",
        function(None, None, vec![call("undeclaredFn", vec![])]),
    )]);
    let (out, diags) = run_ok(&doc);
    assert_eq!(out, "");
    assert_eq!(diags.len(), 1);
    match &diags[0] {
        Diag::UnknownCallable(name) => assert_eq!(name, "undeclaredFn"),
        _ => panic!("expected an unknown-callable diagnostic"),
    }
    assert_eq!(diags[0].message(), "unknown callable undeclaredFn");
}

#[test]
fn template_instantiation_prints_fields_in_order() {
    let doc = table(vec![
        (
            "function",
            table(vec![(
                "main",
                function(None, None, vec![call("println", vec![call("Point", vec![])])]),
            )]),
        ),
        (
            "struct",
            table(vec![(
                "Point",
                table(vec![("x", Doc::Integer(1)), ("y", Doc::Integer(2))]),
            )]),
        ),
    ]);
    let (out, diags) = run_ok(&doc);
    assert_eq!(out, "{x = 1, y = 2}\n");
    assert!(diags.is_empty());
}

#[test]
fn printing_an_undefined_value_reports_and_prints_nothing_for_it() {
    let doc = document(vec![(
        "main",
        function(
            Some(&["x"]),
            None,
            vec![
                call("print", vec![call("x", vec![])]),
                call("println", vec![text("ok")]),
            ],
        ),
    )]);
    let (out, diags) = run_ok(&doc);
    assert_eq!(out, "ok\n");
    assert_eq!(diags.len(), 1);
    assert!(matches!(diags[0], Diag::InvalidBuiltinArgument));
    assert_eq!(diags[0].message(), "invalid builtin argument");
}

#[test]
fn arguments_bind_positionally() {
    let doc = document(vec![
        (
            "greet",
            function(
                None,
                Some(&["who"]),
                vec![call("println", vec![call("who", vec![])])],
            ),
        ),
        (
            "main",
            function(None, None, vec![call("greet", vec![text("hi")])]),
        ),
    ]);
    let (out, diags) = run_ok(&doc);
    assert_eq!(out, "hi\n");
    assert!(diags.is_empty());
}

#[test]
fn extra_arguments_are_ignored() {
    let doc = document(vec![
        (
            "greet",
            function(
                None,
                Some(&["who"]),
                vec![call("println", vec![call("who", vec![])])],
            ),
        ),
        (
            "main",
            function(
                None,
                None,
                vec![call("greet", vec![text("hi"), text("dropped")])],
            ),
        ),
    ]);
    let (out, _) = run_ok(&doc);
    assert_eq!(out, "hi\n");
}

#[test]
fn unbound_parameter_reads_as_undefined() {
    let doc = document(vec![
        (
            "greet",
            function(
                None,
                Some(&["a", "b"]),
                vec![
                    call("println", vec![call("a", vec![])]),
                    call("print", vec![call("b", vec![])]),
                ],
            ),
        ),
        (
            "main",
            function(None, None, vec![call("greet", vec![text("hi")])]),
        ),
    ]);
    let (out, diags) = run_ok(&doc);
    assert_eq!(out, "hi\n");
    assert_eq!(diags.len(), 1);
    assert!(matches!(diags[0], Diag::InvalidBuiltinArgument));
}

#[test]
fn same_literal_evaluates_the_same_twice() {
    let doc = document(vec![(
        "main",
        function(
            None,
            None,
            vec![
                call("println", vec![Doc::Integer(7)]),
                call("println", vec![Doc::Integer(7)]),
            ],
        ),
    )]);
    let (out, _) = run_ok(&doc);
    assert_eq!(out, "7\n7\n");
}

#[test]
fn template_instantiated_twice_yields_equal_values() {
    let doc = table(vec![
        (
            "function",
            table(vec![(
                "main",
                function(
                    None,
                    None,
                    vec![
                        call("println", vec![call("Pair", vec![])]),
                        call("println", vec![call("Pair", vec![])]),
                    ],
                ),
            )]),
        ),
        (
            "struct",
            table(vec![(
                "Pair",
                table(vec![("a", text("u")), ("b", Doc::Float("1.5".to_string()))]),
            )]),
        ),
    ]);
    let (out, diags) = run_ok(&doc);
    assert_eq!(out, "{a = u, b = 1.5}\n{a = u, b = 1.5}\n");
    assert!(diags.is_empty());
}

#[test]
fn assignment_is_an_expression() {
    let doc = document(vec![(
        "main",
        function(
            Some(&["x", "y"]),
            None,
            vec![
                call("x", vec![call("y", vec![Doc::Integer(3)])]),
                call("print", vec![call("x", vec![])]),
                call("println", vec![call("y", vec![])]),
            ],
        ),
    )]);
    let (out, _) = run_ok(&doc);
    assert_eq!(out, "33\n");
}

#[test]
fn later_write_wins() {
    let doc = document(vec![(
        "main",
        function(
            Some(&["x"]),
            None,
            vec![
                call("x", vec![Doc::Integer(1)]),
                call("x", vec![Doc::Integer(2)]),
                call("println", vec![call("x", vec![])]),
            ],
        ),
    )]);
    let (out, _) = run_ok(&doc);
    assert_eq!(out, "2\n");
}

#[test]
fn local_shadows_builtin() {
    let doc = document(vec![(
        "main",
        function(
            Some(&["print"]),
            None,
            vec![
                call("print", vec![Doc::Integer(5)]),
                call("println", vec![call("print", vec![])]),
            ],
        ),
    )]);
    let (out, _) = run_ok(&doc);
    assert_eq!(out, "5\n");
}

#[test]
fn builtin_shadows_function() {
    let doc = document(vec![
        (
            "println",
            function(None, None, vec![call("println", vec![text("never")])]),
        ),
        (
            "main",
            function(None, None, vec![call("println", vec![text("builtin")])]),
        ),
    ]);
    let (out, _) = run_ok(&doc);
    assert_eq!(out, "builtin\n");
}

#[test]
fn print_concatenates_without_separator() {
    let doc = document(vec![(
        "main",
        function(
            None,
            None,
            vec![
                call("print", vec![text("a")]),
                call("print", vec![text("b"), text("c")]),
                call("println", vec![text("d")]),
            ],
        ),
    )]);
    let (out, _) = run_ok(&doc);
    assert_eq!(out, "abcd\n");
}

#[test]
fn integers_render_in_decimal() {
    let doc = document(vec![(
        "main",
        function(
            None,
            None,
            vec![
                call("println", vec![Doc::Integer(0)]),
                call("println", vec![Doc::Integer(-42)]),
                call("println", vec![Doc::Integer(9007199254740993)]),
            ],
        ),
    )]);
    let (out, _) = run_ok(&doc);
    assert_eq!(out, "0\n-42\n9007199254740993\n");
}

#[test]
fn int_to_text_handles_the_extremes() {
    assert_eq!(int_to_text(0), "0");
    assert_eq!(int_to_text(-1), "-1");
    assert_eq!(int_to_text(i64::MAX), "9223372036854775807");
    assert_eq!(int_to_text(i64::MIN), "-9223372036854775808");
}

#[test]
fn floats_render_as_their_given_text() {
    let doc = document(vec![(
        "main",
        function(None, None, vec![call("println", vec![Doc::Float("2.5".to_string())])]),
    )]);
    let (out, _) = run_ok(&doc);
    assert_eq!(out, "2.5\n");
}

#[test]
fn render_handles_every_value_kind() {
    assert_eq!(render(&Value::Text("t".to_string())), "t");
    assert_eq!(render(&Value::Integer(-7)), "-7");
    assert_eq!(render(&Value::Float("0.25".to_string())), "0.25");
    assert_eq!(render(&Value::Undef), "undefined");
    let composite = Value::Composite(vec![
        ("x".to_string(), Value::Integer(1)),
        ("u".to_string(), Value::Undef),
        (
            "inner".to_string(),
            Value::Composite(vec![("y".to_string(), Value::Text("z".to_string()))]),
        ),
    ]);
    assert_eq!(render(&composite), "{x = 1, u = undefined, inner = {y = z}}");
}

#[test]
fn scope_reads_newest_write_and_undefined_otherwise() {
    let mut scope = Scope::new();
    assert!(matches!(scope.read(&"x".to_string()), Value::Undef));
    scope.set("x".to_string(), Value::Integer(1));
    scope.set("x".to_string(), Value::Integer(2));
    assert!(matches!(scope.read(&"x".to_string()), Value::Integer(2)));
    assert!(matches!(scope.read(&"y".to_string()), Value::Undef));
}

#[test]
fn unbounded_recursion_hits_the_limit() {
    let doc = document(vec![(
        "main",
        function(None, None, vec![call("main", vec![])]),
    )]);
    let mut out = String::new();
    let mut diags: Vec<Diag> = Vec::new();
    let r = run_document(&doc, 50, &mut out, &mut diags);
    match r {
        Err(EngineError::Run(e)) => assert_eq!(e.message(), "recursion limit exceeded"),
        _ => panic!("expected the recursion limit to strike"),
    }
}

#[test]
fn nested_calls_pass_evaluated_arguments() {
    let doc = document(vec![
        (
            "twice",
            function(
                None,
                Some(&["v"]),
                vec![
                    call("print", vec![call("v", vec![])]),
                    call("println", vec![call("v", vec![])]),
                ],
            ),
        ),
        (
            "main",
            function(
                Some(&["x"]),
                None,
                vec![call("twice", vec![call("x", vec![text("q")])])],
            ),
        ),
    ]);
    let (out, _) = run_ok(&doc);
    assert_eq!(out, "qq\n");
}
