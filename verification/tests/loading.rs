use tablescript::doc::Doc;
use tablescript::interp::Diag;
use tablescript::loader::{load, LoadError};
use tablescript::run_document;

fn entry_table(entries: Vec<(&str, Doc)>) -> Doc {
    Doc::Table(entries.into_iter().map(|(k, v)| (k.to_string(), v)).collect())
}

fn simple_function(instructions: Vec<Doc>) -> Doc {
    entry_table(vec![("instructions", Doc::Arr(instructions))])
}

fn load_err(doc: &Doc) -> LoadError {
    let mut diags: Vec<Diag> = Vec::new();
    match load(doc, &mut diags) {
        Err(e) => {
            assert!(diags.is_empty());
            e
        },
        Ok(_) => panic!("expected the load to fail"),
    }
}

#[test]
fn a_document_must_be_a_table() {
    let e = load_err(&Doc::Integer(3));
    match e {
        LoadError::TypeMismatch(name) => assert_eq!(name, "document"),
        _ => panic!("expected a shape failure"),
    }
}

#[test]
fn a_missing_function_section_is_fatal() {
    let e = load_err(&entry_table(vec![]));
    match e {
        LoadError::MissingSection(name) => assert_eq!(name, "function"),
        _ => panic!("expected a missing section"),
    }
}

#[test]
fn a_missing_entry_function_is_fatal() {
    let doc = entry_table(vec![(
        "function",
        entry_table(vec![("helper", simple_function(vec![]))]),
    )]);
    let e = load_err(&doc);
    match e {
        LoadError::MissingSection(name) => assert_eq!(name, "main"),
        _ => panic!("expected a missing entry function"),
    }
}

#[test]
fn a_function_without_instructions_is_fatal() {
    let doc = entry_table(vec![(
        "function",
        entry_table(vec![("main", entry_table(vec![]))]),
    )]);
    let e = load_err(&doc);
    match e {
        LoadError::MissingField(name) => {
            assert_eq!(name, "main");
            assert_eq!(
                LoadError::MissingField(name).message(),
                "missing instructions in main"
            );
        },
        _ => panic!("expected a missing field"),
    }
}

#[test]
fn locals_must_be_an_array_of_texts() {
    let doc = entry_table(vec![(
        "function",
        entry_table(vec![(
            "main",
            entry_table(vec![
                ("locals", Doc::Arr(vec![Doc::Integer(1)])),
                ("instructions", Doc::Arr(vec![])),
            ]),
        )]),
    )]);
    let e = load_err(&doc);
    assert!(matches!(e, LoadError::TypeMismatch(_)));
}

#[test]
fn an_instruction_must_be_a_well_formed_expression() {
    let doc = entry_table(vec![(
        "function",
        entry_table(vec![(
            "main",
            simple_function(vec![Doc::Arr(vec![])]),
        )]),
    )]);
    let e = load_err(&doc);
    assert!(matches!(e, LoadError::TypeMismatch(_)));
}

#[test]
fn a_template_section_must_be_a_table() {
    let doc = entry_table(vec![
        ("function", entry_table(vec![("main", simple_function(vec![]))])),
        ("struct", Doc::Integer(1)),
    ]);
    let e = load_err(&doc);
    match e {
        LoadError::TypeMismatch(name) => assert_eq!(name, "struct"),
        _ => panic!("expected a shape failure"),
    }
}

#[test]
fn a_template_field_referencing_anything_is_undefined_and_reported() {
    let call_node = Doc::Table(vec![(
        "other".to_string(),
        Doc::Arr(vec![]),
    )]);
    let doc = entry_table(vec![
        (
            "function",
            entry_table(vec![(
                "main",
                simple_function(vec![Doc::Table(vec![(
                    "println".to_string(),
                    Doc::Arr(vec![Doc::Table(vec![("P".to_string(), Doc::Arr(vec![]))])]),
                )])]),
            )]),
        ),
        (
            "struct",
            entry_table(vec![("P", entry_table(vec![("z", call_node)]))]),
        ),
    ]);
    let mut out = String::new();
    let mut diags: Vec<Diag> = Vec::new();
    let r = run_document(&doc, 100, &mut out, &mut diags);
    assert!(r.is_ok());
    assert_eq!(out, "{z = undefined}\n");
    assert_eq!(diags.len(), 1);
    match &diags[0] {
        Diag::UnknownCallable(name) => assert_eq!(name, "other"),
        _ => panic!("expected an unknown-callable report"),
    }
}

#[test]
fn a_failing_load_runs_nothing() {
    let doc = entry_table(vec![]);
    let mut out = String::new();
    let mut diags: Vec<Diag> = Vec::new();
    let r = run_document(&doc, 100, &mut out, &mut diags);
    assert!(r.is_err());
    assert_eq!(out, "");
    assert!(diags.is_empty());
}

#[test]
fn loading_keeps_declared_locals_and_appends_arguments() {
    let doc = entry_table(vec![(
        "function",
        entry_table(vec![(
            "main",
            entry_table(vec![
                ("locals", Doc::Arr(vec![Doc::Text("x".to_string())])),
                ("arguments", Doc::Arr(vec![Doc::Text("a".to_string())])),
                ("instructions", Doc::Arr(vec![])),
            ]),
        )]),
    )]);
    let mut diags: Vec<Diag> = Vec::new();
    let program = match load(&doc, &mut diags) {
        Ok(program) => program,
        Err(_) => panic!("expected the load to succeed"),
    };
    assert_eq!(program.functions.len(), 1);
    let (name, main) = &program.functions[0];
    assert_eq!(name, "main");
    assert_eq!(main.params, vec!["a".to_string()]);
    assert_eq!(main.locals, vec!["x".to_string(), "a".to_string()]);
    assert!(main.instructions.is_empty());
}
