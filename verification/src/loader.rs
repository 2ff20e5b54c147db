use vstd::prelude::*;
use vstd::string::StringExecFns;
use crate::doc::{Doc, DocModel, check_wf_expr, doc_list_model, doc_table_get, doc_table_model, is_literal, literal_value, lemma_doc_list_model_len, lemma_doc_table_model_len, table_find, wf_expr, wf_expr_list};
use crate::interp::{Diag, DiagModel, diags_model, call_head};
use crate::program::{Function, FunctionModel, Program, ProgramModel, fun_find, functions_model, names_model, wf_function, wf_program};
use crate::scope::entries_model;
use crate::value::{Value, ValModel};

verus! {

/// A structural failure of loading, fatal before any execution: the functions
/// section or the entry function is missing, a function lacks its
/// instructions, or some field has the wrong shape. Each variant names the
/// offending section, function or template.
pub enum LoadError {
    MissingSection(String),
    MissingField(String),
    TypeMismatch(String),
}

/// The mathematical model of a load failure.
pub enum LoadErrorModel {
    MissingSection(Seq<char>),
    MissingField(Seq<char>),
    TypeMismatch(Seq<char>),
}

impl View for LoadError {
    type V = LoadErrorModel;

    open spec fn view(&self) -> LoadErrorModel {
        match self {
            LoadError::MissingSection(name) => LoadErrorModel::MissingSection(name@),
            LoadError::MissingField(name) => LoadErrorModel::MissingField(name@),
            LoadError::TypeMismatch(name) => LoadErrorModel::TypeMismatch(name@),
        }
    }
}

/// The message of a load failure.
pub open spec fn load_error_message_model(e: LoadErrorModel) -> Seq<char> {
    match e {
        LoadErrorModel::MissingSection(name) => "missing section "@ + name,
        LoadErrorModel::MissingField(name) => "missing instructions in "@ + name,
        LoadErrorModel::TypeMismatch(name) => "ill-shaped field in "@ + name,
    }
}

impl LoadError {
    /// The message of the failure, for an error stream.
    pub fn message(&self) -> (s: String)
        ensures
            s@ == load_error_message_model(self@),
    {
        match self {
            LoadError::MissingSection(name) => {
                let mut s = String::from_str("missing section ");
                s.append(name.as_str());
                s
            },
            LoadError::MissingField(name) => {
                let mut s = String::from_str("missing instructions in ");
                s.append(name.as_str());
                s
            },
            LoadError::TypeMismatch(name) => {
                let mut s = String::from_str("ill-shaped field in ");
                s.append(name.as_str());
                s
            },
        }
    }
}

/// The names a document node lists, when it is an array of texts.
pub open spec fn parse_names_model(d: DocModel) -> Option<Seq<Seq<char>>> {
    match d {
        DocModel::Arr(items) => parse_names_list(items),
        _ => None,
    }
}

/// The names of a list of nodes, when every node is a text.
pub open spec fn parse_names_list(items: Seq<DocModel>) -> Option<Seq<Seq<char>>>
    decreases items.len(),
{
    if items.len() == 0 {
        Some(Seq::empty())
    } else {
        match parse_names_list(items.subrange(0, items.len() - 1)) {
            None => None,
            Some(names) => match items[items.len() - 1] {
                DocModel::Text(s) => Some(names.push(s)),
                _ => None,
            },
        }
    }
}

/// Once a prefix fails to parse as names, the whole list fails.
proof fn lemma_parse_names_none(items: Seq<DocModel>, k: int)
    requires
        0 <= k <= items.len(),
        parse_names_list(items.subrange(0, k)) is None,
    ensures
        parse_names_list(items) is None,
    decreases items.len(),
{
    if k == items.len() {
        assert(items.subrange(0, k) =~= items);
    } else {
        let front = items.subrange(0, items.len() - 1);
        assert(front.subrange(0, k) =~= items.subrange(0, k));
        lemma_parse_names_none(front, k);
    }
}

/// Reads a list of names, matching `parse_names_model`.
fn parse_names(d: &Doc) -> (r: Option<Vec<String>>)
    ensures
        match r {
            Some(names) => parse_names_model(d@) == Some(names_model(names@)),
            None => parse_names_model(d@) is None,
        },
{
    match d {
        Doc::Arr(items) => {
            proof {
                lemma_doc_list_model_len(items@);
            }
            let ghost itemsm = doc_list_model(items@);
            let mut names: Vec<String> = Vec::new();
            let mut k: usize = 0;
            proof {
                assert(itemsm.subrange(0, 0) =~= Seq::<DocModel>::empty());
                assert(names_model(names@) =~= Seq::<Seq<char>>::empty());
            }
            while k < items.len()
                invariant
                    k <= items@.len(),
                    itemsm == doc_list_model(items@),
                    itemsm.len() == items@.len(),
                    forall|j: int|
                        0 <= j < items@.len() ==> itemsm[j] == crate::doc::doc_model(items@[j]),
                    d@ == DocModel::Arr(itemsm),
                    parse_names_list(itemsm.subrange(0, k as int)) == Some(names_model(names@)),
                decreases items@.len() - k,
            {
                proof {
                    let ghost pre = itemsm.subrange(0, k + 1);
                    assert(pre.subrange(0, k as int) =~= itemsm.subrange(0, k as int));
                    assert(pre[pre.len() - 1] == itemsm[k as int]);
                }
                match &items[k] {
                    Doc::Text(s) => {
                        names.push(s.clone());
                        proof {
                            assert(names_model(names@) =~= parse_names_list(
                                itemsm.subrange(0, k + 1),
                            )->Some_0);
                        }
                    },
                    _ => {
                        proof {
                            assert(!(itemsm[k as int] is Text));
                            assert(parse_names_list(itemsm.subrange(0, k + 1)) is None);
                            lemma_parse_names_none(itemsm, k + 1);
                        }
                        return None;
                    },
                }
                k += 1;
            }
            proof {
                assert(itemsm.subrange(0, items@.len() as int) =~= itemsm);
            }
            Some(names)
        },
        _ => None,
    }
}

/// The function a function-section entry describes: optional `locals` and
/// `arguments` lists of names (the arguments stand at the end of the locals
/// and are the parameters), and the required `instructions` list, each
/// instruction a well-formed expression.
pub open spec fn parse_function_model(name: Seq<char>, body: DocModel) -> Result<
    FunctionModel,
    LoadErrorModel,
> {
    match body {
        DocModel::Table(fields) => {
            let locals0 = match table_find(fields, "locals"@) {
                None => Some(Seq::<Seq<char>>::empty()),
                Some(d) => parse_names_model(d),
            };
            let params = match table_find(fields, "arguments"@) {
                None => Some(Seq::<Seq<char>>::empty()),
                Some(d) => parse_names_model(d),
            };
            if locals0 is None || params is None {
                Err(LoadErrorModel::TypeMismatch(name))
            } else {
                match table_find(fields, "instructions"@) {
                    None => Err(LoadErrorModel::MissingField(name)),
                    Some(DocModel::Arr(insts)) => if wf_expr_list(insts) {
                        Ok(
                            FunctionModel {
                                params: params->Some_0,
                                locals: locals0->Some_0 + params->Some_0,
                                instructions: insts,
                            },
                        )
                    } else {
                        Err(LoadErrorModel::TypeMismatch(name))
                    },
                    Some(_) => Err(LoadErrorModel::TypeMismatch(name)),
                }
            }
        },
        _ => Err(LoadErrorModel::TypeMismatch(name)),
    }
}

/// Reads one function record, matching `parse_function_model`.
fn parse_function(name: &String, body: &Doc) -> (r: Result<Function, LoadError>)
    ensures
        match r {
            Ok(f) => parse_function_model(name@, body@) == Ok::<FunctionModel, LoadErrorModel>(f@),
            Err(e) => parse_function_model(name@, body@) == Err::<FunctionModel, LoadErrorModel>(
                e@,
            ),
        },
{
    match body {
        Doc::Table(fields) => {
            let mut locals: Vec<String> = match doc_table_get(fields, "locals") {
                None => Vec::new(),
                Some(d) => match parse_names(d) {
                    Some(names) => names,
                    None => {
                        return Err(LoadError::TypeMismatch(name.clone()));
                    },
                },
            };
            let params: Vec<String> = match doc_table_get(fields, "arguments") {
                None => Vec::new(),
                Some(d) => match parse_names(d) {
                    Some(names) => names,
                    None => {
                        return Err(LoadError::TypeMismatch(name.clone()));
                    },
                },
            };
            proof {
                if table_find(doc_table_model(fields@), "locals"@) is None {
                    assert(names_model(locals@) =~= Seq::<Seq<char>>::empty());
                }
                if table_find(doc_table_model(fields@), "arguments"@) is None {
                    assert(names_model(params@) =~= Seq::<Seq<char>>::empty());
                }
            }
            let ghost locals0m = names_model(locals@);
            let mut k: usize = 0;
            proof {
                assert(names_model(locals@) =~= locals0m + names_model(params@).subrange(0, 0));
            }
            while k < params.len()
                invariant
                    k <= params@.len(),
                    names_model(locals@) == locals0m + names_model(params@).subrange(0, k as int),
                decreases params@.len() - k,
            {
                let ghost before = names_model(locals@);
                locals.push(params[k].clone());
                proof {
                    let ghost now = names_model(locals@);
                    assert(now.len() == before.len() + 1);
                    assert(forall|j: int| 0 <= j < before.len() ==> now[j] == before[j]);
                    assert(now[before.len() as int] == names_model(params@)[k as int]);
                    assert(now =~= locals0m + names_model(params@).subrange(0, k + 1));
                }
                k += 1;
            }
            proof {
                assert(names_model(params@).subrange(0, params@.len() as int) =~= names_model(
                    params@,
                ));
                assert(locals0m + names_model(params@).subrange(0, 0) =~= locals0m);
            }
            match doc_table_get(fields, "instructions") {
                None => Err(LoadError::MissingField(name.clone())),
                Some(instructions_doc) => match instructions_doc {
                    Doc::Arr(items) => {
                        if !crate::doc::check_wf_list(items) {
                            return Err(LoadError::TypeMismatch(name.clone()));
                        }
                        let instructions = crate::doc::Doc::deep_copy(instructions_doc);
                        match instructions {
                            Doc::Arr(insts) => Ok(
                                Function { params: params, locals: locals, instructions: insts },
                            ),
                            _ => {
                                proof {
                                    assert(false);
                                }
                                Err(LoadError::TypeMismatch(name.clone()))
                            },
                        }
                    },
                    _ => Err(LoadError::TypeMismatch(name.clone())),
                },
            }
        },
        _ => Err(LoadError::TypeMismatch(name.clone())),
    }
}

/// The functions a function section describes, in order of its entries.
pub open spec fn load_functions_model(entries: Seq<(Seq<char>, DocModel)>) -> Result<
    Seq<(Seq<char>, FunctionModel)>,
    LoadErrorModel,
>
    decreases entries.len(),
{
    if entries.len() == 0 {
        Ok(Seq::empty())
    } else {
        match load_functions_model(entries.subrange(0, entries.len() - 1)) {
            Err(e) => Err(e),
            Ok(funcs) => match parse_function_model(
                entries[entries.len() - 1].0,
                entries[entries.len() - 1].1,
            ) {
                Err(e) => Err(e),
                Ok(f) => Ok(funcs.push((entries[entries.len() - 1].0, f))),
            },
        }
    }
}

/// Once a prefix of the section fails to load, the whole section fails the
/// same way.
proof fn lemma_load_functions_err(entries: Seq<(Seq<char>, DocModel)>, k: int)
    requires
        0 <= k <= entries.len(),
        load_functions_model(entries.subrange(0, k)) is Err,
    ensures
        load_functions_model(entries) == load_functions_model(entries.subrange(0, k)),
    decreases entries.len(),
{
    if k == entries.len() {
        assert(entries.subrange(0, k) =~= entries);
    } else {
        let front = entries.subrange(0, entries.len() - 1);
        assert(front.subrange(0, k) =~= entries.subrange(0, k));
        lemma_load_functions_err(front, k);
    }
}

/// Every function a section loads to is well formed.
proof fn lemma_load_functions_wf(entries: Seq<(Seq<char>, DocModel)>)
    requires
        load_functions_model(entries) is Ok,
    ensures
        forall|i: int|
            0 <= i < load_functions_model(entries)->Ok_0.len() ==> wf_function(
                #[trigger] load_functions_model(entries)->Ok_0[i].1,
            ),
        load_functions_model(entries)->Ok_0.len() == entries.len(),
    decreases entries.len(),
{
    if entries.len() > 0 {
        lemma_load_functions_wf(entries.subrange(0, entries.len() - 1));
    }
}

/// The value a template field evaluates to at load time: templates see no
/// scope and no program context, so a literal yields itself and anything
/// call-shaped resolves to nothing and yields the undefined value.
pub open spec fn template_field_value(d: DocModel) -> ValModel {
    if is_literal(d) {
        literal_value(d)
    } else {
        ValModel::Undef
    }
}

/// The diagnostics a template field emits at load time: one unknown-callable
/// report for a call-shaped field.
pub open spec fn template_field_diags(d: DocModel) -> Seq<DiagModel> {
    if is_literal(d) {
        Seq::empty()
    } else {
        seq![DiagModel::UnknownCallable(call_head(d))]
    }
}

/// Whether every field expression of a template is well formed.
pub open spec fn wf_field_exprs(fields: Seq<(Seq<char>, DocModel)>) -> bool {
    forall|i: int| 0 <= i < fields.len() ==> wf_expr(#[trigger] fields[i].1)
}

/// The snapshot fields of a template, in order.
pub open spec fn template_value(fields: Seq<(Seq<char>, DocModel)>) -> Seq<(Seq<char>, ValModel)>
    decreases fields.len(),
{
    if fields.len() == 0 {
        Seq::empty()
    } else {
        template_value(fields.subrange(0, fields.len() - 1)).push(
            (fields[fields.len() - 1].0, template_field_value(fields[fields.len() - 1].1)),
        )
    }
}

pub broadcast proof fn lemma_template_value_len(fields: Seq<(Seq<char>, DocModel)>)
    ensures
        #[trigger] template_value(fields).len() == fields.len(),
        forall|i: int|
            0 <= i < fields.len() ==> template_value(fields)[i] == (
                fields[i].0,
                template_field_value(fields[i].1),
            ),
    decreases fields.len(),
{
    if fields.len() > 0 {
        lemma_template_value_len(fields.subrange(0, fields.len() - 1));
    }
}

/// The diagnostics evaluating a template's fields emits, in order.
pub open spec fn template_diags(fields: Seq<(Seq<char>, DocModel)>) -> Seq<DiagModel>
    decreases fields.len(),
{
    if fields.len() == 0 {
        Seq::empty()
    } else {
        template_diags(fields.subrange(0, fields.len() - 1)) + template_field_diags(
            fields[fields.len() - 1].1,
        )
    }
}

/// The template snapshots a template section describes, with the diagnostics
/// their field evaluations emitted.
pub open spec fn load_templates_model(entries: Seq<(Seq<char>, DocModel)>) -> Result<
    (Seq<(Seq<char>, ValModel)>, Seq<DiagModel>),
    LoadErrorModel,
>
    decreases entries.len(),
{
    if entries.len() == 0 {
        Ok((Seq::empty(), Seq::empty()))
    } else {
        match load_templates_model(entries.subrange(0, entries.len() - 1)) {
            Err(e) => Err(e),
            Ok((templates, diags)) => match entries[entries.len() - 1].1 {
                DocModel::Table(fields) => if wf_field_exprs(fields) {
                    Ok(
                        (
                            templates.push(
                                (
                                    entries[entries.len() - 1].0,
                                    ValModel::Composite(template_value(fields)),
                                ),
                            ),
                            diags + template_diags(fields),
                        ),
                    )
                } else {
                    Err(LoadErrorModel::TypeMismatch(entries[entries.len() - 1].0))
                },
                _ => Err(LoadErrorModel::TypeMismatch(entries[entries.len() - 1].0)),
            },
        }
    }
}

/// Once a prefix of the section fails to load, the whole section fails the
/// same way.
proof fn lemma_load_templates_err(entries: Seq<(Seq<char>, DocModel)>, k: int)
    requires
        0 <= k <= entries.len(),
        load_templates_model(entries.subrange(0, k)) is Err,
    ensures
        load_templates_model(entries) == load_templates_model(entries.subrange(0, k)),
    decreases entries.len(),
{
    if k == entries.len() {
        assert(entries.subrange(0, k) =~= entries);
    } else {
        let front = entries.subrange(0, entries.len() - 1);
        assert(front.subrange(0, k) =~= entries.subrange(0, k));
        lemma_load_templates_err(front, k);
    }
}

/// What loading a whole document yields: the program and the load-time
/// diagnostics, or the first structural failure. The document must be a table
/// holding a `function` table with a `main` entry; a `struct` table of
/// composite templates is optional.
pub open spec fn load_model(d: DocModel) -> Result<
    (ProgramModel, Seq<DiagModel>),
    LoadErrorModel,
> {
    match d {
        DocModel::Table(top) => match table_find(top, "function"@) {
            None => Err(LoadErrorModel::MissingSection("function"@)),
            Some(DocModel::Table(fentries)) => match load_functions_model(fentries) {
                Err(e) => Err(e),
                Ok(funcs) => {
                    let templates = match table_find(top, "struct"@) {
                        None => Ok((Seq::<(Seq<char>, ValModel)>::empty(), Seq::<DiagModel>::empty())),
                        Some(DocModel::Table(tentries)) => load_templates_model(tentries),
                        Some(_) => Err(LoadErrorModel::TypeMismatch("struct"@)),
                    };
                    match templates {
                        Err(e) => Err(e),
                        Ok((temps, tdiags)) => if fun_find(funcs, "main"@) is Some {
                            Ok((ProgramModel { functions: funcs, templates: temps }, tdiags))
                        } else {
                            Err(LoadErrorModel::MissingSection("main"@))
                        },
                    }
                },
            },
            Some(_) => Err(LoadErrorModel::TypeMismatch("function"@)),
        },
        _ => Err(LoadErrorModel::TypeMismatch("document"@)),
    }
}

/// Builds one template snapshot: each field evaluated at load time, the
/// fields' diagnostics appended in order. Refuses a template whose fields are
/// not well-formed expressions, leaving the diagnostics untouched.
fn build_template(fields: &Vec<(String, Doc)>, diags: &mut Vec<Diag>) -> (r: Option<Value>)
    ensures
        ({
            let fm = doc_table_model(fields@);
            match r {
                Some(v) => wf_field_exprs(fm) && v@ == ValModel::Composite(template_value(fm))
                    && diags_model(final(diags)@) == diags_model(old(diags)@) + template_diags(fm),
                None => !wf_field_exprs(fm) && final(diags)@ == old(diags)@,
            }
        }),
{
    let ghost fm = doc_table_model(fields@);
    proof {
        lemma_doc_table_model_len(fields@);
    }
    let mut k: usize = 0;
    while k < fields.len()
        invariant
            k <= fields@.len(),
            fm == doc_table_model(fields@),
            fm.len() == fields@.len(),
            forall|j: int|
                0 <= j < fields@.len() ==> fm[j] == (fields@[j].0@, crate::doc::doc_model(
                    fields@[j].1,
                )),
            forall|j: int| 0 <= j < k ==> wf_expr(#[trigger] fm[j].1),
        decreases fields@.len() - k,
    {
        if !check_wf_expr(&fields[k].1) {
            proof {
                assert(!wf_expr(fm[k as int].1));
            }
            return None;
        }
        k += 1;
    }
    let mut out_fields: Vec<(String, Value)> = Vec::new();
    let mut k: usize = 0;
    let ghost base_diags = diags_model(diags@);
    proof {
        assert(crate::value::fields_model(out_fields@) =~= template_value(fm.subrange(0, 0)));
        assert(base_diags + template_diags(fm.subrange(0, 0)) =~= base_diags);
    }
    while k < fields.len()
        invariant
            k <= fields@.len(),
            fm == doc_table_model(fields@),
            fm.len() == fields@.len(),
            forall|j: int|
                0 <= j < fields@.len() ==> fm[j] == (fields@[j].0@, crate::doc::doc_model(
                    fields@[j].1,
                )),
            forall|j: int| 0 <= j < fm.len() ==> wf_expr(#[trigger] fm[j].1),
            out_fields@.len() == k,
            forall|j: int|
                0 <= j < k ==> #[trigger] out_fields@[j].0@ == fm[j].0 && crate::value::val_model(
                    out_fields@[j].1,
                ) == template_field_value(fm[j].1),
            diags_model(diags@) == base_diags + template_diags(fm.subrange(0, k as int)),
        decreases fields@.len() - k,
    {
        proof {
            let ghost pre = fm.subrange(0, k + 1);
            assert(pre.subrange(0, k as int) =~= fm.subrange(0, k as int));
            assert(pre[pre.len() - 1] == fm[k as int]);
            assert(fm[k as int] == (fields@[k as int].0@, crate::doc::doc_model(
                fields@[k as int].1,
            )));
            assert(wf_expr(fm[k as int].1));
        }
        let name = fields[k].0.clone();
        let ghost diags_before = diags_model(diags@);
        let value: Value = match &fields[k].1 {
            Doc::Text(s) => Value::Text(s.clone()),
            Doc::Integer(i) => Value::Integer(*i),
            Doc::Float(t) => Value::Float(t.clone()),
            Doc::Arr(_) => {
                proof {
                    assert(false);
                }
                Value::Undef
            },
            Doc::Table(_) => {
                let head: String = match &fields[k].1 {
                    Doc::Table(entries) => {
                        proof {
                            lemma_doc_table_model_len(entries@);
                            assert(fm[k as int].1 == DocModel::Table(doc_table_model(entries@)));
                            assert(doc_table_model(entries@).len() == 1);
                        }
                        entries[0].0.clone()
                    },
                    _ => {
                        proof {
                            assert(false);
                        }
                        String::new()
                    },
                };
                let ghost headm = head@;
                proof {
                    assert(headm == call_head(fm[k as int].1));
                }
                diags.push(Diag::UnknownCallable(head));
                proof {
                    assert(diags_model(diags@) =~= diags_before.push(
                        DiagModel::UnknownCallable(headm),
                    ));
                    assert(diags_before.push(DiagModel::UnknownCallable(headm)) =~= diags_before
                        + template_field_diags(fm[k as int].1));
                }
                Value::Undef
            },
        };
        out_fields.push((name, value));
        proof {
            if is_literal(fm[k as int].1) {
                assert(diags_model(diags@) == diags_before);
                assert(diags_before + template_field_diags(fm[k as int].1) =~= diags_before);
            }
            assert(diags_model(diags@) =~= base_diags + template_diags(fm.subrange(0, k + 1)));
        }
        k += 1;
    }
    proof {
        assert(fm.subrange(0, fields@.len() as int) =~= fm);
        crate::value::lemma_fields_model_len(out_fields@);
        lemma_template_value_len(fm);
        assert(crate::value::fields_model(out_fields@) =~= template_value(fm));
    }
    Some(Value::Composite(out_fields))
}

/// Reads the function section, matching `load_functions_model`.
fn load_functions(entries: &Vec<(String, Doc)>) -> (r: Result<
    Vec<(String, Function)>,
    LoadError,
>)
    ensures
        match r {
            Ok(funcs) => load_functions_model(doc_table_model(entries@)) == Ok::<
                Seq<(Seq<char>, FunctionModel)>,
                LoadErrorModel,
            >(functions_model(funcs@)),
            Err(e) => load_functions_model(doc_table_model(entries@)) == Err::<
                Seq<(Seq<char>, FunctionModel)>,
                LoadErrorModel,
            >(e@),
        },
{
    let ghost em = doc_table_model(entries@);
    proof {
        lemma_doc_table_model_len(entries@);
    }
    let mut funcs: Vec<(String, Function)> = Vec::new();
    let mut k: usize = 0;
    proof {
        assert(em.subrange(0, 0) =~= Seq::<(Seq<char>, DocModel)>::empty());
        assert(functions_model(funcs@) =~= Seq::<(Seq<char>, FunctionModel)>::empty());
    }
    while k < entries.len()
        invariant
            k <= entries@.len(),
            em == doc_table_model(entries@),
            em.len() == entries@.len(),
            forall|j: int|
                0 <= j < entries@.len() ==> em[j] == (entries@[j].0@, crate::doc::doc_model(
                    entries@[j].1,
                )),
            load_functions_model(em.subrange(0, k as int)) == Ok::<
                Seq<(Seq<char>, FunctionModel)>,
                LoadErrorModel,
            >(functions_model(funcs@)),
        decreases entries@.len() - k,
    {
        proof {
            let ghost pre = em.subrange(0, k + 1);
            assert(pre.subrange(0, k as int) =~= em.subrange(0, k as int));
            assert(pre[pre.len() - 1] == em[k as int]);
        }
        match parse_function(&entries[k].0, &entries[k].1) {
            Ok(f) => {
                let name = entries[k].0.clone();
                funcs.push((name, f));
                proof {
                    assert(functions_model(funcs@) =~= load_functions_model(
                        em.subrange(0, k + 1),
                    )->Ok_0);
                }
            },
            Err(e) => {
                proof {
                    lemma_load_functions_err(em, k + 1);
                }
                return Err(e);
            },
        }
        k += 1;
    }
    proof {
        assert(em.subrange(0, entries@.len() as int) =~= em);
    }
    Ok(funcs)
}

/// Loads a whole document into a program, matching `load_model`. On success
/// the load-time diagnostics are appended to the given list; on a failure the
/// list stays as it was. A loaded program is well formed and holds `main`.
pub fn load(doc: &Doc, diags: &mut Vec<Diag>) -> (r: Result<Program, LoadError>)
    ensures
        match load_model(doc@) {
            Ok((pm, ds)) => {
                &&& (match r {
                    Ok(program) => program@ == pm,
                    Err(_) => false,
                })
                &&& diags_model(final(diags)@) == diags_model(old(diags)@) + ds
                &&& wf_program(pm)
                &&& fun_find(pm.functions, "main"@) is Some
            },
            Err(e) => {
                &&& (match r {
                    Ok(_) => false,
                    Err(le) => le@ == e,
                })
                &&& final(diags)@ == old(diags)@
            },
        },
{
    match doc {
        Doc::Table(top) => {
            proof {
                lemma_doc_table_model_len(top@);
            }
            match doc_table_get(top, "function") {
                None => Err(LoadError::MissingSection(String::from_str("function"))),
                Some(fsec) => match fsec {
                    Doc::Table(fentries) => {
                        let funcs = match load_functions(fentries) {
                            Ok(funcs) => funcs,
                            Err(e) => {
                                return Err(e);
                            },
                        };
                        proof {
                            lemma_load_functions_wf(doc_table_model(fentries@));
                        }
                        let mut templates: Vec<(String, Value)> = Vec::new();
                        let mut tdiags: Vec<Diag> = Vec::new();
                        proof {
                            assert(entries_model(templates@) =~= Seq::<
                                (Seq<char>, ValModel),
                            >::empty());
                            assert(diags_model(tdiags@) =~= Seq::<DiagModel>::empty());
                        }
                        match doc_table_get(top, "struct") {
                            None => {},
                            Some(tsec) => match tsec {
                                Doc::Table(tentries) => {
                                    let ghost tm = doc_table_model(tentries@);
                                    proof {
                                        lemma_doc_table_model_len(tentries@);
                                        assert(tm.subrange(0, 0) =~= Seq::<
                                            (Seq<char>, DocModel),
                                        >::empty());
                                    }
                                    let mut k: usize = 0;
                                    while k < tentries.len()
                                        invariant
                                            k <= tentries@.len(),
                                            tm == doc_table_model(tentries@),
                                            tm.len() == tentries@.len(),
                                            forall|j: int|
                                                0 <= j < tentries@.len() ==> tm[j] == (
                                                    tentries@[j].0@,
                                                    crate::doc::doc_model(tentries@[j].1),
                                                ),
                                            load_templates_model(tm.subrange(0, k as int)) == Ok::<
                                                (Seq<(Seq<char>, ValModel)>, Seq<DiagModel>),
                                                LoadErrorModel,
                                            >((entries_model(templates@), diags_model(tdiags@))),
                                            doc@ == DocModel::Table(doc_table_model(top@)),
                                            table_find(doc_table_model(top@), "function"@)
                                                == Some(DocModel::Table(doc_table_model(fentries@))),
                                            load_functions_model(doc_table_model(fentries@))
                                                == Ok::<
                                                Seq<(Seq<char>, FunctionModel)>,
                                                LoadErrorModel,
                                            >(functions_model(funcs@)),
                                            table_find(doc_table_model(top@), "struct"@) == Some(
                                                DocModel::Table(tm),
                                            ),
                                        decreases tentries@.len() - k,
                                    {
                                        proof {
                                            let ghost pre = tm.subrange(0, k + 1);
                                            assert(pre.subrange(0, k as int) =~= tm.subrange(
                                                0,
                                                k as int,
                                            ));
                                            assert(pre[pre.len() - 1] == tm[k as int]);
                                        }
                                        match &tentries[k].1 {
                                            Doc::Table(fields) => {
                                                proof {
                                                    assert(tm[k as int].1 == DocModel::Table(
                                                        doc_table_model(fields@),
                                                    ));
                                                }
                                                match build_template(fields, &mut tdiags) {
                                                    Some(v) => {
                                                        let name = tentries[k].0.clone();
                                                        let ghost beforev = templates@;
                                                        templates.push((name, v));
                                                        proof {
                                                            assert(templates@.subrange(
                                                                0,
                                                                templates@.len() - 1,
                                                            ) =~= beforev);
                                                            assert(entries_model(templates@)
                                                                =~= load_templates_model(
                                                                tm.subrange(0, k + 1),
                                                            )->Ok_0.0);
                                                        }
                                                    },
                                                    None => {
                                                        proof {
                                                            lemma_load_templates_err(tm, k + 1);
                                                        }
                                                        return Err(
                                                            LoadError::TypeMismatch(
                                                                tentries[k].0.clone(),
                                                            ),
                                                        );
                                                    },
                                                }
                                            },
                                            _ => {
                                                proof {
                                                    assert(!(tm[k as int].1 is Table));
                                                    lemma_load_templates_err(tm, k + 1);
                                                }
                                                return Err(
                                                    LoadError::TypeMismatch(tentries[k].0.clone()),
                                                );
                                            },
                                        }
                                        k += 1;
                                    }
                                    proof {
                                        assert(tm.subrange(0, tentries@.len() as int) =~= tm);
                                    }
                                },
                                _ => {
                                    return Err(LoadError::TypeMismatch(String::from_str("struct")));
                                },
                            },
                        }
                        let program = Program { functions: funcs, templates: templates };
                        let main_name = String::from_str("main");
                        match program.find_function(&main_name) {
                            Some(_) => {
                                let ghost ds = diags_model(tdiags@);
                                let ghost base = diags_model(diags@);
                                let ghost total = tdiags@.len() as int;
                                proof {
                                    assert(ds.subrange(0, total) =~= ds);
                                    assert(base + ds.subrange(0, 0) =~= base);
                                }
                                while tdiags.len() > 0
                                    invariant
                                        0 <= tdiags@.len() <= total,
                                        ds.len() == total,
                                        diags_model(tdiags@) == ds.subrange(
                                            total - tdiags@.len(),
                                            total,
                                        ),
                                        diags_model(diags@) == base + ds.subrange(
                                            0,
                                            total - tdiags@.len(),
                                        ),
                                    decreases tdiags@.len(),
                                {
                                    let ghost drained = diags_model(tdiags@);
                                    let ghost oldvec = tdiags@;
                                    let ghost outbefore = diags_model(diags@);
                                    let ghost done = total - tdiags@.len();
                                    let d = tdiags.remove(0);
                                    diags.push(d);
                                    proof {
                                        assert(forall|j: int|
                                            0 <= j < oldvec.len() ==> drained[j] == #[trigger] oldvec[j]@);
                                        assert(diags_model(tdiags@) =~= drained.subrange(
                                            1,
                                            drained.len() as int,
                                        ));
                                        assert(drained.subrange(1, drained.len() as int)
                                            =~= ds.subrange(done + 1, total));
                                        assert(d@ == drained[0]);
                                        assert(drained[0] == ds[done]);
                                        assert(diags_model(diags@) =~= outbefore.push(ds[done]));
                                        assert(outbefore.push(ds[done]) =~= base + ds.subrange(
                                            0,
                                            done + 1,
                                        ));
                                    }
                                }
                                proof {
                                    assert(ds.subrange(0, total) =~= ds);
                                    assert(diags_model(diags@) == base + ds);
                                }
                                Ok(program)
                            },
                            None => Err(LoadError::MissingSection(main_name)),
                        }
                    },
                    _ => Err(LoadError::TypeMismatch(String::from_str("function"))),
                },
            }
        },
        _ => Err(LoadError::TypeMismatch(String::from_str("document"))),
    }
}

} // verus!
