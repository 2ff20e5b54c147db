use vstd::prelude::*;
use vstd::string::StringExecFns;
use crate::doc::{Doc, DocModel, doc_list_model, is_literal, literal_value, wf_expr, wf_expr_list};
use crate::program::{Function, Program, ProgramModel, fun_find, names_model, wf_function, wf_program, name_listed, lemma_found_function_wf};
use crate::scope::{Scope, init_scope, scope_find, scope_read};
use crate::value::{Value, ValModel, render, render_model};

verus! {

/// A non-fatal complaint of the running engine: a call head that resolves to
/// nothing, or a value handed to a builtin that the builtin does not accept.
pub enum Diag {
    UnknownCallable(String),
    InvalidBuiltinArgument,
}

/// The mathematical model of a diagnostic.
pub enum DiagModel {
    UnknownCallable(Seq<char>),
    InvalidBuiltinArgument,
}

impl View for Diag {
    type V = DiagModel;

    open spec fn view(&self) -> DiagModel {
        match self {
            Diag::UnknownCallable(name) => DiagModel::UnknownCallable(name@),
            Diag::InvalidBuiltinArgument => DiagModel::InvalidBuiltinArgument,
        }
    }
}

/// The model of a list of diagnostics, in order.
pub open spec fn diags_model(s: Seq<Diag>) -> Seq<DiagModel> {
    Seq::new(s.len(), |i: int| s[i]@)
}

/// The model of a list of values, in order.
pub open spec fn vals_model(s: Seq<Value>) -> Seq<ValModel> {
    Seq::new(s.len(), |i: int| crate::value::val_model(s[i]))
}

/// The message of a diagnostic.
pub open spec fn diag_message_model(d: DiagModel) -> Seq<char> {
    match d {
        DiagModel::UnknownCallable(name) => "unknown callable "@ + name,
        DiagModel::InvalidBuiltinArgument => "invalid builtin argument"@,
    }
}

impl Diag {
    /// The message of the diagnostic, for an error stream.
    pub fn message(&self) -> (s: String)
        ensures
            s@ == diag_message_model(self@),
    {
        match self {
            Diag::UnknownCallable(name) => {
                let mut s = String::from_str("unknown callable ");
                s.append(name.as_str());
                s
            },
            Diag::InvalidBuiltinArgument => String::from_str("invalid builtin argument"),
        }
    }
}

/// The one fatal condition of a running program: its calls or expressions
/// nest deeper than the given bound allows.
pub enum RunError {
    RecursionLimit,
}

impl RunError {
    /// The message of the failure, for an error stream.
    pub fn message(&self) -> (s: String)
        ensures
            s@ == "recursion limit exceeded"@,
    {
        String::from_str("recursion limit exceeded")
    }
}

/// Everything an evaluation step may touch: the current call's scope, the
/// text written so far, the diagnostics reported so far, and whether the
/// recursion bound was exhausted (after which nothing further runs).
pub struct EvalState {
    pub scope: Seq<(Seq<char>, ValModel)>,
    pub out: Seq<char>,
    pub diags: Seq<DiagModel>,
    pub fatal: bool,
}

/// The head of a call-shaped node: the one key of its one-entry table.
pub open spec fn call_head(node: DocModel) -> Seq<char>
    recommends
        wf_expr(node),
        !is_literal(node),
{
    node->Table_0[0].0
}

/// The argument nodes of a call-shaped node.
pub open spec fn call_args(node: DocModel) -> Seq<DocModel>
    recommends
        wf_expr(node),
        !is_literal(node),
{
    node->Table_0[0].1->Arr_0
}

/// What the builtins write for a list of evaluated arguments: each value that
/// has a canonical text is appended to the output; an undefined value is
/// reported instead and writes nothing.
pub open spec fn print_values(vals: Seq<ValModel>, out: Seq<char>, diags: Seq<DiagModel>) -> (
    Seq<char>,
    Seq<DiagModel>,
)
    decreases vals.len(),
{
    if vals.len() == 0 {
        (out, diags)
    } else {
        let (out1, diags1) = print_values(vals.subrange(0, vals.len() - 1), out, diags);
        if vals[vals.len() - 1] is Undef {
            (out1, diags1.push(DiagModel::InvalidBuiltinArgument))
        } else {
            (out1 + render_model(vals[vals.len() - 1]), diags1)
        }
    }
}

/// One step of the evaluator: what a node yields, and how it changes the
/// state, given the program, the current function's declared locals, and the
/// remaining recursion bound. The rules, in order: a literal yields itself; a
/// declared local is read (no arguments) or written (its first argument's
/// value, which the write also yields); `print` and `println` evaluate every
/// argument and write; a declared function is called on its evaluated
/// arguments in a fresh scope; a template yields a copy of its snapshot; any
/// other head is reported and yields the undefined value.
pub open spec fn eval_node(
    p: ProgramModel,
    locals: Seq<Seq<char>>,
    st: EvalState,
    node: DocModel,
    fuel: nat,
) -> (EvalState, ValModel)
    recommends
        wf_expr(node),
    decreases fuel, 0int, 0int,
{
    if st.fatal {
        (st, ValModel::Undef)
    } else if is_literal(node) {
        (st, literal_value(node))
    } else {
        let head = call_head(node);
        let args = call_args(node);
        if fuel == 0 {
            (EvalState { scope: st.scope, out: st.out, diags: st.diags, fatal: true }, ValModel::Undef)
        } else if locals.contains(head) {
            if args.len() == 0 {
                (st, scope_read(st.scope, head))
            } else {
                let (st1, v) = eval_node(p, locals, st, args[0], (fuel - 1) as nat);
                if st1.fatal {
                    (st1, ValModel::Undef)
                } else {
                    (
                        EvalState {
                            scope: st1.scope.push((head, v)),
                            out: st1.out,
                            diags: st1.diags,
                            fatal: false,
                        },
                        v,
                    )
                }
            }
        } else if head == "print"@ || head == "println"@ {
            let (st1, vals) = eval_list(p, locals, st, args, (fuel - 1) as nat);
            if st1.fatal {
                (st1, ValModel::Undef)
            } else {
                let (out1, diags1) = print_values(vals, st1.out, st1.diags);
                let out2 = if head == "println"@ {
                    out1 + "\n"@
                } else {
                    out1
                };
                (
                    EvalState { scope: st1.scope, out: out2, diags: diags1, fatal: false },
                    ValModel::Undef,
                )
            }
        } else if fun_find(p.functions, head) is Some {
            let f = fun_find(p.functions, head)->Some_0;
            let (st1, vals) = eval_list(p, locals, st, args, (fuel - 1) as nat);
            if st1.fatal {
                (st1, ValModel::Undef)
            } else {
                let sub = exec_function(p, f, vals, st1.out, st1.diags, (fuel - 1) as nat);
                (
                    EvalState {
                        scope: st1.scope,
                        out: sub.out,
                        diags: sub.diags,
                        fatal: sub.fatal,
                    },
                    ValModel::Undef,
                )
            }
        } else if scope_find(p.templates, head) is Some {
            (st, scope_find(p.templates, head)->Some_0)
        } else {
            (
                EvalState {
                    scope: st.scope,
                    out: st.out,
                    diags: st.diags.push(DiagModel::UnknownCallable(head)),
                    fatal: false,
                },
                ValModel::Undef,
            )
        }
    }
}

/// Evaluates a list of argument nodes left to right, threading the state.
pub open spec fn eval_list(
    p: ProgramModel,
    locals: Seq<Seq<char>>,
    st: EvalState,
    nodes: Seq<DocModel>,
    fuel: nat,
) -> (EvalState, Seq<ValModel>)
    recommends
        wf_expr_list(nodes),
    decreases fuel, 1int, nodes.len(),
{
    if nodes.len() == 0 {
        (st, Seq::empty())
    } else {
        let (st1, vs) = eval_list(p, locals, st, nodes.subrange(0, nodes.len() - 1), fuel);
        let (st2, v) = eval_node(p, locals, st1, nodes[nodes.len() - 1], fuel);
        (st2, vs.push(v))
    }
}

/// Runs a function's instructions top to bottom, each for its effect.
pub open spec fn run_instructions(
    p: ProgramModel,
    locals: Seq<Seq<char>>,
    st: EvalState,
    insts: Seq<DocModel>,
    fuel: nat,
) -> EvalState
    recommends
        wf_expr_list(insts),
    decreases fuel, 3int, insts.len(),
{
    if insts.len() == 0 {
        st
    } else {
        let st1 = run_instructions(p, locals, st, insts.subrange(0, insts.len() - 1), fuel);
        eval_node(p, locals, st1, insts[insts.len() - 1], fuel).0
    }
}

/// Executes a function on the given arguments: a fresh scope binds them
/// positionally to the parameters, and the instructions run in order. Only
/// the written output and the diagnostics outlive the call.
pub open spec fn exec_function(
    p: ProgramModel,
    f: crate::program::FunctionModel,
    args: Seq<ValModel>,
    out: Seq<char>,
    diags: Seq<DiagModel>,
    fuel: nat,
) -> EvalState
    recommends
        wf_function(f),
    decreases fuel, 4int, 0int,
{
    let st0 = EvalState {
        scope: init_scope(f.params, args),
        out: out,
        diags: diags,
        fatal: false,
    };
    run_instructions(p, f.locals, st0, f.instructions, fuel)
}

/// A call binds its arguments positionally: executing a function runs its
/// instructions against the scope that maps each parameter that got an
/// argument to exactly that argument, while every later parameter reads as
/// the undefined value, provided the parameter names are distinct.
pub proof fn lemma_execute_binds(
    p: ProgramModel,
    f: crate::program::FunctionModel,
    args: Seq<ValModel>,
    out: Seq<char>,
    diags: Seq<DiagModel>,
    fuel: nat,
)
    requires
        crate::scope::distinct_names(f.params),
        args.len() <= f.params.len(),
    ensures
        exec_function(p, f, args, out, diags, fuel) == run_instructions(
            p,
            f.locals,
            (EvalState { scope: init_scope(f.params, args), out: out, diags: diags, fatal: false }),
            f.instructions,
            fuel,
        ),
        forall|i: int|
            0 <= i < args.len() ==> #[trigger] scope_read(init_scope(f.params, args), f.params[i])
                == args[i],
        forall|j: int|
            args.len() <= j < f.params.len() ==> #[trigger] scope_read(
                init_scope(f.params, args),
                f.params[j],
            ) == ValModel::Undef,
{
    assert forall|i: int|
        0 <= i < args.len() implies #[trigger] scope_read(init_scope(f.params, args), f.params[i])
        == args[i] by {
        crate::scope::lemma_execute_binds_arguments(f.params, args, i);
    }
    assert forall|j: int|
        args.len() <= j < f.params.len() implies #[trigger] scope_read(
        init_scope(f.params, args),
        f.params[j],
    ) == ValModel::Undef by {
        crate::scope::lemma_unbound_parameters_read_undefined(f.params, args, j);
    }
}

/// Literal expressions are idempotent: a literal node yields the same value
/// in any state, under any program, locals and recursion bound, and changes
/// neither the scope, the output, nor the diagnostics.
pub proof fn lemma_literal_idempotent(
    p1: ProgramModel,
    p2: ProgramModel,
    locals1: Seq<Seq<char>>,
    locals2: Seq<Seq<char>>,
    st1: EvalState,
    st2: EvalState,
    node: DocModel,
    fuel1: nat,
    fuel2: nat,
)
    requires
        is_literal(node),
        !st1.fatal,
        !st2.fatal,
    ensures
        eval_node(p1, locals1, st1, node, fuel1).0 == st1,
        eval_node(p1, locals1, st1, node, fuel1).1 == literal_value(node),
        eval_node(p1, locals1, st1, node, fuel1).1 == eval_node(p2, locals2, st2, node, fuel2).1,
{
}

/// Composite templates are snapshot values: when a call head resolves to a
/// template (it names no local, no builtin and no function), the call yields
/// the stored snapshot itself, equal on every instantiation, and changes
/// neither the scope, the output, nor the diagnostics — no field expression
/// is ever re-evaluated.
pub proof fn lemma_template_snapshot(
    p: ProgramModel,
    locals: Seq<Seq<char>>,
    st1: EvalState,
    st2: EvalState,
    node: DocModel,
    fuel1: nat,
    fuel2: nat,
)
    requires
        wf_expr(node),
        !is_literal(node),
        !st1.fatal,
        !st2.fatal,
        fuel1 > 0,
        fuel2 > 0,
        !locals.contains(call_head(node)),
        call_head(node) != "print"@,
        call_head(node) != "println"@,
        fun_find(p.functions, call_head(node)) is None,
        scope_find(p.templates, call_head(node)) is Some,
    ensures
        eval_node(p, locals, st1, node, fuel1).0 == st1,
        eval_node(p, locals, st1, node, fuel1).1 == scope_find(
            p.templates,
            call_head(node),
        )->Some_0,
        eval_node(p, locals, st1, node, fuel1).1 == eval_node(p, locals, st2, node, fuel2).1,
{
}

/// Evaluating one more node continues a list evaluation where it stood.
proof fn lemma_eval_list_snoc(
    p: ProgramModel,
    locals: Seq<Seq<char>>,
    st: EvalState,
    nodes: Seq<DocModel>,
    k: int,
    fuel: nat,
)
    requires
        0 <= k < nodes.len(),
    ensures
        eval_list(p, locals, st, nodes.subrange(0, k + 1), fuel) == ({
            let (st1, vs) = eval_list(p, locals, st, nodes.subrange(0, k), fuel);
            let (st2, v) = eval_node(p, locals, st1, nodes[k], fuel);
            (st2, vs.push(v))
        }),
{
    let pre = nodes.subrange(0, k + 1);
    assert(pre.subrange(0, k) =~= nodes.subrange(0, k));
    assert(pre[k] == nodes[k]);
}

/// Running one more instruction continues a run where it stood.
proof fn lemma_run_instructions_snoc(
    p: ProgramModel,
    locals: Seq<Seq<char>>,
    st: EvalState,
    insts: Seq<DocModel>,
    k: int,
    fuel: nat,
)
    requires
        0 <= k < insts.len(),
    ensures
        run_instructions(p, locals, st, insts.subrange(0, k + 1), fuel) == eval_node(
            p,
            locals,
            run_instructions(p, locals, st, insts.subrange(0, k), fuel),
            insts[k],
            fuel,
        ).0,
{
    let pre = insts.subrange(0, k + 1);
    assert(pre.subrange(0, k) =~= insts.subrange(0, k));
    assert(pre[k] == insts[k]);
}

/// Printing one more value continues a builtin call where it stood.
proof fn lemma_print_values_snoc(
    vals: Seq<ValModel>,
    out: Seq<char>,
    diags: Seq<DiagModel>,
    k: int,
)
    requires
        0 <= k < vals.len(),
    ensures
        print_values(vals.subrange(0, k + 1), out, diags) == ({
            let (out1, diags1) = print_values(vals.subrange(0, k), out, diags);
            if vals[k] is Undef {
                (out1, diags1.push(DiagModel::InvalidBuiltinArgument))
            } else {
                (out1 + render_model(vals[k]), diags1)
            }
        }),
{
    let pre = vals.subrange(0, k + 1);
    assert(pre.subrange(0, k) =~= vals.subrange(0, k));
    assert(pre[k] == vals[k]);
}

/// Once the recursion bound has struck, the rest of a list evaluation changes
/// nothing.
proof fn lemma_eval_list_fatal(
    p: ProgramModel,
    locals: Seq<Seq<char>>,
    st: EvalState,
    nodes: Seq<DocModel>,
    k: int,
    fuel: nat,
)
    requires
        0 <= k <= nodes.len(),
        eval_list(p, locals, st, nodes.subrange(0, k), fuel).0.fatal,
    ensures
        eval_list(p, locals, st, nodes, fuel).0 == eval_list(p, locals, st, nodes.subrange(0, k), fuel).0,
    decreases nodes.len(),
{
    if k == nodes.len() {
        assert(nodes.subrange(0, k) =~= nodes);
    } else {
        let front = nodes.subrange(0, nodes.len() - 1);
        assert(front.subrange(0, k) =~= nodes.subrange(0, k));
        lemma_eval_list_fatal(p, locals, st, front, k, fuel);
        let st1 = eval_list(p, locals, st, front, fuel).0;
        assert(st1.fatal);
        assert(eval_node(p, locals, st1, nodes[nodes.len() - 1], fuel).0 == st1);
        assert(eval_list(p, locals, st, nodes, fuel).0 == st1);
    }
}

/// Once the recursion bound has struck, the remaining instructions change
/// nothing.
proof fn lemma_run_instructions_fatal(
    p: ProgramModel,
    locals: Seq<Seq<char>>,
    st: EvalState,
    insts: Seq<DocModel>,
    k: int,
    fuel: nat,
)
    requires
        0 <= k <= insts.len(),
        run_instructions(p, locals, st, insts.subrange(0, k), fuel).fatal,
    ensures
        run_instructions(p, locals, st, insts, fuel) == run_instructions(p, locals, st, insts.subrange(0, k), fuel),
    decreases insts.len(),
{
    if k == insts.len() {
        assert(insts.subrange(0, k) =~= insts);
    } else {
        let front = insts.subrange(0, insts.len() - 1);
        assert(front.subrange(0, k) =~= insts.subrange(0, k));
        lemma_run_instructions_fatal(p, locals, st, front, k, fuel);
        let st1 = run_instructions(p, locals, st, front, fuel);
        assert(st1.fatal);
        assert(eval_node(p, locals, st1, insts[insts.len() - 1], fuel).0 == st1);
        assert(run_instructions(p, locals, st, insts, fuel) == st1);
    }
}

/// Evaluates a node: the executable mirror of `eval_node`, with the recursion
/// bound turned into an error once exhausted.
pub fn evaluate(
    p: &Program,
    locals: &Vec<String>,
    scope: &mut Scope,
    node: &Doc,
    fuel: u64,
    out: &mut String,
    diags: &mut Vec<Diag>,
) -> (r: Result<Value, RunError>)
    requires
        wf_program(p@),
        wf_expr(node@),
    ensures
        ({
            let (st2, v) = eval_node(
                p@,
                names_model(locals@),
                (EvalState {
                    scope: old(scope)@,
                    out: old(out)@,
                    diags: diags_model(old(diags)@),
                    fatal: false,
                }),
                node@,
                fuel as nat,
            );
            &&& final(scope)@ == st2.scope
            &&& final(out)@ == st2.out
            &&& diags_model(final(diags)@) == st2.diags
            &&& (match r {
                Ok(v2) => !st2.fatal && v2@ == v,
                Err(_) => st2.fatal,
            })
        }),
    decreases fuel, 0int, 0int,
{
    let ghost lm = names_model(locals@);
    let ghost st0 = EvalState {
        scope: scope@,
        out: out@,
        diags: diags_model(diags@),
        fatal: false,
    };
    match node {
        Doc::Text(t) => Ok(Value::Text(t.clone())),
        Doc::Integer(i) => Ok(Value::Integer(*i)),
        Doc::Float(t) => Ok(Value::Float(t.clone())),
        Doc::Arr(_) => {
            proof {
                assert(false);
            }
            Ok(Value::Undef)
        },
        Doc::Table(entries) => {
            proof {
                crate::doc::lemma_doc_table_model_len(entries@);
            }
            let head_ref: &String = &entries[0].0;
            let args: &Vec<Doc> = match &entries[0].1 {
                Doc::Arr(items) => items,
                _ => {
                    proof {
                        assert(false);
                    }
                    return Ok(Value::Undef);
                },
            };
            let ghost headm = call_head(node@);
            let ghost argsm = call_args(node@);
            proof {
                assert(headm == head_ref@);
                assert(argsm == doc_list_model(args@));
                crate::doc::lemma_doc_list_model_len(args@);
                crate::doc::lemma_wf_expr_list_index(argsm);
            }
            if fuel == 0 {
                return Err(RunError::RecursionLimit);
            }
            if name_listed(locals, head_ref) {
                if args.len() == 0 {
                    proof {
                        assert(argsm.len() == 0);
                    }
                    Ok(scope.read(head_ref))
                } else {
                    let v = match evaluate(p, locals, scope, &args[0], fuel - 1, out, diags) {
                        Ok(v) => v,
                        Err(e) => {
                            return Err(e);
                        },
                    };
                    let stored = v.deep_copy();
                    scope.set(head_ref.clone(), stored);
                    Ok(v)
                }
            } else {
                let print_name = String::from_str("print");
                let println_name = String::from_str("println");
                let is_print = head_ref.eq(&print_name);
                let is_println = head_ref.eq(&println_name);
                if is_print || is_println {
                    let vals = match eval_args(p, locals, scope, args, fuel - 1, out, diags) {
                        Ok(vals) => vals,
                        Err(e) => {
                            return Err(e);
                        },
                    };
                    let ghost vsm = vals_model(vals@);
                    let ghost base_out = out@;
                    let ghost base_diags = diags_model(diags@);
                    let mut k: usize = 0;
                    proof {
                        assert(vsm.subrange(0, 0) =~= Seq::<ValModel>::empty());
                    }
                    while k < vals.len()
                        invariant
                            k <= vals@.len(),
                            vsm == vals_model(vals@),
                            vsm.len() == vals@.len(),
                            forall|j: int|
                                0 <= j < vals@.len() ==> vsm[j] == crate::value::val_model(
                                    vals@[j],
                                ),
                            ({
                                let (o1, d1) = print_values(
                                    vsm.subrange(0, k as int),
                                    base_out,
                                    base_diags,
                                );
                                out@ == o1 && diags_model(diags@) == d1
                            }),
                        decreases vals@.len() - k,
                    {
                        proof {
                            lemma_print_values_snoc(vsm, base_out, base_diags, k as int);
                        }
                        match &vals[k] {
                            Value::Undef => {
                                diags.push(Diag::InvalidBuiltinArgument);
                                proof {
                                    assert(diags_model(diags@) =~= print_values(
                                        vsm.subrange(0, k + 1),
                                        base_out,
                                        base_diags,
                                    ).1);
                                }
                            },
                            _ => {
                                let piece = render(&vals[k]);
                                out.append(piece.as_str());
                            },
                        }
                        k += 1;
                    }
                    proof {
                        assert(vsm.subrange(0, vals@.len() as int) =~= vsm);
                    }
                    if is_println {
                        out.append("\n");
                    }
                    Ok(Value::Undef)
                } else {
                    match p.find_function(head_ref) {
                        Some(f) => {
                            proof {
                                lemma_found_function_wf(p@.functions, headm);
                            }
                            let vals = match eval_args(p, locals, scope, args, fuel - 1, out, diags) {
                                Ok(vals) => vals,
                                Err(e) => {
                                    return Err(e);
                                },
                            };
                            match execute(p, f, &vals, fuel - 1, out, diags) {
                                Ok(_) => Ok(Value::Undef),
                                Err(e) => Err(e),
                            }
                        },
                        None => {
                            match p.find_template(head_ref) {
                                Some(snapshot) => Ok(snapshot.deep_copy()),
                                None => {
                                    diags.push(Diag::UnknownCallable(head_ref.clone()));
                                    proof {
                                        assert(diags_model(diags@) =~= st0.diags.push(
                                            DiagModel::UnknownCallable(headm),
                                        ));
                                    }
                                    Ok(Value::Undef)
                                },
                            }
                        },
                    }
                }
            }
        },
    }
}

/// Evaluates a list of argument nodes left to right: the executable mirror of
/// `eval_list`.
fn eval_args(
    p: &Program,
    locals: &Vec<String>,
    scope: &mut Scope,
    args: &Vec<Doc>,
    fuel: u64,
    out: &mut String,
    diags: &mut Vec<Diag>,
) -> (r: Result<Vec<Value>, RunError>)
    requires
        wf_program(p@),
        wf_expr_list(doc_list_model(args@)),
    ensures
        ({
            let (st1, vs) = eval_list(
                p@,
                names_model(locals@),
                (EvalState {
                    scope: old(scope)@,
                    out: old(out)@,
                    diags: diags_model(old(diags)@),
                    fatal: false,
                }),
                doc_list_model(args@),
                fuel as nat,
            );
            &&& final(scope)@ == st1.scope
            &&& final(out)@ == st1.out
            &&& diags_model(final(diags)@) == st1.diags
            &&& (match r {
                Ok(vals) => !st1.fatal && vals_model(vals@) == vs,
                Err(_) => st1.fatal,
            })
        }),
    decreases fuel, 1int, args@.len(),
{
    let ghost lm = names_model(locals@);
    let ghost argsm = doc_list_model(args@);
    let ghost st0 = EvalState {
        scope: scope@,
        out: out@,
        diags: diags_model(diags@),
        fatal: false,
    };
    proof {
        crate::doc::lemma_doc_list_model_len(args@);
        crate::doc::lemma_wf_expr_list_index(argsm);
        assert(argsm.subrange(0, 0) =~= Seq::<DocModel>::empty());
    }
    let mut vals: Vec<Value> = Vec::new();
    let mut k: usize = 0;
    proof {
        assert(vals_model(vals@) =~= Seq::<ValModel>::empty());
    }
    while k < args.len()
        invariant
            k <= args@.len(),
            wf_program(p@),
            lm == names_model(locals@),
            argsm == doc_list_model(args@),
            st0 == (EvalState {
                scope: old(scope)@,
                out: old(out)@,
                diags: diags_model(old(diags)@),
                fatal: false,
            }),
            argsm.len() == args@.len(),
            forall|j: int| 0 <= j < args@.len() ==> argsm[j] == crate::doc::doc_model(args@[j]),
            forall|j: int| 0 <= j < argsm.len() ==> wf_expr(#[trigger] argsm[j]),
            ({
                let (st1, vs) = eval_list(p@, lm, st0, argsm.subrange(0, k as int), fuel as nat);
                &&& scope@ == st1.scope
                &&& out@ == st1.out
                &&& diags_model(diags@) == st1.diags
                &&& !st1.fatal
                &&& vals_model(vals@) == vs
            }),
        decreases args@.len() - k,
    {
        proof {
            assert(argsm[k as int] == crate::doc::doc_model(args@[k as int]));
            assert(wf_expr(argsm[k as int]));
        }
        let v = match evaluate(p, locals, scope, &args[k], fuel, out, diags) {
            Ok(v) => v,
            Err(e) => {
                proof {
                    lemma_eval_list_snoc(p@, lm, st0, argsm, k as int, fuel as nat);
                    lemma_eval_list_fatal(p@, lm, st0, argsm, k + 1, fuel as nat);
                }
                return Err(e);
            },
        };
        vals.push(v);
        proof {
            lemma_eval_list_snoc(p@, lm, st0, argsm, k as int, fuel as nat);
            assert(vals_model(vals@) =~= eval_list(
                p@,
                lm,
                st0,
                argsm.subrange(0, k + 1),
                fuel as nat,
            ).1);
        }
        k += 1;
    }
    proof {
        assert(argsm.subrange(0, args@.len() as int) =~= argsm);
    }
    Ok(vals)
}

/// Executes a function on the given arguments: the executable mirror of
/// `exec_function`. A fresh scope binds the arguments positionally to the
/// parameters (extra arguments are dropped, trailing parameters stay unbound),
/// and the instructions run in order for their effects alone.
pub fn execute(
    p: &Program,
    f: &Function,
    args: &Vec<Value>,
    fuel: u64,
    out: &mut String,
    diags: &mut Vec<Diag>,
) -> (r: Result<(), RunError>)
    requires
        wf_program(p@),
        wf_function(f@),
    ensures
        ({
            let st = exec_function(
                p@,
                f@,
                vals_model(args@),
                old(out)@,
                diags_model(old(diags)@),
                fuel as nat,
            );
            &&& final(out)@ == st.out
            &&& diags_model(final(diags)@) == st.diags
            &&& (r is Ok <==> !st.fatal)
        }),
    decreases fuel, 4int, 0int,
{
    let ghost lm = names_model(f.locals@);
    let ghost am = vals_model(args@);
    let mut scope = Scope::new();
    let bound = if args.len() < f.params.len() {
        args.len()
    } else {
        f.params.len()
    };
    let mut i: usize = 0;
    while i < bound
        invariant
            i <= bound,
            bound == if args@.len() < f.params@.len() {
                args@.len()
            } else {
                f.params@.len()
            },
            am == vals_model(args@),
            scope@.len() == i,
            forall|j: int|
                0 <= j < i ==> scope@[j] == (f@.params[j], am[j]),
        decreases bound - i,
    {
        let name = f.params[i].clone();
        let v = args[i].deep_copy();
        scope.set(name, v);
        i += 1;
    }
    proof {
        assert(scope@ =~= init_scope(f@.params, am));
    }
    let ghost st0 = EvalState {
        scope: scope@,
        out: out@,
        diags: diags_model(diags@),
        fatal: false,
    };
    let ghost instsm = doc_list_model(f.instructions@);
    proof {
        crate::doc::lemma_doc_list_model_len(f.instructions@);
        crate::doc::lemma_wf_expr_list_index(instsm);
        assert(instsm.subrange(0, 0) =~= Seq::<DocModel>::empty());
    }
    let mut k: usize = 0;
    while k < f.instructions.len()
        invariant
            k <= f.instructions@.len(),
            wf_program(p@),
            lm == names_model(f.locals@),
            instsm == doc_list_model(f.instructions@),
            st0 == (EvalState {
                scope: init_scope(f@.params, vals_model(args@)),
                out: old(out)@,
                diags: diags_model(old(diags)@),
                fatal: false,
            }),
            instsm.len() == f.instructions@.len(),
            forall|j: int|
                0 <= j < f.instructions@.len() ==> instsm[j] == crate::doc::doc_model(
                    f.instructions@[j],
                ),
            forall|j: int| 0 <= j < instsm.len() ==> wf_expr(#[trigger] instsm[j]),
            ({
                let st = run_instructions(p@, lm, st0, instsm.subrange(0, k as int), fuel as nat);
                &&& scope@ == st.scope
                &&& out@ == st.out
                &&& diags_model(diags@) == st.diags
                &&& !st.fatal
            }),
        decreases f.instructions@.len() - k,
    {
        proof {
            assert(instsm[k as int] == crate::doc::doc_model(f.instructions@[k as int]));
            assert(wf_expr(instsm[k as int]));
        }
        match evaluate(p, &f.locals, &mut scope, &f.instructions[k], fuel, out, diags) {
            Ok(_) => {},
            Err(e) => {
                proof {
                    lemma_run_instructions_snoc(p@, lm, st0, instsm, k as int, fuel as nat);
                    lemma_run_instructions_fatal(p@, lm, st0, instsm, k + 1, fuel as nat);
                }
                return Err(e);
            },
        }
        proof {
            lemma_run_instructions_snoc(p@, lm, st0, instsm, k as int, fuel as nat);
        }
        k += 1;
    }
    proof {
        assert(instsm.subrange(0, f.instructions@.len() as int) =~= instsm);
    }
    Ok(())
}

/// Runs the entry function `main` with no arguments.
pub fn run(p: &Program, fuel: u64, out: &mut String, diags: &mut Vec<Diag>) -> (r: Result<
    (),
    RunError,
>)
    requires
        wf_program(p@),
        fun_find(p@.functions, "main"@) is Some,
    ensures
        ({
            let st = exec_function(
                p@,
                fun_find(p@.functions, "main"@)->Some_0,
                Seq::<ValModel>::empty(),
                old(out)@,
                diags_model(old(diags)@),
                fuel as nat,
            );
            &&& final(out)@ == st.out
            &&& diags_model(final(diags)@) == st.diags
            &&& (r is Ok <==> !st.fatal)
        }),
{
    let main_name = String::from_str("main");
    match p.find_function(&main_name) {
        Some(f) => {
            proof {
                lemma_found_function_wf(p@.functions, "main"@);
            }
            let no_args: Vec<Value> = Vec::new();
            proof {
                assert(vals_model(no_args@) =~= Seq::<ValModel>::empty());
            }
            execute(p, f, &no_args, fuel, out, diags)
        },
        None => {
            proof {
                assert(false);
            }
            Ok(())
        },
    }
}

} // verus!
