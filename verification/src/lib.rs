//! An interpreter for small programs authored as structured data: a document
//! of tables, arrays, strings and numbers names functions, each a list of
//! call-shaped instructions, and optional composite templates. The engine
//! loads the document into a read-only program and runs its entry function,
//! evaluating every expression against a per-call scope.
use vstd::prelude::*;

pub mod doc;
pub mod interp;
pub mod loader;
pub mod program;
pub mod scope;
pub mod value;

use crate::doc::Doc;
use crate::interp::{Diag, RunError, diags_model, exec_function};
use crate::loader::{LoadError, load, load_model};
use crate::program::fun_find;
use crate::value::ValModel;

verus! {

/// Everything that can stop a document from running to completion: a
/// structural load failure, or the recursion bound striking at run time.
pub enum EngineError {
    Load(LoadError),
    Run(RunError),
}

/// Loads a document and runs its entry function `main` with no arguments,
/// within the given recursion bound. Output lands in `out`; load-time and
/// run-time diagnostics land in `diags`, which a failing load leaves
/// untouched.
pub fn run_document(doc: &Doc, fuel: u64, out: &mut String, diags: &mut Vec<Diag>) -> (r: Result<
    (),
    EngineError,
>)
    ensures
        match load_model(doc@) {
            Err(e) => {
                &&& (match r {
                    Err(EngineError::Load(le)) => le@ == e,
                    _ => false,
                })
                &&& final(out)@ == old(out)@
                &&& final(diags)@ == old(diags)@
            },
            Ok((pm, ds)) => {
                let st = exec_function(
                    pm,
                    fun_find(pm.functions, "main"@)->Some_0,
                    Seq::<ValModel>::empty(),
                    old(out)@,
                    diags_model(old(diags)@) + ds,
                    fuel as nat,
                );
                &&& final(out)@ == st.out
                &&& diags_model(final(diags)@) == st.diags
                &&& (match r {
                    Ok(_) => !st.fatal,
                    Err(EngineError::Run(_)) => st.fatal,
                    Err(EngineError::Load(_)) => false,
                })
            },
        },
{
    match load(doc, diags) {
        Err(e) => Err(EngineError::Load(e)),
        Ok(program) => match crate::interp::run(&program, fuel, out, diags) {
            Ok(_) => Ok(()),
            Err(e) => Err(EngineError::Run(e)),
        },
    }
}

} // verus!
