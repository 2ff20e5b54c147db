use vstd::prelude::*;
use crate::doc::{Doc, DocModel, doc_list_model, wf_expr_list};
use crate::scope::{entries_model, scope_find};
use crate::value::{Value, ValModel};

verus! {

/// A named routine of the program: parameter names bound positionally from
/// call arguments, the declared locals (the parameters stand among them), and
/// the instruction nodes run top to bottom.
pub struct Function {
    pub params: Vec<String>,
    pub locals: Vec<String>,
    pub instructions: Vec<Doc>,
}

/// The mathematical model of a function.
pub struct FunctionModel {
    pub params: Seq<Seq<char>>,
    pub locals: Seq<Seq<char>>,
    pub instructions: Seq<DocModel>,
}

/// The model of a list of names.
pub open spec fn names_model(s: Seq<String>) -> Seq<Seq<char>> {
    Seq::new(s.len(), |i: int| s[i]@)
}

impl View for Function {
    type V = FunctionModel;

    open spec fn view(&self) -> FunctionModel {
        FunctionModel {
            params: names_model(self.params@),
            locals: names_model(self.locals@),
            instructions: doc_list_model(self.instructions@),
        }
    }
}

/// A loaded program: the function registry and the composite template
/// snapshots, both read-only once built.
pub struct Program {
    pub functions: Vec<(String, Function)>,
    pub templates: Vec<(String, Value)>,
}

/// The mathematical model of a program.
pub struct ProgramModel {
    pub functions: Seq<(Seq<char>, FunctionModel)>,
    pub templates: Seq<(Seq<char>, ValModel)>,
}

/// The model of the function registry, in order.
pub open spec fn functions_model(s: Seq<(String, Function)>) -> Seq<(Seq<char>, FunctionModel)> {
    Seq::new(s.len(), |i: int| (s[i].0@, s[i].1@))
}

impl View for Program {
    type V = ProgramModel;

    open spec fn view(&self) -> ProgramModel {
        ProgramModel {
            functions: functions_model(self.functions@),
            templates: entries_model(self.templates@),
        }
    }
}

/// The newest function of a given name, if any.
pub open spec fn fun_find(functions: Seq<(Seq<char>, FunctionModel)>, name: Seq<char>) -> Option<
    FunctionModel,
>
    decreases functions.len(),
{
    if functions.len() == 0 {
        None
    } else if functions[functions.len() - 1].0 == name {
        Some(functions[functions.len() - 1].1)
    } else {
        fun_find(functions.subrange(0, functions.len() - 1), name)
    }
}

/// Whether every instruction of the function is a well-formed expression.
pub open spec fn wf_function(f: FunctionModel) -> bool {
    wf_expr_list(f.instructions)
}

/// Whether every function of the program is well formed.
pub open spec fn wf_program(p: ProgramModel) -> bool {
    forall|i: int| 0 <= i < p.functions.len() ==> wf_function(#[trigger] p.functions[i].1)
}

/// A function found in a well-formed program is well formed.
pub broadcast proof fn lemma_found_function_wf(
    functions: Seq<(Seq<char>, FunctionModel)>,
    name: Seq<char>,
)
    requires
        forall|i: int| 0 <= i < functions.len() ==> wf_function(#[trigger] functions[i].1),
        #[trigger] fun_find(functions, name) is Some,
    ensures
        wf_function(fun_find(functions, name)->Some_0),
    decreases functions.len(),
{
    if functions.len() > 0 && functions[functions.len() - 1].0 != name {
        let front = functions.subrange(0, functions.len() - 1);
        assert(forall|i: int| 0 <= i < front.len() ==> front[i] == functions[i]);
        lemma_found_function_wf(front, name);
    }
}

impl Program {
    /// The newest function of the given name, if any.
    pub fn find_function<'a>(&'a self, name: &String) -> (r: Option<&'a Function>)
        ensures
            match r {
                Some(f) => fun_find(self@.functions, name@) == Some(f@),
                None => fun_find(self@.functions, name@) is None,
            },
    {
        let ghost whole = self@.functions;
        let mut i: usize = self.functions.len();
        proof {
            assert(whole.subrange(0, i as int) =~= whole);
        }
        while i > 0
            invariant
                i <= self.functions@.len(),
                whole == functions_model(self.functions@),
                whole.len() == self.functions@.len(),
                fun_find(whole, name@) == fun_find(whole.subrange(0, i as int), name@),
            decreases i,
        {
            i -= 1;
            proof {
                let ghost pre = whole.subrange(0, i + 1);
                assert(pre[pre.len() - 1] == whole[i as int]);
                assert(whole[i as int] == (self.functions@[i as int].0@, self.functions@[i as int].1@));
                assert(pre.subrange(0, i as int) =~= whole.subrange(0, i as int));
            }
            if self.functions[i].0.eq(name) {
                return Some(&self.functions[i].1);
            }
        }
        proof {
            assert(whole.subrange(0, 0) =~= Seq::<(Seq<char>, FunctionModel)>::empty());
        }
        None
    }

    /// The newest template snapshot of the given name, if any.
    pub fn find_template<'a>(&'a self, name: &String) -> (r: Option<&'a Value>)
        ensures
            match r {
                Some(v) => scope_find(self@.templates, name@) == Some(v@),
                None => scope_find(self@.templates, name@) is None,
            },
    {
        proof {
            crate::scope::lemma_entries_model_len(self.templates@);
        }
        let ghost whole = self@.templates;
        let mut i: usize = self.templates.len();
        proof {
            assert(whole.subrange(0, i as int) =~= whole);
        }
        while i > 0
            invariant
                i <= self.templates@.len(),
                whole == entries_model(self.templates@),
                whole.len() == self.templates@.len(),
                forall|j: int|
                    0 <= j < self.templates@.len() ==> whole[j] == (
                        self.templates@[j].0@,
                        crate::value::val_model(self.templates@[j].1),
                    ),
                scope_find(whole, name@) == scope_find(whole.subrange(0, i as int), name@),
            decreases i,
        {
            i -= 1;
            proof {
                let ghost pre = whole.subrange(0, i + 1);
                assert(pre[pre.len() - 1] == whole[i as int]);
                assert(pre.subrange(0, i as int) =~= whole.subrange(0, i as int));
            }
            if self.templates[i].0.eq(name) {
                return Some(&self.templates[i].1);
            }
        }
        proof {
            assert(whole.subrange(0, 0) =~= Seq::<(Seq<char>, ValModel)>::empty());
        }
        None
    }
}

/// Whether a name stands in a list of names.
pub fn name_listed(names: &Vec<String>, name: &String) -> (r: bool)
    ensures
        r == names_model(names@).contains(name@),
{
    let mut i: usize = 0;
    while i < names.len()
        invariant
            i <= names@.len(),
            forall|j: int| 0 <= j < i ==> names_model(names@)[j] != name@,
        decreases names@.len() - i,
    {
        if names[i].eq(name) {
            proof {
                assert(names_model(names@)[i as int] == name@);
            }
            return true;
        }
        i += 1;
    }
    proof {
        assert(forall|j: int|
            0 <= j < names_model(names@).len() ==> names_model(names@)[j] != name@);
    }
    false
}

} // verus!
