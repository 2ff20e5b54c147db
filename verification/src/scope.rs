use vstd::prelude::*;
use crate::value::{Value, ValModel, val_model};

verus! {

/// The per-call variable store: a list of name-to-value writes, newest last.
/// A read takes the newest write of a name; a name never written reads as the
/// undefined value. Each call frame owns exactly one scope, created on entry
/// and dropped on return.
pub struct Scope {
    entries: Vec<(String, Value)>,
}

/// The newest binding of a name in a list of writes, if the name was written
/// at all.
pub open spec fn scope_find(entries: Seq<(Seq<char>, ValModel)>, name: Seq<char>) -> Option<
    ValModel,
>
    decreases entries.len(),
{
    if entries.len() == 0 {
        None
    } else if entries[entries.len() - 1].0 == name {
        Some(entries[entries.len() - 1].1)
    } else {
        scope_find(entries.subrange(0, entries.len() - 1), name)
    }
}

/// What a read of a name yields: its newest binding, or the undefined value.
pub open spec fn scope_read(entries: Seq<(Seq<char>, ValModel)>, name: Seq<char>) -> ValModel {
    match scope_find(entries, name) {
        Some(v) => v,
        None => ValModel::Undef,
    }
}

/// The model of a list of scope entries, in order.
pub open spec fn entries_model(s: Seq<(String, Value)>) -> Seq<(Seq<char>, ValModel)>
    decreases s,
{
    if s.len() == 0 {
        Seq::empty()
    } else {
        entries_model(s.subrange(0, s.len() - 1)).push(
            (s[s.len() - 1].0@, val_model(s[s.len() - 1].1)),
        )
    }
}

pub broadcast proof fn lemma_entries_model_len(s: Seq<(String, Value)>)
    ensures
        #[trigger] entries_model(s).len() == s.len(),
        forall|i: int|
            0 <= i < s.len() ==> entries_model(s)[i] == (s[i].0@, val_model(s[i].1)),
    decreases s,
{
    if s.len() > 0 {
        lemma_entries_model_len(s.subrange(0, s.len() - 1));
    }
}

impl View for Scope {
    type V = Seq<(Seq<char>, ValModel)>;

    closed spec fn view(&self) -> Seq<(Seq<char>, ValModel)> {
        entries_model(self.entries@)
    }
}

impl Scope {
    /// A fresh scope with no bindings.
    pub fn new() -> (s: Scope)
        ensures
            s@ == Seq::<(Seq<char>, ValModel)>::empty(),
    {
        let s = Scope { entries: Vec::new() };
        proof {
            assert(s@ =~= Seq::<(Seq<char>, ValModel)>::empty());
        }
        s
    }

    /// Writes a value under a name; the write becomes the newest binding.
    pub fn set(&mut self, name: String, v: Value)
        ensures
            final(self)@ == old(self)@.push((name@, v@)),
    {
        let ghost before = self.entries@;
        self.entries.push((name, v));
        proof {
            assert(self.entries@.subrange(0, self.entries@.len() - 1) =~= before);
        }
    }

    /// Reads the newest value of a name, or the undefined value when the name
    /// was never written.
    pub fn read(&self, name: &String) -> (r: Value)
        ensures
            r@ == scope_read(self@, name@),
    {
        proof {
            lemma_entries_model_len(self.entries@);
        }
        let mut i: usize = self.entries.len();
        proof {
            assert(self@.subrange(0, i as int) =~= self@);
        }
        while i > 0
            invariant
                i <= self.entries@.len(),
                self@.len() == self.entries@.len(),
                forall|j: int|
                    0 <= j < self.entries@.len() ==> self@[j] == (
                        self.entries@[j].0@,
                        val_model(self.entries@[j].1),
                    ),
                scope_find(self@, name@) == scope_find(self@.subrange(0, i as int), name@),
            decreases i,
        {
            i -= 1;
            proof {
                let ghost pre = self@.subrange(0, i + 1);
                assert(pre[pre.len() - 1] == self@[i as int]);
                assert(pre.subrange(0, i as int) =~= self@.subrange(0, i as int));
            }
            if self.entries[i].0.eq(name) {
                return self.entries[i].1.deep_copy();
            }
        }
        proof {
            assert(self@.subrange(0, 0) =~= Seq::<(Seq<char>, ValModel)>::empty());
        }
        Value::Undef
    }
}

/// The scope a call starts from: the caller's arguments bound positionally to
/// the parameter names, extra arguments dropped, trailing parameters left
/// unbound.
pub open spec fn init_scope(params: Seq<Seq<char>>, args: Seq<ValModel>) -> Seq<
    (Seq<char>, ValModel),
> {
    Seq::new(
        if params.len() <= args.len() { params.len() } else { args.len() },
        |i: int| (params[i], args[i]),
    )
}

/// Whether no name repeats in a list of names.
pub open spec fn distinct_names(names: Seq<Seq<char>>) -> bool {
    forall|i: int, j: int| 0 <= i < j < names.len() ==> names[i] != names[j]
}

/// In a scope whose keys avoid a name, that name has no binding.
proof fn lemma_scope_find_absent(entries: Seq<(Seq<char>, ValModel)>, name: Seq<char>)
    requires
        forall|i: int| 0 <= i < entries.len() ==> entries[i].0 != name,
    ensures
        scope_find(entries, name) is None,
    decreases entries.len(),
{
    if entries.len() > 0 {
        lemma_scope_find_absent(entries.subrange(0, entries.len() - 1), name);
    }
}

/// Every call binds each given argument to the parameter of the same
/// position: in the scope a call starts from, each parameter that got an
/// argument reads as exactly that argument, provided the parameter names are
/// distinct.
pub proof fn lemma_execute_binds_arguments(
    params: Seq<Seq<char>>,
    args: Seq<ValModel>,
    i: int,
)
    requires
        distinct_names(params),
        args.len() <= params.len(),
        0 <= i < args.len(),
    ensures
        scope_read(init_scope(params, args), params[i]) == args[i],
    decreases args.len(),
{
    let s = init_scope(params, args);
    if i == args.len() - 1 {
        assert(s[s.len() - 1] == (params[i], args[i]));
    } else {
        let shorter = init_scope(params, args.subrange(0, args.len() - 1));
        assert(s.subrange(0, s.len() - 1) =~= shorter);
        lemma_execute_binds_arguments(params, args.subrange(0, args.len() - 1), i);
    }
}

/// Every parameter beyond the given arguments reads as the undefined value in
/// the scope a call starts from, provided the parameter names are distinct.
pub proof fn lemma_unbound_parameters_read_undefined(
    params: Seq<Seq<char>>,
    args: Seq<ValModel>,
    j: int,
)
    requires
        distinct_names(params),
        args.len() <= j < params.len(),
    ensures
        scope_read(init_scope(params, args), params[j]) == ValModel::Undef,
{
    let s = init_scope(params, args);
    assert forall|k: int| 0 <= k < s.len() implies s[k].0 != params[j] by {
        assert(s[k].0 == params[k]);
    }
    lemma_scope_find_absent(s, params[j]);
}

} // verus!
