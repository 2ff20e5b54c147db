use vstd::prelude::*;

verus! {

/// A node of the generic structured document the engine is fed: a text, an
/// integer or a float literal, an array, or a table whose entries keep their
/// order.
pub enum Doc {
    Text(String),
    Integer(i64),
    Float(String),
    Arr(Vec<Doc>),
    Table(Vec<(String, Doc)>),
}

/// The mathematical model of a document node.
pub enum DocModel {
    Text(Seq<char>),
    Integer(int),
    Float(Seq<char>),
    Arr(Seq<DocModel>),
    Table(Seq<(Seq<char>, DocModel)>),
}

/// The model of a document node.
pub open spec fn doc_model(d: Doc) -> DocModel
    decreases d,
{
    match d {
        Doc::Text(s) => DocModel::Text(s@),
        Doc::Integer(i) => DocModel::Integer(i as int),
        Doc::Float(t) => DocModel::Float(t@),
        Doc::Arr(items) => DocModel::Arr(doc_list_model(items@)),
        Doc::Table(entries) => DocModel::Table(doc_table_model(entries@)),
    }
}

/// The model of a list of document nodes, in order.
pub open spec fn doc_list_model(s: Seq<Doc>) -> Seq<DocModel>
    decreases s,
{
    if s.len() == 0 {
        Seq::empty()
    } else {
        doc_list_model(s.subrange(0, s.len() - 1)).push(doc_model(s[s.len() - 1]))
    }
}

/// The model of the entries of a table, in order.
pub open spec fn doc_table_model(s: Seq<(String, Doc)>) -> Seq<(Seq<char>, DocModel)>
    decreases s,
{
    if s.len() == 0 {
        Seq::empty()
    } else {
        doc_table_model(s.subrange(0, s.len() - 1)).push(
            (s[s.len() - 1].0@, doc_model(s[s.len() - 1].1)),
        )
    }
}

impl View for Doc {
    type V = DocModel;

    open spec fn view(&self) -> DocModel {
        doc_model(*self)
    }
}

pub broadcast proof fn lemma_doc_list_model_len(s: Seq<Doc>)
    ensures
        #[trigger] doc_list_model(s).len() == s.len(),
        forall|i: int| 0 <= i < s.len() ==> doc_list_model(s)[i] == doc_model(s[i]),
    decreases s,
{
    if s.len() > 0 {
        lemma_doc_list_model_len(s.subrange(0, s.len() - 1));
    }
}

pub broadcast proof fn lemma_doc_table_model_len(s: Seq<(String, Doc)>)
    ensures
        #[trigger] doc_table_model(s).len() == s.len(),
        forall|i: int|
            0 <= i < s.len() ==> doc_table_model(s)[i] == (s[i].0@, doc_model(s[i].1)),
    decreases s,
{
    if s.len() > 0 {
        lemma_doc_table_model_len(s.subrange(0, s.len() - 1));
    }
}

/// The last entry of a table under a given key, if the key is present at all.
/// When a document repeats a key, the later entry stands, as it would after
/// writing the entries into a map one by one.
pub open spec fn table_find(entries: Seq<(Seq<char>, DocModel)>, key: Seq<char>) -> Option<
    DocModel,
>
    decreases entries.len(),
{
    if entries.len() == 0 {
        None
    } else if entries[entries.len() - 1].0 == key {
        Some(entries[entries.len() - 1].1)
    } else {
        table_find(entries.subrange(0, entries.len() - 1), key)
    }
}

/// Looks an entry up in a table, matching `table_find` on the model.
pub fn doc_table_get<'a>(entries: &'a Vec<(String, Doc)>, key: &str) -> (r: Option<&'a Doc>)
    ensures
        match r {
            Some(d) => table_find(doc_table_model(entries@), key@) == Some(d@),
            None => table_find(doc_table_model(entries@), key@) is None,
        },
{
    proof {
        lemma_doc_table_model_len(entries@);
    }
    let key_string = String::from_str(key);
    let mut i: usize = entries.len();
    proof {
        assert(doc_table_model(entries@).subrange(0, i as int) =~= doc_table_model(entries@));
    }
    while i > 0
        invariant
            i <= entries@.len(),
            doc_table_model(entries@).len() == entries@.len(),
            forall|j: int|
                0 <= j < entries@.len() ==> doc_table_model(entries@)[j] == (
                    entries@[j].0@,
                    doc_model(entries@[j].1),
                ),
            key_string@ == key@,
            table_find(doc_table_model(entries@), key@) == table_find(
                doc_table_model(entries@).subrange(0, i as int),
                key@,
            ),
        decreases i,
    {
        i -= 1;
        proof {
            let ghost whole = doc_table_model(entries@);
            let ghost pre = whole.subrange(0, i + 1);
            assert(pre[pre.len() - 1] == whole[i as int]);
            assert(pre.subrange(0, i as int) =~= whole.subrange(0, i as int));
        }
        if entries[i].0.eq(&key_string) {
            return Some(&entries[i].1);
        }
    }
    proof {
        assert(doc_table_model(entries@).subrange(0, 0) =~= Seq::<(Seq<char>, DocModel)>::empty());
    }
    None
}

/// Whether a document node is a well-formed expression: a literal, or a
/// single-entry table whose one value is an array of well-formed expressions.
pub open spec fn wf_expr(d: DocModel) -> bool
    decreases d,
{
    match d {
        DocModel::Text(_) => true,
        DocModel::Integer(_) => true,
        DocModel::Float(_) => true,
        DocModel::Arr(_) => false,
        DocModel::Table(entries) => entries.len() == 1 && match entries[0].1 {
            DocModel::Arr(args) => wf_expr_list(args),
            _ => false,
        },
    }
}

/// Whether every node of a list is a well-formed expression.
pub open spec fn wf_expr_list(s: Seq<DocModel>) -> bool
    decreases s,
{
    if s.len() == 0 {
        true
    } else {
        wf_expr(s[0]) && wf_expr_list(s.subrange(1, s.len() as int))
    }
}

pub broadcast proof fn lemma_wf_expr_list_index(s: Seq<DocModel>)
    requires
        #[trigger] wf_expr_list(s),
    ensures
        forall|i: int| 0 <= i < s.len() ==> wf_expr(#[trigger] s[i]),
    decreases s,
{
    if s.len() > 0 {
        lemma_wf_expr_list_index(s.subrange(1, s.len() as int));
        assert forall|i: int| 0 <= i < s.len() implies wf_expr(#[trigger] s[i]) by {
            if i > 0 {
                assert(s[i] == s.subrange(1, s.len() as int)[i - 1]);
            }
        }
    }
}

impl Doc {
    /// An exact copy: the copy has the same model as the original.
    pub fn deep_copy(&self) -> (r: Doc)
        ensures
            r@ == self@,
        decreases *self,
    {
        match self {
            Doc::Text(s) => Doc::Text(s.clone()),
            Doc::Integer(i) => Doc::Integer(*i),
            Doc::Float(t) => Doc::Float(t.clone()),
            Doc::Arr(items) => Doc::Arr(copy_doc_list(items)),
            Doc::Table(entries) => Doc::Table(copy_doc_table(entries)),
        }
    }
}

/// Copies a list of document nodes, keeping order.
fn copy_doc_list(items: &Vec<Doc>) -> (r: Vec<Doc>)
    ensures
        doc_list_model(r@) == doc_list_model(items@),
    decreases items@,
{
    let mut r: Vec<Doc> = Vec::new();
    let mut i: usize = 0;
    while i < items.len()
        invariant
            i <= items.len(),
            r@.len() == i,
            forall|j: int| 0 <= j < i ==> doc_model(#[trigger] r@[j]) == doc_model(items@[j]),
        decreases items@.len() - i,
    {
        proof {
            assert(decreases_to!(items@ => items@[i as int]));
        }
        let copied = items[i].deep_copy();
        r.push(copied);
        i += 1;
    }
    proof {
        lemma_doc_list_model_len(r@);
        lemma_doc_list_model_len(items@);
        assert(doc_list_model(r@) =~= doc_list_model(items@));
    }
    r
}

/// Copies the entries of a table, keeping names, values and order.
fn copy_doc_table(entries: &Vec<(String, Doc)>) -> (r: Vec<(String, Doc)>)
    ensures
        doc_table_model(r@) == doc_table_model(entries@),
    decreases entries@,
{
    let mut r: Vec<(String, Doc)> = Vec::new();
    let mut i: usize = 0;
    while i < entries.len()
        invariant
            i <= entries.len(),
            r@.len() == i,
            forall|j: int|
                0 <= j < i ==> #[trigger] r@[j].0@ == entries@[j].0@
                    && doc_model(r@[j].1) == doc_model(entries@[j].1),
        decreases entries@.len() - i,
    {
        proof {
            assert(decreases_to!(entries@ => entries@[i as int]));
            assert(decreases_to!(entries@[i as int] => entries@[i as int].1));
        }
        let name = entries[i].0.clone();
        let value = entries[i].1.deep_copy();
        r.push((name, value));
        i += 1;
    }
    proof {
        lemma_doc_table_model_len(r@);
        lemma_doc_table_model_len(entries@);
        assert(doc_table_model(r@) =~= doc_table_model(entries@));
    }
    r
}

/// Decides whether a node is a well-formed expression.
pub fn check_wf_expr(d: &Doc) -> (r: bool)
    ensures
        r == wf_expr(d@),
    decreases d@, 0int,
{
    match d {
        Doc::Text(_) => true,
        Doc::Integer(_) => true,
        Doc::Float(_) => true,
        Doc::Arr(_) => false,
        Doc::Table(entries) => {
            proof {
                lemma_doc_table_model_len(entries@);
            }
            if entries.len() != 1 {
                return false;
            }
            match &entries[0].1 {
                Doc::Arr(items) => {
                    proof {
                        lemma_doc_list_model_len(items@);
                        let ghost dm = d@;
                        let ghost tm = doc_table_model(entries@);
                        assert(dm->Table_0 == tm);
                        assert(decreases_to!(dm => dm->Table_0));
                        assert(decreases_to!(tm => tm[0]));
                        assert(tm[0].1 == DocModel::Arr(doc_list_model(items@)));
                        assert(decreases_to!(tm[0] => tm[0].1));
                        assert(tm[0].1->Arr_0 == doc_list_model(items@));
                        assert(decreases_to!(tm[0].1 => tm[0].1->Arr_0));
                        assert(doc_list_model(items@).subrange(0, items@.len() as int)
                            =~= doc_list_model(items@));
                    }
                    check_wf_args(items, 0)
                },
                _ => false,
            }
        },
    }
}

/// Decides whether every node of a list is a well-formed expression.
pub fn check_wf_list(items: &Vec<Doc>) -> (r: bool)
    ensures
        r == wf_expr_list(doc_list_model(items@)),
{
    proof {
        lemma_doc_list_model_len(items@);
        assert(doc_list_model(items@).subrange(0, items@.len() as int) =~= doc_list_model(items@));
    }
    check_wf_args(items, 0)
}

/// Decides whether every node of a list from a given position on is a
/// well-formed expression.
fn check_wf_args(items: &Vec<Doc>, from: usize) -> (r: bool)
    requires
        from <= items@.len(),
    ensures
        r == wf_expr_list(doc_list_model(items@).subrange(from as int, items@.len() as int)),
    decreases doc_list_model(items@).subrange(from as int, items@.len() as int), 1int,
{
    proof {
        lemma_doc_list_model_len(items@);
    }
    let ghost part = doc_list_model(items@).subrange(from as int, items@.len() as int);
    if from == items.len() {
        proof {
            assert(part =~= Seq::<DocModel>::empty());
        }
        true
    } else {
        proof {
            assert(part[0] == doc_model(items@[from as int]));
            assert(decreases_to!(part => part[0]));
        }
        let head_ok = check_wf_expr(&items[from]);
        if !head_ok {
            proof {
                assert(!wf_expr_list(part));
            }
            false
        } else {
            proof {
                assert(decreases_to!(part => part.subrange(1, part.len() as int)));
                assert(part.subrange(1, part.len() as int) =~= doc_list_model(
                    items@,
                ).subrange(from + 1, items@.len() as int));
            }
            check_wf_args(items, from + 1)
        }
    }
}

/// Whether a node is a literal: a text, an integer or a float.
pub open spec fn is_literal(d: DocModel) -> bool {
    match d {
        DocModel::Text(_) => true,
        DocModel::Integer(_) => true,
        DocModel::Float(_) => true,
        DocModel::Arr(_) => false,
        DocModel::Table(_) => false,
    }
}

/// The value a literal node evaluates to.
pub open spec fn literal_value(d: DocModel) -> crate::value::ValModel
    recommends
        is_literal(d),
{
    match d {
        DocModel::Text(s) => crate::value::ValModel::Text(s),
        DocModel::Integer(i) => crate::value::ValModel::Integer(i),
        DocModel::Float(t) => crate::value::ValModel::Float(t),
        _ => crate::value::ValModel::Undef,
    }
}

} // verus!
