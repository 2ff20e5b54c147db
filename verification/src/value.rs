use vstd::prelude::*;
use vstd::string::StringExecFns;

verus! {

/// A runtime value of the engine: text, an integer, a float (kept as the
/// decimal text the front end chose for it, since the engine never computes
/// with it), a composite aggregate whose field order is insertion order, or
/// the undefined value that every unresolved reference yields.
pub enum Value {
    Text(String),
    Integer(i64),
    Float(String),
    Composite(Vec<(String, Value)>),
    Undef,
}

/// The mathematical model of a `Value`.
pub enum ValModel {
    Text(Seq<char>),
    Integer(int),
    Float(Seq<char>),
    Composite(Seq<(Seq<char>, ValModel)>),
    Undef,
}

/// The model of a value: each text becomes its character sequence and each
/// composite the sequence of its modelled fields, in order.
pub open spec fn val_model(v: Value) -> ValModel
    decreases v,
{
    match v {
        Value::Text(s) => ValModel::Text(s@),
        Value::Integer(i) => ValModel::Integer(i as int),
        Value::Float(t) => ValModel::Float(t@),
        Value::Composite(fields) => ValModel::Composite(fields_model(fields@)),
        Value::Undef => ValModel::Undef,
    }
}

/// The model of a sequence of named fields, in order.
pub open spec fn fields_model(s: Seq<(String, Value)>) -> Seq<(Seq<char>, ValModel)>
    decreases s,
{
    if s.len() == 0 {
        Seq::empty()
    } else {
        fields_model(s.subrange(0, s.len() - 1)).push(
            (s[s.len() - 1].0@, val_model(s[s.len() - 1].1)),
        )
    }
}

impl View for Value {
    type V = ValModel;

    open spec fn view(&self) -> ValModel {
        val_model(*self)
    }
}

pub broadcast proof fn lemma_fields_model_len(s: Seq<(String, Value)>)
    ensures
        #[trigger] fields_model(s).len() == s.len(),
        forall|i: int|
            0 <= i < s.len() ==> fields_model(s)[i] == (s[i].0@, val_model(s[i].1)),
    decreases s,
{
    if s.len() > 0 {
        lemma_fields_model_len(s.subrange(0, s.len() - 1));
    }
}

impl Value {
    /// An exact copy: the copy has the same model as the original.
    pub fn deep_copy(&self) -> (r: Value)
        ensures
            r@ == self@,
        decreases *self,
    {
        match self {
            Value::Text(s) => Value::Text(s.clone()),
            Value::Integer(i) => Value::Integer(*i),
            Value::Float(t) => Value::Float(t.clone()),
            Value::Undef => Value::Undef,
            Value::Composite(fields) => {
                let copied = copy_fields(fields);
                Value::Composite(copied)
            },
        }
    }
}

/// Copies a field list one entry at a time, keeping names, values and order.
fn copy_fields(fields: &Vec<(String, Value)>) -> (r: Vec<(String, Value)>)
    ensures
        fields_model(r@) == fields_model(fields@),
    decreases fields@,
{
    let mut r: Vec<(String, Value)> = Vec::new();
    let mut i: usize = 0;
    while i < fields.len()
        invariant
            i <= fields.len(),
            r@.len() == i,
            forall|j: int|
                0 <= j < i ==> #[trigger] r@[j].0@ == fields@[j].0@
                    && val_model(r@[j].1) == val_model(fields@[j].1),
        decreases fields@.len() - i,
    {
        proof {
            assert(decreases_to!(fields@ => fields@[i as int]));
            assert(decreases_to!(fields@[i as int] => fields@[i as int].1));
        }
        let name = fields[i].0.clone();
        let value = fields[i].1.deep_copy();
        r.push((name, value));
        i += 1;
    }
    proof {
        lemma_fields_model_len(r@);
        lemma_fields_model_len(fields@);
        assert(fields_model(r@) =~= fields_model(fields@));
    }
    r
}

/// A digit character for a value between zero and nine.
pub open spec fn digit_char(d: int) -> char {
    if d == 0 { '0' }
    else if d == 1 { '1' }
    else if d == 2 { '2' }
    else if d == 3 { '3' }
    else if d == 4 { '4' }
    else if d == 5 { '5' }
    else if d == 6 { '6' }
    else if d == 7 { '7' }
    else if d == 8 { '8' }
    else { '9' }
}

/// The decimal text of a nonnegative integer, without sign or leading zeros
/// (a single zero for zero itself).
pub open spec fn dec_text(n: int) -> Seq<char>
    decreases n,
{
    if n < 10 {
        seq![digit_char(n)]
    } else {
        dec_text(n / 10).push(digit_char(n % 10))
    }
}

/// The decimal text of an integer: a minus sign before the magnitude when it
/// is negative.
pub open spec fn int_text(n: int) -> Seq<char> {
    if n < 0 {
        seq!['-'] + dec_text(-n)
    } else {
        dec_text(n)
    }
}

/// The one-character text of a digit.
fn digit_str(d: u64) -> (r: &'static str)
    requires
        0 <= d < 10,
    ensures
        r@ =~= seq![digit_char(d as int)],
{
    proof {
        reveal_strlit("0");
        reveal_strlit("1");
        reveal_strlit("2");
        reveal_strlit("3");
        reveal_strlit("4");
        reveal_strlit("5");
        reveal_strlit("6");
        reveal_strlit("7");
        reveal_strlit("8");
        reveal_strlit("9");
    }
    match d {
        0 => "0",
        1 => "1",
        2 => "2",
        3 => "3",
        4 => "4",
        5 => "5",
        6 => "6",
        7 => "7",
        8 => "8",
        _ => "9",
    }
}

/// Renders a nonnegative integer in decimal.
fn u64_text(n: u64) -> (s: String)
    ensures
        s@ == dec_text(n as int),
{
    let mut digits: Vec<u64> = Vec::new();
    let mut m: u64 = n;
    proof {
        assert(dec_text(n as int) + rev_digit_text(digits@) =~= dec_text(n as int));
    }
    loop
        invariant_except_break
            dec_text(n as int) == dec_text(m as int) + rev_digit_text(digits@),
            forall|j: int| 0 <= j < digits@.len() ==> 0 <= #[trigger] digits@[j] < 10,
        ensures
            dec_text(n as int) == rev_digit_text(digits@),
            forall|j: int| 0 <= j < digits@.len() ==> 0 <= #[trigger] digits@[j] < 10,
        decreases m,
    {
        let d: u64 = m % 10;
        let next: u64 = m / 10;
        proof {
            let ghost olddigits = digits@;
            let ghost grown = olddigits.push(d);
            assert(grown.subrange(0, grown.len() - 1) =~= olddigits);
            assert(rev_digit_text(grown) == seq![digit_char(d as int)]
                + rev_digit_text(olddigits));
            if next == 0 {
                assert(dec_text(m as int) == seq![digit_char(d as int)]);
                assert(dec_text(n as int) =~= rev_digit_text(grown));
            } else {
                assert(dec_text(m as int) == dec_text(next as int).push(digit_char(d as int)));
                assert(dec_text(next as int).push(digit_char(d as int))
                    + rev_digit_text(olddigits) =~= dec_text(next as int)
                    + rev_digit_text(grown));
            }
        }
        digits.push(d);
        m = next;
        if m == 0 {
            break;
        }
    }
    let mut s = String::new();
    let mut i: usize = digits.len();
    proof {
        assert(digits@.subrange(0, i as int) =~= digits@);
        assert(s@ + rev_digit_text(digits@) =~= rev_digit_text(digits@));
    }
    while i > 0
        invariant
            i <= digits@.len(),
            forall|j: int| 0 <= j < digits@.len() ==> 0 <= #[trigger] digits@[j] < 10,
            rev_digit_text(digits@) == s@ + rev_digit_text(digits@.subrange(0, i as int)),
        decreases i,
    {
        i -= 1;
        proof {
            let ghost pre = digits@.subrange(0, i + 1);
            assert(pre.subrange(0, i as int) =~= digits@.subrange(0, i as int));
            assert(pre[pre.len() - 1] == digits@[i as int]);
            assert(rev_digit_text(pre) == seq![digit_char(digits@[i as int] as int)]
                + rev_digit_text(digits@.subrange(0, i as int)));
        }
        let piece = digit_str(digits[i]);
        s.append(piece);
        proof {
            assert(rev_digit_text(digits@) =~= s@ + rev_digit_text(digits@.subrange(0, i as int)));
        }
    }
    proof {
        assert(digits@.subrange(0, 0) =~= Seq::<u64>::empty());
        assert(s@ =~= rev_digit_text(digits@));
    }
    s
}

/// The digit characters of a digit list, read from the last entry to the
/// first.
pub open spec fn rev_digit_text(digits: Seq<u64>) -> Seq<char>
    decreases digits.len(),
{
    if digits.len() == 0 {
        Seq::empty()
    } else {
        seq![digit_char(digits[digits.len() - 1] as int)]
            + rev_digit_text(digits.subrange(0, digits.len() - 1))
    }
}

/// The canonical text of a value: texts and floats stand as they are,
/// integers in decimal, the undefined value as the word `undefined`, and a
/// composite as `{name = value, ...}` with its fields in insertion order.
pub open spec fn render_model(v: ValModel) -> Seq<char>
    decreases v,
{
    match v {
        ValModel::Text(s) => s,
        ValModel::Integer(i) => int_text(i),
        ValModel::Float(t) => t,
        ValModel::Undef => "undefined"@,
        ValModel::Composite(fields) => "{"@ + render_fields_model(fields) + "}"@,
    }
}

/// The canonical text of a field list: `name = value` entries joined by
/// commas.
pub open spec fn render_fields_model(fields: Seq<(Seq<char>, ValModel)>) -> Seq<char>
    decreases fields,
{
    if fields.len() == 0 {
        Seq::empty()
    } else {
        fields[0].0 + " = "@ + render_model(fields[0].1) + (if fields.len() > 1 {
            ", "@ + render_fields_model(fields.subrange(1, fields.len() as int))
        } else {
            Seq::<char>::empty()
        })
    }
}

/// Renders a value in its canonical text.
pub fn render(v: &Value) -> (s: String)
    ensures
        s@ == render_model(v@),
    decreases *v,
{
    match v {
        Value::Text(t) => t.clone(),
        Value::Integer(i) => int_to_text(*i),
        Value::Float(t) => t.clone(),
        Value::Undef => String::from_str("undefined"),
        Value::Composite(fields) => {
            let mut s = String::from_str("{");
            proof {
                lemma_fields_model_len(fields@);
                assert(fields@.subrange(0, fields@.len() as int) =~= fields@);
            }
            let body = render_fields(fields, 0);
            s.append(body.as_str());
            s.append("}");
            proof {
                assert(s@ =~= "{"@ + render_fields_model(fields_model(fields@)) + "}"@);
            }
            s
        },
    }
}

/// Renders the fields of a composite from position `from` on.
fn render_fields(fields: &Vec<(String, Value)>, from: usize) -> (s: String)
    requires
        from <= fields@.len(),
    ensures
        s@ == render_fields_model(fields_model(fields@.subrange(from as int, fields@.len() as int))),
    decreases fields@.skip(from as int),
{
    proof {
        lemma_fields_model_len(fields@.subrange(from as int, fields@.len() as int));
    }
    if from == fields.len() {
        proof {
            assert(fields@.subrange(from as int, fields@.len() as int) =~= Seq::<(String, Value)>::empty());
        }
        String::new()
    } else {
        proof {
            assert(decreases_to!(fields@.skip(from as int) => fields@.skip(from as int)[0]));
            assert(fields@.skip(from as int)[0] == fields@[from as int]);
            assert(decreases_to!(fields@[from as int] => fields@[from as int].1));
        }
        let mut s = fields[from].0.clone();
        s.append(" = ");
        let head = render(&fields[from].1);
        s.append(head.as_str());
        if from + 1 < fields.len() {
            s.append(", ");
            proof {
                let ghost tail = fields@.skip(from as int).subrange(1, fields@.skip(from as int).len() as int);
                assert(decreases_to!(fields@.skip(from as int) => tail));
                assert(tail =~= fields@.skip(from + 1));
            }
            let rest = render_fields(fields, from + 1);
            s.append(rest.as_str());
        }
        proof {
            let ghost part = fields@.subrange(from as int, fields@.len() as int);
            let ghost modelled = fields_model(part);
            assert(part[0] == fields@[from as int]);
            assert(modelled[0] == (fields@[from as int].0@, val_model(fields@[from as int].1)));
            if part.len() > 1 {
                let ghost sub = part.subrange(1, part.len() as int);
                assert(sub =~= fields@.subrange(from + 1, fields@.len() as int));
                lemma_fields_model_len(sub);
                assert(modelled.subrange(1, modelled.len() as int) =~= fields_model(sub));
                assert(s@ =~= modelled[0].0 + " = "@ + render_model(modelled[0].1)
                    + (", "@ + render_fields_model(modelled.subrange(1, modelled.len() as int))));
            } else {
                assert(s@ =~= modelled[0].0 + " = "@ + render_model(modelled[0].1));
            }
        }
        s
    }
}

/// Renders an integer in decimal, with a minus sign when negative.
pub fn int_to_text(n: i64) -> (s: String)
    ensures
        s@ == int_text(n as int),
{
    if n >= 0 {
        u64_text(n as u64)
    } else {
        let m: u64 = if n == -9223372036854775808i64 {
            9223372036854775808u64
        } else {
            (-n) as u64
        };
        let mut s = String::from_str("-");
        proof {
            reveal_strlit("-");
            assert(s@ =~= seq!['-']);
        }
        let mag = u64_text(m);
        s.append(mag.as_str());
        proof {
            assert(s@ =~= seq!['-'] + dec_text(-(n as int)));
        }
        s
    }
}

} // verus!
