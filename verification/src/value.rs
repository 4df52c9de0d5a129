use vstd::prelude::*;

use crate::text::copy_string;

verus! {

/// A runtime value of the language.
#[derive(Debug)]
pub enum Value {
    Integer(i64),
    String(String),
    Bool(bool),
    Char(char),
    Values(Vec<Value>),
}

/// The mathematical model of a value: strings as character sequences,
/// arrays as sequences of models.
pub enum ValueView {
    Integer(i64),
    Str(Seq<char>),
    Bool(bool),
    Char(char),
    Values(Seq<ValueView>),
}

impl Value {
    pub open spec fn model(self) -> ValueView
        decreases self, 1int,
    {
        match self {
            Value::Integer(i) => ValueView::Integer(i),
            Value::String(s) => ValueView::Str(s@),
            Value::Bool(b) => ValueView::Bool(b),
            Value::Char(c) => ValueView::Char(c),
            Value::Values(vs) => ValueView::Values(models(vs@)),
        }
    }
}

/// The models of a sequence of values, in order.
pub open spec fn models(s: Seq<Value>) -> Seq<ValueView>
    decreases s, 0int,
{
    if s.len() == 0 {
        Seq::empty()
    } else {
        models(s.subrange(0, s.len() - 1)).push(s[s.len() - 1].model())
    }
}

impl View for Value {
    type V = ValueView;

    open spec fn view(&self) -> ValueView {
        self.model()
    }
}

/// `models` keeps the length and maps each element to its model.
pub proof fn lemma_models_index(s: Seq<Value>)
    ensures
        models(s).len() == s.len(),
        forall|i: int| 0 <= i < s.len() ==> #[trigger] models(s)[i] == s[i]@,
    decreases s.len(),
{
    if s.len() > 0 {
        let p = s.subrange(0, s.len() - 1);
        lemma_models_index(p);
        assert forall|i: int| 0 <= i < s.len() implies #[trigger] models(s)[i] == s[i]@ by {
            if i < s.len() - 1 {
                assert(p[i] == s[i]);
            }
        }
    }
}

/// Two value sequences have the same models when they agree element by element.
pub proof fn lemma_models_ext(s: Seq<Value>, t: Seq<Value>)
    requires
        s.len() == t.len(),
        forall|i: int| 0 <= i < s.len() ==> #[trigger] s[i]@ == t[i]@,
    ensures
        models(s) == models(t),
{
    lemma_models_index(s);
    lemma_models_index(t);
    assert(models(s) =~= models(t));
}

impl Value {
    /// A deep copy of this value.
    pub fn duplicate(&self) -> (r: Value)
        ensures
            r@ == self@,
        decreases self, 1int,
    {
        match self {
            Value::Integer(i) => Value::Integer(*i),
            Value::String(s) => Value::String(copy_string(s)),
            Value::Bool(b) => Value::Bool(*b),
            Value::Char(c) => Value::Char(*c),
            Value::Values(vs) => Value::Values(duplicate_values(vs)),
        }
    }

    /// The name of this value's type, as runtime errors spell it.
    pub fn kind_name(&self) -> (name: &'static str)
        ensures
            name@ == kind_name_of(self@),
    {
        match self {
            Value::Integer(_) => "int",
            Value::String(_) => "string",
            Value::Bool(_) => "bool",
            Value::Char(_) => "char",
            Value::Values(_) => "array",
        }
    }
}

/// The name of a value's type.
pub open spec fn kind_name_of(v: ValueView) -> Seq<char> {
    match v {
        ValueView::Integer(_) => "int"@,
        ValueView::Str(_) => "string"@,
        ValueView::Bool(_) => "bool"@,
        ValueView::Char(_) => "char"@,
        ValueView::Values(_) => "array"@,
    }
}

/// A deep copy of a vector of values.
pub fn duplicate_values(vs: &Vec<Value>) -> (r: Vec<Value>)
    ensures
        models(r@) == models(vs@),
    decreases vs, 0int,
{
    let mut r: Vec<Value> = Vec::new();
    let mut i: usize = 0;
    while i < vs.len()
        invariant
            i <= vs.len(),
            r.len() == i,
            forall|j: int| 0 <= j < i ==> #[trigger] r@[j]@ == vs@[j]@,
        decreases vs.len() - i,
    {
        proof {
            assert(decreases_to!(vs => vs@));
            assert(decreases_to!(vs@ => vs@[i as int]));
        }
        let v = vs[i].duplicate();
        r.push(v);
        i = i + 1;
    }
    proof {
        lemma_models_ext(r@, vs@);
    }
    r
}

} // verus!
