//! Runtime values, their mathematical model, and the narrowing operation.
use vstd::prelude::*;

verus! {

/// A dynamically tagged runtime value.
#[derive(Debug)]
pub enum Value {
    Boolean(bool),
    Byte(i8),
    Short(i16),
    Int(i32),
    Long(i64),
    /// A trivially decided cryptographic proposition.
    SigmaProp(bool),
    /// An opaque reference to a chain object (an output box).
    CBox(u64),
    Unit,
    Coll(Vec<Value>),
    Tup(Vec<Value>),
    Opt(Option<Box<Value>>),
}

/// The mathematical model of a runtime value.
pub enum ValueModel {
    Boolean(bool),
    Byte(i8),
    Short(i16),
    Int(i32),
    Long(i64),
    SigmaProp(bool),
    CBox(u64),
    Unit,
    Coll(Seq<ValueModel>),
    Tup(Seq<ValueModel>),
    NoneV,
    SomeV(Box<ValueModel>),
}

pub open spec fn value_model(v: Value) -> ValueModel
    decreases v, 1int,
{
    match v {
        Value::Boolean(b) => ValueModel::Boolean(b),
        Value::Byte(x) => ValueModel::Byte(x),
        Value::Short(x) => ValueModel::Short(x),
        Value::Int(x) => ValueModel::Int(x),
        Value::Long(x) => ValueModel::Long(x),
        Value::SigmaProp(b) => ValueModel::SigmaProp(b),
        Value::CBox(h) => ValueModel::CBox(h),
        Value::Unit => ValueModel::Unit,
        Value::Coll(items) => ValueModel::Coll(values_model(items@)),
        Value::Tup(items) => ValueModel::Tup(values_model(items@)),
        Value::Opt(o) => match o {
            Option::None => ValueModel::NoneV,
            Option::Some(b) => ValueModel::SomeV(Box::new(value_model(*b))),
        },
    }
}

pub open spec fn values_model(vs: Seq<Value>) -> Seq<ValueModel>
    decreases vs, 0int,
{
    if vs.len() == 0 {
        Seq::empty()
    } else {
        values_model(vs.drop_last()).push(value_model(vs.last()))
    }
}

impl View for Value {
    type V = ValueModel;

    open spec fn view(&self) -> ValueModel {
        value_model(*self)
    }
}

/// The models of a sequence of values are taken element by element.
pub proof fn lemma_values_model(vs: Seq<Value>)
    ensures
        values_model(vs).len() == vs.len(),
        forall|i: int| 0 <= i < vs.len() ==> #[trigger] values_model(vs)[i] == value_model(vs[i]),
    decreases vs.len(),
{
    if vs.len() > 0 {
        lemma_values_model(vs.drop_last());
    }
}

pub proof fn lemma_values_model_push(vs: Seq<Value>, v: Value)
    ensures
        values_model(vs.push(v)) == values_model(vs).push(value_model(v)),
{
    assert(vs.push(v).drop_last() =~= vs);
}

/// Failure of the narrowing operation.
#[derive(Debug, PartialEq, Eq, Clone, Copy, Structural)]
pub enum TryExtractError {
    TypeMismatch,
}

/// The booleans held by a collection of booleans, if the model is one.
pub open spec fn bools_of(m: ValueModel) -> Option<Seq<bool>> {
    match m {
        ValueModel::Coll(items) => if forall|i: int|
            0 <= i < items.len() ==> (#[trigger] items[i]) is Boolean {
            Option::Some(items.map_values(|x: ValueModel| x->Boolean_0))
        } else {
            Option::None
        },
        _ => Option::None,
    }
}

/// Deep copy of a value.
pub fn clone_value(v: &Value) -> (r: Value)
    ensures
        r@ == v@,
    decreases v, 1int,
{
    match v {
        Value::Boolean(b) => Value::Boolean(*b),
        Value::Byte(x) => Value::Byte(*x),
        Value::Short(x) => Value::Short(*x),
        Value::Int(x) => Value::Int(*x),
        Value::Long(x) => Value::Long(*x),
        Value::SigmaProp(b) => Value::SigmaProp(*b),
        Value::CBox(h) => Value::CBox(*h),
        Value::Unit => Value::Unit,
        Value::Coll(items) => Value::Coll(clone_values(items)),
        Value::Tup(items) => Value::Tup(clone_values(items)),
        Value::Opt(o) => match o {
            Option::None => Value::Opt(Option::None),
            Option::Some(b) => Value::Opt(Option::Some(Box::new(clone_value(b)))),
        },
    }
}

/// Deep copy of a sequence of values.
pub fn clone_values(vs: &Vec<Value>) -> (r: Vec<Value>)
    ensures
        values_model(r@) == values_model(vs@),
    decreases vs@, 0int,
{
    let mut out: Vec<Value> = Vec::new();
    let mut i: usize = 0;
    while i < vs.len()
        invariant
            i <= vs@.len(),
            values_model(out@) == values_model(vs@.subrange(0, i as int)),
        decreases vs@.len() - i,
    {
        proof {
            assert(decreases_to!(vs@ => vs@[i as int]));
        }
        let c = clone_value(&vs[i]);
        proof {
            lemma_values_model_push(out@, c);
            lemma_values_model_push(vs@.subrange(0, i as int), vs@[i as int]);
            assert(vs@.subrange(0, i as int).push(vs@[i as int]) =~= vs@.subrange(0, i + 1));
        }
        out.push(c);
        i = i + 1;
    }
    assert(vs@.subrange(0, vs@.len() as int) =~= vs@);
    out
}

/// Deep equality of two values, by their models.
pub fn value_eq(a: &Value, b: &Value) -> (r: bool)
    ensures
        r == (a@ == b@),
    decreases a, 1int,
{
    match (a, b) {
        (Value::Boolean(x), Value::Boolean(y)) => *x == *y,
        (Value::Byte(x), Value::Byte(y)) => *x == *y,
        (Value::Short(x), Value::Short(y)) => *x == *y,
        (Value::Int(x), Value::Int(y)) => *x == *y,
        (Value::Long(x), Value::Long(y)) => *x == *y,
        (Value::SigmaProp(x), Value::SigmaProp(y)) => *x == *y,
        (Value::CBox(x), Value::CBox(y)) => *x == *y,
        (Value::Unit, Value::Unit) => true,
        (Value::Coll(x), Value::Coll(y)) => values_eq(x, y),
        (Value::Tup(x), Value::Tup(y)) => values_eq(x, y),
        (Value::Opt(x), Value::Opt(y)) => match (x, y) {
            (Option::None, Option::None) => true,
            (Option::Some(p), Option::Some(q)) => value_eq(p, q),
            _ => false,
        },
        _ => false,
    }
}

/// Deep equality of two sequences of values, by their models.
pub fn values_eq(a: &Vec<Value>, b: &Vec<Value>) -> (r: bool)
    ensures
        r == (values_model(a@) == values_model(b@)),
    decreases a@, 0int,
{
    proof {
        lemma_values_model(a@);
        lemma_values_model(b@);
    }
    if a.len() != b.len() {
        return false;
    }
    let mut i: usize = 0;
    while i < a.len()
        invariant
            i <= a@.len(),
            a@.len() == b@.len(),
            values_model(a@).len() == a@.len(),
            values_model(b@).len() == b@.len(),
            forall|j: int| 0 <= j < a@.len() ==> #[trigger] values_model(a@)[j] == value_model(a@[j]),
            forall|j: int| 0 <= j < b@.len() ==> #[trigger] values_model(b@)[j] == value_model(b@[j]),
            forall|j: int| 0 <= j < i ==> values_model(a@)[j] == values_model(b@)[j],
        decreases a@.len() - i,
    {
        proof {
            assert(decreases_to!(a@ => a@[i as int]));
        }
        if !value_eq(&a[i], &b[i]) {
            assert(values_model(a@)[i as int] != values_model(b@)[i as int]);
            return false;
        }
        i = i + 1;
    }
    assert(values_model(a@) =~= values_model(b@));
    true
}

/// Narrows a value to a sequence of booleans.
pub fn try_extract_bools(v: &Value) -> (r: Result<Vec<bool>, TryExtractError>)
    ensures
        r is Ok <==> bools_of(v@) is Some,
        r is Ok ==> r->Ok_0@ == bools_of(v@)->0,
        r is Err ==> r == Err::<Vec<bool>, TryExtractError>(TryExtractError::TypeMismatch),
{
    match v {
        Value::Coll(items) => {
            proof {
                lemma_values_model(items@);
            }
            let ghost m = values_model(items@);
            let mut out: Vec<bool> = Vec::new();
            let mut i: usize = 0;
            while i < items.len()
                invariant
                    i <= items@.len(),
                    m.len() == items@.len(),
                    v@ == ValueModel::Coll(m),
                    forall|j: int| 0 <= j < items@.len() ==> #[trigger] m[j] == value_model(items@[j]),
                    forall|j: int| 0 <= j < i ==> (#[trigger] m[j]) is Boolean,
                    out@ == m.subrange(0, i as int).map_values(|x: ValueModel| x->Boolean_0),
                decreases items@.len() - i,
            {
                match &items[i] {
                    Value::Boolean(b) => {
                        assert(m.subrange(0, i + 1).map_values(|x: ValueModel| x->Boolean_0)
                            =~= m.subrange(0, i as int).map_values(|x: ValueModel| x->Boolean_0).push(*b));
                        out.push(*b);
                    },
                    _ => {
                        assert(!(m[i as int] is Boolean));
                        assert(v@ == ValueModel::Coll(m));
                        assert(bools_of(v@) is None);
                        return Err(TryExtractError::TypeMismatch);
                    },
                }
                i = i + 1;
            }
            assert(m.subrange(0, i as int) =~= m);
            Ok(out)
        },
        _ => Err(TryExtractError::TypeMismatch),
    }
}

} // verus!
