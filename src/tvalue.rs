//! Runtime values tagged at compile time with the type they hold.
use vstd::prelude::*;
use core::marker::PhantomData;
use crate::value::{Value, ValueModel, values_model};

verus! {

/// Marker for a compile-time type tag.
pub trait STypeT {}

/// Tag of the box type.
#[derive(PartialEq, Eq, Debug, Clone, Copy, Structural)]
pub struct SBoxT {}

impl STypeT for SBoxT {}

/// Tag of the 32-bit integer type.
#[derive(PartialEq, Eq, Debug, Clone, Copy, Structural)]
pub struct SIntT {}

impl STypeT for SIntT {}

/// Tag of the collection type over the element tag `T`.
#[derive(Debug)]
pub struct SCollT<T: STypeT> {
    pub p: PhantomData<T>,
}

impl<T: STypeT> STypeT for SCollT<T> {}

/// A runtime value known to have the type tagged by `T`.
#[derive(Debug)]
pub struct TValue<T: STypeT> {
    pub v: Value,
    pub p: PhantomData<T>,
}

impl From<i32> for TValue<SIntT> {
    fn from(v: i32) -> (r: TValue<SIntT>) {
        TValue { v: Value::Int(v), p: PhantomData }
    }
}

impl vstd::std_specs::convert::FromSpecImpl<i32> for TValue<SIntT> {
    open spec fn obeys_from_spec() -> bool {
        true
    }

    open spec fn from_spec(v: i32) -> TValue<SIntT> {
        TValue { v: Value::Int(v), p: PhantomData }
    }
}

impl TValue<SBoxT> {
    /// The value referring to the box behind the given handle.
    pub fn from_box(handle: u64) -> (r: TValue<SBoxT>)
        ensures
            r.v@ == ValueModel::CBox(handle),
    {
        TValue { v: Value::CBox(handle), p: PhantomData }
    }
}

impl TValue<SCollT<SIntT>> {
    /// The collection holding the given integers, in order.
    pub fn from_ints(raw: Vec<i32>) -> (r: TValue<SCollT<SIntT>>)
        ensures
            r.v@ == ValueModel::Coll(Seq::new(raw@.len(), |i: int| ValueModel::Int(raw@[i]))),
    {
        let mut out: Vec<Value> = Vec::new();
        let mut i: usize = 0;
        while i < raw.len()
            invariant
                i <= raw@.len(),
                values_model(out@) == Seq::new(i as nat, |j: int| ValueModel::Int(raw@[j])),
            decreases raw@.len() - i,
        {
            let v = Value::Int(raw[i]);
            proof {
                crate::value::lemma_values_model_push(out@, v);
                assert(Seq::new(i as nat, |j: int| ValueModel::Int(raw@[j])).push(v@) =~= Seq::new(
                    (i + 1) as nat,
                    |j: int| ValueModel::Int(raw@[j]),
                ));
            }
            out.push(v);
            i = i + 1;
        }
        TValue { v: Value::Coll(out), p: PhantomData }
    }
}

} // verus!
