//! The static type system.
use vstd::prelude::*;

verus! {

/// Stable wire code of a type category.
pub type TypeCode = u8;

pub const BOOLEAN_CODE: TypeCode = 1;
pub const BYTE_CODE: TypeCode = 2;
pub const SHORT_CODE: TypeCode = 3;
pub const INT_CODE: TypeCode = 4;
pub const LONG_CODE: TypeCode = 5;
pub const BIGINT_CODE: TypeCode = 6;
pub const GROUP_ELEMENT_CODE: TypeCode = 7;
pub const SIGMA_PROP_CODE: TypeCode = 8;
pub const COLLECTION_CODE: TypeCode = 12;
pub const OPTION_CODE: TypeCode = 36;
pub const TUPLE_CODE: TypeCode = 96;
pub const UNIT_CODE: TypeCode = 98;
pub const BOX_CODE: TypeCode = 99;
pub const TYPE_VAR_CODE: TypeCode = 103;
pub const FUNC_CODE: TypeCode = 112;

/// A type variable, used only inside generic builtin-method signatures.
#[derive(PartialEq, Eq, Debug, Clone, Copy, Structural)]
pub struct STypeVar {
    pub id: u8,
}

impl STypeVar {
    /// The element type variable `T`.
    pub fn t() -> (r: STypeVar)
        ensures
            r.id == 0,
    {
        STypeVar { id: 0 }
    }

    /// The input type variable `IV`.
    pub fn iv() -> (r: STypeVar)
        ensures
            r.id == 1,
    {
        STypeVar { id: 1 }
    }

    /// The output type variable `OV`.
    pub fn ov() -> (r: STypeVar)
        ensures
            r.id == 2,
    {
        STypeVar { id: 2 }
    }
}

/// A function type: domain, range and generic type parameters.
#[derive(Debug)]
pub struct SFunc {
    pub t_dom: Vec<SType>,
    pub t_range: Box<SType>,
    pub tpe_params: Vec<STypeVar>,
}

/// A type of the language.
#[derive(Debug)]
pub enum SType {
    SBoolean,
    SByte,
    SShort,
    SInt,
    SLong,
    SBigInt,
    SGroupElement,
    SSigmaProp,
    SBox,
    SUnit,
    SColl(Box<SType>),
    SOption(Box<SType>),
    STuple(Vec<SType>),
    SFunc(SFunc),
    STypeVar(STypeVar),
}

/// The mathematical model of a type.
pub enum TypeModel {
    Boolean,
    Byte,
    Short,
    Int,
    Long,
    BigInt,
    GroupElement,
    SigmaProp,
    Boxed,
    Unit,
    Coll(Box<TypeModel>),
    Opt(Box<TypeModel>),
    Tuple(Seq<TypeModel>),
    Func(Seq<TypeModel>, Box<TypeModel>, Seq<u8>),
    Var(u8),
}

pub open spec fn type_model(t: SType) -> TypeModel
    decreases t, 1int,
{
    match t {
        SType::SBoolean => TypeModel::Boolean,
        SType::SByte => TypeModel::Byte,
        SType::SShort => TypeModel::Short,
        SType::SInt => TypeModel::Int,
        SType::SLong => TypeModel::Long,
        SType::SBigInt => TypeModel::BigInt,
        SType::SGroupElement => TypeModel::GroupElement,
        SType::SSigmaProp => TypeModel::SigmaProp,
        SType::SBox => TypeModel::Boxed,
        SType::SUnit => TypeModel::Unit,
        SType::SColl(e) => TypeModel::Coll(Box::new(type_model(*e))),
        SType::SOption(e) => TypeModel::Opt(Box::new(type_model(*e))),
        SType::STuple(items) => TypeModel::Tuple(types_model(items@)),
        SType::SFunc(f) => TypeModel::Func(
            types_model(f.t_dom@),
            Box::new(type_model(*f.t_range)),
            f.tpe_params@.map_values(|p: STypeVar| p.id),
        ),
        SType::STypeVar(v) => TypeModel::Var(v.id),
    }
}

pub open spec fn types_model(ts: Seq<SType>) -> Seq<TypeModel>
    decreases ts, 0int,
{
    if ts.len() == 0 {
        Seq::empty()
    } else {
        types_model(ts.drop_last()).push(type_model(ts.last()))
    }
}

/// The models of a sequence of types are taken element by element.
pub proof fn lemma_types_model_len(ts: Seq<SType>)
    ensures
        types_model(ts).len() == ts.len(),
        forall|i: int| 0 <= i < ts.len() ==> #[trigger] types_model(ts)[i] == type_model(ts[i]),
    decreases ts.len(),
{
    if ts.len() > 0 {
        lemma_types_model_len(ts.drop_last());
    }
}

impl View for SType {
    type V = TypeModel;

    open spec fn view(&self) -> TypeModel {
        type_model(*self)
    }
}

} // verus!
