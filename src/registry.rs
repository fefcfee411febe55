//! Builtin-method registry: immutable per-type method tables keyed by
//! (type code, method id).
use vstd::prelude::*;
use crate::types::{SFunc, SType, STypeVar, TypeCode, TypeModel, COLLECTION_CODE, type_model};

verus! {

/// Identifier of a builtin method within one type's method table.
pub type MethodId = u8;

/// Type code of the collection type.
pub const TYPE_ID: TypeCode = COLLECTION_CODE;
/// Coll.indexOf
pub const INDEX_OF_METHOD_ID: MethodId = 26;
/// Coll.flatMap
pub const FLATMAP_METHOD_ID: MethodId = 15;
/// Coll.zip
pub const ZIP_METHOD_ID: MethodId = 14;
/// Coll.indices
pub const INDICES_METHOD_ID: MethodId = 29;

/// Immutable description of one builtin method.
#[derive(Debug)]
pub struct SMethodDesc {
    pub method_id: MethodId,
    pub name: &'static str,
    pub tpe: SFunc,
}

/// A builtin type's complete method table.
#[derive(Debug)]
pub struct STypeCompanion {
    pub type_id: TypeCode,
    pub name: &'static str,
    pub methods: Vec<SMethodDesc>,
}

/// A resolved builtin method: its owner type and its descriptor.
#[derive(Debug)]
pub struct SMethod {
    pub obj_type: TypeCode,
    pub method_raw: SMethodDesc,
}

/// Failure to resolve a (type code, method id) pair.
#[derive(Debug, PartialEq, Eq, Clone, Copy, Structural)]
pub enum MethodLookupError {
    UnknownMethod { type_id: TypeCode, method_id: MethodId },
}

/// The ids of the collection type's method table, in table order.
pub open spec fn coll_method_ids() -> Seq<MethodId> {
    seq![INDEX_OF_METHOD_ID, FLATMAP_METHOD_ID, ZIP_METHOD_ID, INDICES_METHOD_ID]
}

/// Whether the pair names a registered builtin method.
pub open spec fn is_registered(type_id: TypeCode, method_id: MethodId) -> bool {
    type_id == TYPE_ID && coll_method_ids().contains(method_id)
}

/// Name of a registered collection method.
pub open spec fn coll_method_name(id: MethodId) -> Seq<char> {
    if id == INDEX_OF_METHOD_ID {
        "indexOf"@
    } else if id == FLATMAP_METHOD_ID {
        "flatMap"@
    } else if id == ZIP_METHOD_ID {
        "zip"@
    } else {
        "indices"@
    }
}

pub open spec fn coll_of(e: TypeModel) -> TypeModel {
    TypeModel::Coll(Box::new(e))
}

pub open spec fn var_t() -> TypeModel {
    TypeModel::Var(0)
}

pub open spec fn var_iv() -> TypeModel {
    TypeModel::Var(1)
}

pub open spec fn var_ov() -> TypeModel {
    TypeModel::Var(2)
}

/// Generic function type of a registered collection method.
pub open spec fn coll_method_type(id: MethodId) -> TypeModel {
    if id == INDEX_OF_METHOD_ID {
        TypeModel::Func(
            seq![coll_of(var_t()), var_t(), TypeModel::Int],
            Box::new(TypeModel::Int),
            seq![],
        )
    } else if id == FLATMAP_METHOD_ID {
        TypeModel::Func(
            seq![
                coll_of(var_iv()),
                TypeModel::Func(seq![var_iv()], Box::new(coll_of(var_ov())), seq![]),
            ],
            Box::new(coll_of(var_ov())),
            seq![],
        )
    } else if id == ZIP_METHOD_ID {
        TypeModel::Func(
            seq![coll_of(var_t()), coll_of(var_iv())],
            Box::new(coll_of(TypeModel::Tuple(seq![var_t(), var_iv()]))),
            seq![],
        )
    } else {
        TypeModel::Func(seq![coll_of(var_t())], Box::new(coll_of(TypeModel::Int)), seq![])
    }
}

/// The descriptor agrees with the registry's declaration for its id.
pub open spec fn desc_matches(d: SMethodDesc, id: MethodId) -> bool {
    &&& d.method_id == id
    &&& d.name@ == coll_method_name(id)
    &&& type_model(SType::SFunc(d.tpe)) == coll_method_type(id)
}

/// The collection companion's table holds exactly the declared methods, in order.
pub open spec fn coll_table_wf(c: STypeCompanion) -> bool {
    &&& c.type_id == TYPE_ID
    &&& c.methods@.len() == coll_method_ids().len()
    &&& forall|i: int|
        0 <= i < c.methods@.len() ==> desc_matches(#[trigger] c.methods@[i], coll_method_ids()[i])
}

impl SFunc {
    /// A function type without generic type parameters.
    pub fn new(t_dom: Vec<SType>, t_range: SType) -> (r: SFunc)
        ensures
            r.t_dom == t_dom,
            *r.t_range == t_range,
            r.tpe_params@ == Seq::<STypeVar>::empty(),
    {
        SFunc { t_dom, t_range: Box::new(t_range), tpe_params: Vec::new() }
    }
}

fn coll_t(v: STypeVar) -> (r: SType)
    ensures
        type_model(r) == coll_of(TypeModel::Var(v.id)),
{
    let r = SType::SColl(Box::new(SType::STypeVar(v)));
    proof {
        reveal_with_fuel(type_model, 2);
    }
    r
}

proof fn lemma_types_model_1(a: SType)
    ensures
        crate::types::types_model(seq![a]) == seq![type_model(a)],
{
    reveal_with_fuel(crate::types::types_model, 2);
    assert(seq![a].drop_last() =~= Seq::<SType>::empty());
    assert(Seq::<TypeModel>::empty().push(type_model(a)) =~= seq![type_model(a)]);
}

proof fn lemma_types_model_2(a: SType, b: SType)
    ensures
        crate::types::types_model(seq![a, b]) == seq![type_model(a), type_model(b)],
{
    lemma_types_model_1(a);
    assert(seq![a, b].drop_last() =~= seq![a]);
    assert(seq![type_model(a)].push(type_model(b)) =~= seq![type_model(a), type_model(b)]);
}

proof fn lemma_types_model_3(a: SType, b: SType, c: SType)
    ensures
        crate::types::types_model(seq![a, b, c]) == seq![type_model(a), type_model(b), type_model(c)],
{
    lemma_types_model_2(a, b);
    assert(seq![a, b, c].drop_last() =~= seq![a, b]);
    assert(seq![type_model(a), type_model(b)].push(type_model(c)) =~= seq![
        type_model(a),
        type_model(b),
        type_model(c),
    ]);
}

fn index_of_desc() -> (d: SMethodDesc)
    ensures
        desc_matches(d, INDEX_OF_METHOD_ID),
{
    let a = coll_t(STypeVar::t());
    let b = SType::STypeVar(STypeVar::t());
    let tpe = SFunc { t_dom: vec![a, b, SType::SInt], t_range: Box::new(SType::SInt), tpe_params: vec![] };
    proof {
        reveal_strlit("indexOf");
        lemma_types_model_3(a, b, SType::SInt);
        assert(tpe.tpe_params@.map_values(|p: STypeVar| p.id) =~= Seq::<u8>::empty());
    }
    SMethodDesc { method_id: INDEX_OF_METHOD_ID, name: "indexOf", tpe }
}

fn flatmap_desc() -> (d: SMethodDesc)
    ensures
        desc_matches(d, FLATMAP_METHOD_ID),
{
    let a = coll_t(STypeVar::iv());
    let f_range = coll_t(STypeVar::ov());
    let f_arg = SType::STypeVar(STypeVar::iv());
    let f = SType::SFunc(SFunc::new(vec![f_arg], f_range));
    let range = coll_t(STypeVar::ov());
    let tpe = SFunc::new(vec![a, f], range);
    proof {
        reveal_strlit("flatMap");
        reveal_with_fuel(type_model, 3);
        lemma_types_model_1(f_arg);
        lemma_types_model_2(a, f);
        assert(Seq::<STypeVar>::empty().map_values(|p: STypeVar| p.id) =~= Seq::<u8>::empty());
    }
    SMethodDesc { method_id: FLATMAP_METHOD_ID, name: "flatMap", tpe }
}

fn zip_desc() -> (d: SMethodDesc)
    ensures
        desc_matches(d, ZIP_METHOD_ID),
{
    let a = coll_t(STypeVar::t());
    let b = coll_t(STypeVar::iv());
    let x = SType::STypeVar(STypeVar::t());
    let y = SType::STypeVar(STypeVar::iv());
    let pair = SType::STuple(vec![x, y]);
    let range = SType::SColl(Box::new(pair));
    let tpe = SFunc::new(vec![a, b], range);
    proof {
        reveal_strlit("zip");
        reveal_with_fuel(type_model, 3);
        lemma_types_model_2(x, y);
        lemma_types_model_2(a, b);
        assert(Seq::<STypeVar>::empty().map_values(|p: STypeVar| p.id) =~= Seq::<u8>::empty());
    }
    SMethodDesc { method_id: ZIP_METHOD_ID, name: "zip", tpe }
}

fn indices_desc() -> (d: SMethodDesc)
    ensures
        desc_matches(d, INDICES_METHOD_ID),
{
    let a = coll_t(STypeVar::t());
    let range = SType::SColl(Box::new(SType::SInt));
    let tpe = SFunc::new(vec![a], range);
    proof {
        reveal_strlit("indices");
        reveal_with_fuel(type_model, 3);
        lemma_types_model_1(a);
        assert(Seq::<STypeVar>::empty().map_values(|p: STypeVar| p.id) =~= Seq::<u8>::empty());
    }
    SMethodDesc { method_id: INDICES_METHOD_ID, name: "indices", tpe }
}

/// The collection type's method table.
pub fn coll_companion() -> (c: STypeCompanion)
    ensures
        coll_table_wf(c),
{
    let methods = vec![index_of_desc(), flatmap_desc(), zip_desc(), indices_desc()];
    STypeCompanion { type_id: TYPE_ID, name: "Coll", methods }
}

/// Each id occurs at most once in the collection type's method table.
pub proof fn lemma_coll_ids_unique(c: STypeCompanion, i: int, j: int)
    requires
        coll_table_wf(c),
        0 <= i < c.methods@.len(),
        0 <= j < c.methods@.len(),
        c.methods@[i].method_id == c.methods@[j].method_id,
    ensures
        i == j,
{
    assert(desc_matches(c.methods@[i], coll_method_ids()[i]));
    assert(desc_matches(c.methods@[j], coll_method_ids()[j]));
}

impl STypeCompanion {
    /// Removes and returns the descriptor with the given id, if the table has one.
    pub fn take_method(self, method_id: MethodId) -> (r: Option<SMethodDesc>)
        ensures
            r is None <==> forall|i: int|
                0 <= i < self.methods@.len() ==> (#[trigger] self.methods@[i]).method_id != method_id,
            r is Some ==> exists|i: int|
                0 <= i < self.methods@.len() && self.methods@[i] == r->0
                    && (#[trigger] self.methods@[i]).method_id == method_id,
    {
        let ghost orig = self.methods@;
        let mut methods = self.methods;
        let mut k: usize = methods.len();
        while k > 0
            invariant
                methods@.len() == k,
                k <= orig.len(),
                orig == self.methods@,
                methods@ == orig.subrange(0, k as int),
                forall|i: int| k <= i < orig.len() ==> (#[trigger] orig[i]).method_id != method_id,
            decreases k,
        {
            let d = methods.pop().unwrap();
            k = k - 1;
            if d.method_id == method_id {
                assert(orig[k as int] == d);
                assert(orig[k as int].method_id == method_id);
                return Some(d);
            }
            assert(methods@ =~= orig.subrange(0, k as int));
        }
        None
    }
}

/// Whether the pair names a registered builtin method.
pub fn is_registered_exec(type_id: TypeCode, method_id: MethodId) -> (r: bool)
    ensures
        r == is_registered(type_id, method_id),
{
    let r = type_id == TYPE_ID && (method_id == INDEX_OF_METHOD_ID || method_id == FLATMAP_METHOD_ID
        || method_id == ZIP_METHOD_ID || method_id == INDICES_METHOD_ID);
    proof {
        if is_registered(type_id, method_id) {
            let i = choose|i: int| 0 <= i < coll_method_ids().len() && coll_method_ids()[i] == method_id;
        }
        if r {
            if method_id == INDEX_OF_METHOD_ID { assert(coll_method_ids()[0] == method_id); }
            if method_id == FLATMAP_METHOD_ID { assert(coll_method_ids()[1] == method_id); }
            if method_id == ZIP_METHOD_ID { assert(coll_method_ids()[2] == method_id); }
            if method_id == INDICES_METHOD_ID { assert(coll_method_ids()[3] == method_id); }
        }
    }
    r
}

impl SMethod {
    /// Resolves a (type code, method id) pair through the registry.
    pub fn from_ids(type_id: TypeCode, method_id: MethodId) -> (r: Result<SMethod, MethodLookupError>)
        ensures
            r is Ok <==> is_registered(type_id, method_id),
            r is Ok ==> r->Ok_0.obj_type == type_id && desc_matches(r->Ok_0.method_raw, method_id),
            r is Err ==> r == Err::<SMethod, MethodLookupError>(
                MethodLookupError::UnknownMethod { type_id, method_id },
            ),
    {
        let err = MethodLookupError::UnknownMethod { type_id, method_id };
        if type_id != TYPE_ID {
            return Err(err);
        }
        let c = coll_companion();
        let ghost table = c.methods@;
        match c.take_method(method_id) {
            Some(d) => {
                proof {
                    let i = choose|i: int|
                        0 <= i < table.len() && table[i] == d && (#[trigger] table[i]).method_id
                            == method_id;
                    assert(desc_matches(table[i], coll_method_ids()[i]));
                    assert(coll_method_ids()[i] == method_id);
                }
                Ok(SMethod { obj_type: type_id, method_raw: d })
            },
            None => {
                proof {
                    if coll_method_ids().contains(method_id) {
                        let i = choose|i: int|
                            0 <= i < coll_method_ids().len() && coll_method_ids()[i] == method_id;
                        assert(desc_matches(table[i], coll_method_ids()[i]));
                    }
                }
                Err(err)
            },
        }
    }

    /// The method's name.
    pub fn name(&self) -> (r: &'static str)
        ensures
            r == self.method_raw.name,
    {
        self.method_raw.name
    }

    /// The method's id within its type's table.
    pub fn method_id(&self) -> (r: MethodId)
        ensures
            r == self.method_raw.method_id,
    {
        self.method_raw.method_id
    }
}

} // verus!
