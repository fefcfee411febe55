//! Canonical binary encoding of types.
//!
//! A type is its code byte followed by its payload: the element type for a
//! collection or an option; a count byte and the items for a tuple; a count
//! byte, the domain types, the range type, a count byte and the parameter ids
//! for a function; the id byte for a type variable.
use vstd::prelude::*;
use crate::types::{
    SType, STypeVar, SFunc, TypeModel, type_model, types_model, BIGINT_CODE, BOOLEAN_CODE,
    BOX_CODE, BYTE_CODE, COLLECTION_CODE, FUNC_CODE, GROUP_ELEMENT_CODE, INT_CODE, LONG_CODE,
    OPTION_CODE, SHORT_CODE, SIGMA_PROP_CODE, TUPLE_CODE, TYPE_VAR_CODE, UNIT_CODE,
};

verus! {

/// Failures of decoding.
#[derive(Debug, PartialEq, Eq, Clone, Copy, Structural)]
pub enum DecodeError {
    /// The input ended inside a value.
    Truncated,
    /// A type code that no type has.
    UnknownTypeCode(u8),
    /// Bytes remain after a complete value.
    TrailingBytes,
    /// Bytes that no value of the expected type encodes to.
    InvalidValue,
    /// The expected type has no runtime values.
    UnsupportedType,
}

pub open spec fn is_primitive_code(c: u8) -> bool {
    c == BOOLEAN_CODE || c == BYTE_CODE || c == SHORT_CODE || c == INT_CODE || c == LONG_CODE
        || c == BIGINT_CODE || c == GROUP_ELEMENT_CODE || c == SIGMA_PROP_CODE || c == BOX_CODE
        || c == UNIT_CODE
}

pub open spec fn primitive_of(c: u8) -> TypeModel {
    if c == BOOLEAN_CODE {
        TypeModel::Boolean
    } else if c == BYTE_CODE {
        TypeModel::Byte
    } else if c == SHORT_CODE {
        TypeModel::Short
    } else if c == INT_CODE {
        TypeModel::Int
    } else if c == LONG_CODE {
        TypeModel::Long
    } else if c == BIGINT_CODE {
        TypeModel::BigInt
    } else if c == GROUP_ELEMENT_CODE {
        TypeModel::GroupElement
    } else if c == SIGMA_PROP_CODE {
        TypeModel::SigmaProp
    } else if c == BOX_CODE {
        TypeModel::Boxed
    } else {
        TypeModel::Unit
    }
}

/// Types that can be encoded: every count fits in one byte.
pub open spec fn type_wf(m: TypeModel) -> bool
    decreases m, 1int,
{
    match m {
        TypeModel::Coll(e) => type_wf(*e),
        TypeModel::Opt(e) => type_wf(*e),
        TypeModel::Tuple(items) => items.len() <= 255 && types_wf(items),
        TypeModel::Func(dom, range, params) => dom.len() <= 255 && types_wf(dom) && type_wf(*range)
            && params.len() <= 255,
        _ => true,
    }
}

pub open spec fn types_wf(ms: Seq<TypeModel>) -> bool
    decreases ms, 0int,
{
    ms.len() == 0 || (type_wf(ms[0]) && types_wf(ms.drop_first()))
}

/// The encoding of a type.
pub open spec fn enc(m: TypeModel) -> Seq<u8>
    decreases m, 1int,
{
    match m {
        TypeModel::Boolean => seq![BOOLEAN_CODE],
        TypeModel::Byte => seq![BYTE_CODE],
        TypeModel::Short => seq![SHORT_CODE],
        TypeModel::Int => seq![INT_CODE],
        TypeModel::Long => seq![LONG_CODE],
        TypeModel::BigInt => seq![BIGINT_CODE],
        TypeModel::GroupElement => seq![GROUP_ELEMENT_CODE],
        TypeModel::SigmaProp => seq![SIGMA_PROP_CODE],
        TypeModel::Boxed => seq![BOX_CODE],
        TypeModel::Unit => seq![UNIT_CODE],
        TypeModel::Coll(e) => seq![COLLECTION_CODE] + enc(*e),
        TypeModel::Opt(e) => seq![OPTION_CODE] + enc(*e),
        TypeModel::Tuple(items) => seq![TUPLE_CODE, items.len() as u8] + encs(items),
        TypeModel::Func(dom, range, params) => seq![FUNC_CODE, dom.len() as u8] + encs(dom) + enc(
            *range,
        ) + seq![params.len() as u8] + params,
        TypeModel::Var(id) => seq![TYPE_VAR_CODE, id],
    }
}

/// The encodings of a sequence of types, concatenated.
pub open spec fn encs(ms: Seq<TypeModel>) -> Seq<u8>
    decreases ms, 0int,
{
    if ms.len() == 0 {
        Seq::empty()
    } else {
        enc(ms[0]) + encs(ms.drop_first())
    }
}

/// Parses one type at `pos`; on success, the type and the position after it.
pub open spec fn parse_type(s: Seq<u8>, pos: int) -> Result<(TypeModel, int), DecodeError>
    decreases s.len() - pos, 0int,
{
    if pos < 0 || pos >= s.len() {
        Err(DecodeError::Truncated)
    } else {
        let c = s[pos];
        if is_primitive_code(c) {
            Ok((primitive_of(c), pos + 1))
        } else if c == COLLECTION_CODE || c == OPTION_CODE {
            match parse_type(s, pos + 1) {
                Ok((e, p)) => Ok(
                    (
                        if c == COLLECTION_CODE {
                            TypeModel::Coll(Box::new(e))
                        } else {
                            TypeModel::Opt(Box::new(e))
                        },
                        p,
                    ),
                ),
                Err(x) => Err(x),
            }
        } else if c == TYPE_VAR_CODE {
            if pos + 1 >= s.len() {
                Err(DecodeError::Truncated)
            } else {
                Ok((TypeModel::Var(s[pos + 1]), pos + 2))
            }
        } else if c == TUPLE_CODE {
            if pos + 1 >= s.len() {
                Err(DecodeError::Truncated)
            } else {
                match parse_types(s, pos + 2, s[pos + 1] as nat, Seq::empty()) {
                    Ok((ms, p)) => Ok((TypeModel::Tuple(ms), p)),
                    Err(x) => Err(x),
                }
            }
        } else if c == FUNC_CODE {
            if pos + 1 >= s.len() {
                Err(DecodeError::Truncated)
            } else {
                match parse_types(s, pos + 2, s[pos + 1] as nat, Seq::empty()) {
                    Err(x) => Err(x),
                    Ok((dom, p1)) => if !(pos < p1 <= s.len()) {
                        Err(DecodeError::Truncated)
                    } else {
                        match parse_type(s, p1) {
                            Err(x) => Err(x),
                            Ok((range, p2)) => if p2 < 0 || p2 >= s.len() {
                                Err(DecodeError::Truncated)
                            } else if p2 + 1 + s[p2] > s.len() {
                                Err(DecodeError::Truncated)
                            } else {
                                Ok(
                                    (
                                        TypeModel::Func(
                                            dom,
                                            Box::new(range),
                                            s.subrange(p2 + 1, p2 + 1 + s[p2]),
                                        ),
                                        p2 + 1 + s[p2],
                                    ),
                                )
                            },
                        }
                    },
                }
            }
        } else {
            Err(DecodeError::UnknownTypeCode(c))
        }
    }
}

/// Parses `n` types from `pos`, appending them to `acc`.
pub open spec fn parse_types(s: Seq<u8>, pos: int, n: nat, acc: Seq<TypeModel>) -> Result<
    (Seq<TypeModel>, int),
    DecodeError,
>
    decreases s.len() - pos, n + 1,
{
    if n == 0 {
        Ok((acc, pos))
    } else if pos < 0 || pos > s.len() {
        Err(DecodeError::Truncated)
    } else {
        match parse_type(s, pos) {
            Err(x) => Err(x),
            Ok((m, p)) => if pos < p <= s.len() {
                parse_types(s, p, (n - 1) as nat, acc.push(m))
            } else {
                Err(DecodeError::Truncated)
            },
        }
    }
}

/// Decoding of a whole byte sequence holding exactly one type.
pub open spec fn decode_spec(s: Seq<u8>) -> Result<TypeModel, DecodeError> {
    match parse_type(s, 0) {
        Ok((m, p)) => if p == s.len() {
            Ok(m)
        } else {
            Err(DecodeError::TrailingBytes)
        },
        Err(x) => Err(x),
    }
}

pub(crate) proof fn lemma_sub_split(s: Seq<u8>, pos: int, a: Seq<u8>, b: Seq<u8>)
    requires
        0 <= pos,
        pos + a.len() + b.len() <= s.len(),
        s.subrange(pos, pos + a.len() + b.len()) == a + b,
    ensures
        s.subrange(pos, pos + a.len()) == a,
        s.subrange(pos + a.len(), pos + a.len() + b.len()) == b,
{
    let whole = s.subrange(pos, pos + a.len() + b.len());
    assert forall|i: int| 0 <= i < a.len() implies s.subrange(pos, pos + a.len())[i] == a[i] by {
        assert(whole[i] == s[pos + i]);
        assert((a + b)[i] == a[i]);
    }
    assert forall|i: int| 0 <= i < b.len() implies s.subrange(
        pos + a.len(),
        pos + a.len() + b.len(),
    )[i] == b[i] by {
        assert(whole[a.len() + i] == s[pos + a.len() + i]);
        assert((a + b)[a.len() + i] == b[i]);
    }
    assert(s.subrange(pos, pos + a.len()) =~= a);
    assert(s.subrange(pos + a.len(), pos + a.len() + b.len()) =~= b);
}

proof fn lemma_enc_nonempty(m: TypeModel)
    ensures
        enc(m).len() >= 1,
{
}

/// Parsing the encoding of a well-formed type, wherever it stands in a
/// longer input, yields that type and the position right after it.
pub proof fn lemma_parse_enc(m: TypeModel, s: Seq<u8>, pos: int)
    requires
        type_wf(m),
        0 <= pos,
        pos + enc(m).len() <= s.len(),
        s.subrange(pos, pos + enc(m).len()) == enc(m),
    ensures
        parse_type(s, pos) == Ok::<(TypeModel, int), DecodeError>((m, pos + enc(m).len())),
    decreases m, 1int,
{
    let e = enc(m);
    assert(s[pos] == s.subrange(pos, pos + e.len())[0]);
    match m {
        TypeModel::Coll(inner) => {
            lemma_sub_split(s, pos, seq![COLLECTION_CODE], enc(*inner));
            lemma_parse_enc(*inner, s, pos + 1);
        },
        TypeModel::Opt(inner) => {
            lemma_sub_split(s, pos, seq![OPTION_CODE], enc(*inner));
            lemma_parse_enc(*inner, s, pos + 1);
        },
        TypeModel::Tuple(items) => {
            let h = seq![TUPLE_CODE, items.len() as u8];
            lemma_sub_split(s, pos, h, encs(items));
            assert(s[pos + 1] == s.subrange(pos, pos + 2)[1]);
            lemma_parse_encs(items, s, pos + 2, Seq::empty());
            assert(Seq::<TypeModel>::empty() + items =~= items);
        },
        TypeModel::Func(dom, range, params) => {
            let h = seq![FUNC_CODE, dom.len() as u8];
            let np = seq![params.len() as u8];
            let a = h + encs(dom);
            let b = a + enc(*range);
            let c = b + np;
            lemma_sub_split(s, pos, c, params);
            lemma_sub_split(s, pos, b, np);
            lemma_sub_split(s, pos, a, enc(*range));
            lemma_sub_split(s, pos, h, encs(dom));
            assert(s[pos + 1] == s.subrange(pos, pos + 2)[1]);
            lemma_parse_encs(dom, s, pos + 2, Seq::empty());
            assert(Seq::<TypeModel>::empty() + dom =~= dom);
            let p1 = pos + a.len();
            lemma_parse_enc(*range, s, p1);
            let p2 = pos + b.len();
            assert(s[p2] == s.subrange(p2, p2 + 1)[0]);
        },
        TypeModel::Var(id) => {
            assert(s[pos + 1] == s.subrange(pos, pos + e.len())[1]);
        },
        _ => {},
    }
}

/// Parsing the concatenated encodings of well-formed types yields those types.
pub proof fn lemma_parse_encs(ms: Seq<TypeModel>, s: Seq<u8>, pos: int, acc: Seq<TypeModel>)
    requires
        types_wf(ms),
        0 <= pos,
        pos + encs(ms).len() <= s.len(),
        s.subrange(pos, pos + encs(ms).len()) == encs(ms),
    ensures
        parse_types(s, pos, ms.len(), acc) == Ok::<(Seq<TypeModel>, int), DecodeError>(
            (acc + ms, pos + encs(ms).len()),
        ),
    decreases ms, 0int,
{
    if ms.len() == 0 {
        assert(acc + ms =~= acc);
    } else {
        lemma_sub_split(s, pos, enc(ms[0]), encs(ms.drop_first()));
        lemma_parse_enc(ms[0], s, pos);
        lemma_enc_nonempty(ms[0]);
        let p = pos + enc(ms[0]).len();
        lemma_parse_encs(ms.drop_first(), s, p, acc.push(ms[0]));
        assert(acc.push(ms[0]) + ms.drop_first() =~= acc + ms);
    }
}

/// Decoding the encoding of a well-formed type gives back that type.
pub proof fn lemma_type_round_trip(t: SType)
    requires
        type_wf(t@),
    ensures
        decode_spec(enc(t@)) == Ok::<TypeModel, DecodeError>(t@),
{
    let s = enc(t@);
    assert(s.subrange(0, s.len() as int) =~= s);
    lemma_parse_enc(t@, s, 0);
}

proof fn lemma_types_model_step(ts: Seq<SType>, i: int)
    requires
        0 <= i < ts.len(),
    ensures
        types_model(ts.subrange(0, i + 1)) == types_model(ts.subrange(0, i)).push(
            type_model(ts[i]),
        ),
{
    assert(ts.subrange(0, i + 1).drop_last() =~= ts.subrange(0, i));
}

proof fn lemma_types_wf_index(ms: Seq<TypeModel>, i: int)
    requires
        types_wf(ms),
        0 <= i < ms.len(),
    ensures
        type_wf(ms[i]),
    decreases ms.len(),
{
    if i > 0 {
        lemma_types_wf_index(ms.drop_first(), i - 1);
    }
}

proof fn lemma_encs_push(ms: Seq<TypeModel>, m: TypeModel)
    ensures
        encs(ms.push(m)) == encs(ms) + enc(m),
    decreases ms.len(),
{
    if ms.len() == 0 {
        assert(ms.push(m).drop_first() =~= Seq::<TypeModel>::empty());
        assert(ms.push(m)[0] == m);
        assert(encs(Seq::<TypeModel>::empty()) == Seq::<u8>::empty());
        assert(encs(ms.push(m)) =~= enc(m));
        assert(encs(ms) + enc(m) =~= enc(m));
    } else {
        assert(ms.push(m).drop_first() =~= ms.drop_first().push(m));
        assert(ms.push(m)[0] == ms[0]);
        lemma_encs_push(ms.drop_first(), m);
        assert(encs(ms.push(m)) =~= encs(ms) + enc(m));
    }
}

fn encode_into(t: &SType, out: &mut Vec<u8>)
    requires
        type_wf(t@),
    ensures
        final(out)@ == old(out)@ + enc(t@),
    decreases t, 1int,
{
    let ghost base = out@;
    match t {
        SType::SBoolean => out.push(BOOLEAN_CODE),
        SType::SByte => out.push(BYTE_CODE),
        SType::SShort => out.push(SHORT_CODE),
        SType::SInt => out.push(INT_CODE),
        SType::SLong => out.push(LONG_CODE),
        SType::SBigInt => out.push(BIGINT_CODE),
        SType::SGroupElement => out.push(GROUP_ELEMENT_CODE),
        SType::SSigmaProp => out.push(SIGMA_PROP_CODE),
        SType::SBox => out.push(BOX_CODE),
        SType::SUnit => out.push(UNIT_CODE),
        SType::SColl(e) => {
            out.push(COLLECTION_CODE);
            encode_into(e, out);
        },
        SType::SOption(e) => {
            out.push(OPTION_CODE);
            encode_into(e, out);
        },
        SType::STuple(items) => {
            proof {
                crate::types::lemma_types_model_len(items@);
            }
            out.push(TUPLE_CODE);
            out.push(items.len() as u8);
            encode_list_into(items, out);
        },
        SType::SFunc(f) => {
            proof {
                crate::types::lemma_types_model_len(f.t_dom@);
            }
            out.push(FUNC_CODE);
            out.push(f.t_dom.len() as u8);
            encode_list_into(&f.t_dom, out);
            encode_into(&f.t_range, out);
            out.push(f.tpe_params.len() as u8);
            let ghost mid = out@;
            let ghost ids = f.tpe_params@.map_values(|p: STypeVar| p.id);
            let mut i: usize = 0;
            while i < f.tpe_params.len()
                invariant
                    i <= f.tpe_params@.len(),
                    ids == f.tpe_params@.map_values(|p: STypeVar| p.id),
                    out@ == mid + ids.subrange(0, i as int),
                decreases f.tpe_params@.len() - i,
            {
                out.push(f.tpe_params[i].id);
                assert(mid + ids.subrange(0, i + 1) =~= (mid + ids.subrange(0, i as int)).push(
                    ids[i as int],
                ));
                i = i + 1;
            }
            assert(ids.subrange(0, i as int) =~= ids);
        },
        SType::STypeVar(v) => {
            out.push(TYPE_VAR_CODE);
            out.push(v.id);
        },
    }
    assert(out@ =~= base + enc(t@));
}

fn encode_list_into(ts: &Vec<SType>, out: &mut Vec<u8>)
    requires
        types_wf(types_model(ts@)),
    ensures
        final(out)@ == old(out)@ + encs(types_model(ts@)),
    decreases ts@, 0int,
{
    let ghost base = out@;
    proof {
        crate::types::lemma_types_model_len(ts@);
        assert(ts@.subrange(0, 0) =~= Seq::<SType>::empty());
        assert(base + encs(Seq::<TypeModel>::empty()) =~= base);
    }
    let mut i: usize = 0;
    while i < ts.len()
        invariant
            i <= ts@.len(),
            types_wf(types_model(ts@)),
            types_model(ts@).len() == ts@.len(),
            forall|j: int| 0 <= j < ts@.len() ==> #[trigger] types_model(ts@)[j] == type_model(ts@[j]),
            out@ == base + encs(types_model(ts@.subrange(0, i as int))),
        decreases ts@.len() - i,
    {
        proof {
            assert(decreases_to!(ts@ => ts@[i as int]));
            lemma_types_wf_index(types_model(ts@), i as int);
            lemma_types_model_step(ts@, i as int);
            lemma_encs_push(types_model(ts@.subrange(0, i as int)), type_model(ts@[i as int]));
        }
        encode_into(&ts[i], out);
        i = i + 1;
    }
    assert(ts@.subrange(0, i as int) =~= ts@);
}

/// The canonical encoding of a type.
pub fn encode_type(t: &SType) -> (r: Vec<u8>)
    requires
        type_wf(t@),
    ensures
        r@ == enc(t@),
{
    let mut out: Vec<u8> = Vec::new();
    encode_into(t, &mut out);
    assert(out@ =~= enc(t@));
    out
}

fn primitive_exec(c: u8) -> (r: SType)
    requires
        is_primitive_code(c),
    ensures
        r@ == primitive_of(c),
{
    if c == BOOLEAN_CODE {
        SType::SBoolean
    } else if c == BYTE_CODE {
        SType::SByte
    } else if c == SHORT_CODE {
        SType::SShort
    } else if c == INT_CODE {
        SType::SInt
    } else if c == LONG_CODE {
        SType::SLong
    } else if c == BIGINT_CODE {
        SType::SBigInt
    } else if c == GROUP_ELEMENT_CODE {
        SType::SGroupElement
    } else if c == SIGMA_PROP_CODE {
        SType::SSigmaProp
    } else if c == BOX_CODE {
        SType::SBox
    } else {
        SType::SUnit
    }
}

/// The decoded type and the position after it agree with `parse_type`.
pub open spec fn decoded_as(
    r: Result<(SType, usize), DecodeError>,
    spec_r: Result<(TypeModel, int), DecodeError>,
) -> bool {
    match spec_r {
        Ok((m, p)) => r is Ok && r->Ok_0.0@ == m && r->Ok_0.1 as int == p,
        Err(x) => r == Err::<(SType, usize), DecodeError>(x),
    }
}

/// Decodes one type at `pos`.
pub fn decode_type_at(bytes: &Vec<u8>, pos: usize) -> (r: Result<(SType, usize), DecodeError>)
    ensures
        decoded_as(r, parse_type(bytes@, pos as int)),
    decreases bytes@.len() - pos, 0int,
{
    let ghost s = bytes@;
    if pos >= bytes.len() {
        return Err(DecodeError::Truncated);
    }
    let c = bytes[pos];
    if c == BOOLEAN_CODE || c == BYTE_CODE || c == SHORT_CODE || c == INT_CODE || c == LONG_CODE
        || c == BIGINT_CODE || c == GROUP_ELEMENT_CODE || c == SIGMA_PROP_CODE || c == BOX_CODE
        || c == UNIT_CODE {
        Ok((primitive_exec(c), pos + 1))
    } else if c == COLLECTION_CODE || c == OPTION_CODE {
        match decode_type_at(bytes, pos + 1) {
            Ok((e, p)) => {
                let t = if c == COLLECTION_CODE {
                    SType::SColl(Box::new(e))
                } else {
                    SType::SOption(Box::new(e))
                };
                Ok((t, p))
            },
            Err(x) => Err(x),
        }
    } else if c == TYPE_VAR_CODE {
        if pos + 1 >= bytes.len() {
            Err(DecodeError::Truncated)
        } else {
            Ok((SType::STypeVar(STypeVar { id: bytes[pos + 1] }), pos + 2))
        }
    } else if c == TUPLE_CODE {
        if pos + 1 >= bytes.len() {
            Err(DecodeError::Truncated)
        } else {
            match decode_types_at(bytes, pos + 2, bytes[pos + 1]) {
                Ok((items, p)) => Ok((SType::STuple(items), p)),
                Err(x) => Err(x),
            }
        }
    } else if c == FUNC_CODE {
        if pos + 1 >= bytes.len() {
            return Err(DecodeError::Truncated);
        }
        let (dom, p1) = match decode_types_at(bytes, pos + 2, bytes[pos + 1]) {
            Ok(x) => x,
            Err(x) => return Err(x),
        };
        if !(pos < p1 && p1 <= bytes.len()) {
            return Err(DecodeError::Truncated);
        }
        let (range, p2) = match decode_type_at(bytes, p1) {
            Ok(x) => x,
            Err(x) => return Err(x),
        };
        if p2 >= bytes.len() {
            return Err(DecodeError::Truncated);
        }
        let np = bytes[p2] as usize;
        if np > bytes.len() - (p2 + 1) {
            return Err(DecodeError::Truncated);
        }
        let start = p2 + 1;
        let mut params: Vec<STypeVar> = Vec::new();
        let mut i: usize = 0;
        while i < np
            invariant
                i <= np,
                s == bytes@,
                start + np <= bytes.len(),
                params@.map_values(|p: STypeVar| p.id) == s.subrange(
                    start as int,
                    start + i,
                ),
            decreases np - i,
        {
            let v = STypeVar { id: bytes[start + i] };
            assert(params@.push(v).map_values(|p: STypeVar| p.id) =~= params@.map_values(
                |p: STypeVar| p.id,
            ).push(v.id));
            assert(s.subrange(start as int, start + i + 1) =~= s.subrange(
                start as int,
                start + i,
            ).push(s[start + i]));
            params.push(v);
            i = i + 1;
        }
        let f = SFunc { t_dom: dom, t_range: Box::new(range), tpe_params: params };
        Ok((SType::SFunc(f), start + np))
    } else {
        Err(DecodeError::UnknownTypeCode(c))
    }
}

/// Decodes `n` types from `pos`, in order.
pub fn decode_types_at(bytes: &Vec<u8>, pos: usize, n: u8) -> (r: Result<(Vec<SType>, usize), DecodeError>)
    ensures
        match parse_types(bytes@, pos as int, n as nat, Seq::empty()) {
            Ok((ms, p)) => r is Ok && types_model(r->Ok_0.0@) == ms && r->Ok_0.1 as int == p,
            Err(x) => r == Err::<(Vec<SType>, usize), DecodeError>(x),
        },
    decreases bytes@.len() - pos, 1int,
{
    let ghost s = bytes@;
    let mut out: Vec<SType> = Vec::new();
    let mut cur: usize = pos;
    let mut k: u8 = 0;
    assert(types_model(Seq::<SType>::empty()) =~= Seq::<TypeModel>::empty());
    while k < n
        invariant
            k <= n,
            s == bytes@,
            pos <= cur,
            k > 0 ==> cur <= s.len(),
            parse_types(s, pos as int, n as nat, Seq::empty()) == parse_types(
                s,
                cur as int,
                (n - k) as nat,
                types_model(out@),
            ),
        decreases n - k,
    {
        if cur > bytes.len() {
            return Err(DecodeError::Truncated);
        }
        match decode_type_at(bytes, cur) {
            Err(x) => {
                return Err(x);
            },
            Ok((t, p)) => {
                if !(cur < p && p <= bytes.len()) {
                    return Err(DecodeError::Truncated);
                }
                proof {
                    assert(out@.push(t).drop_last() =~= out@);
                }
                out.push(t);
                cur = p;
            },
        }
        k = k + 1;
    }
    Ok((out, cur))
}

/// Decodes a byte sequence holding exactly one type.
pub fn decode_type(bytes: &Vec<u8>) -> (r: Result<SType, DecodeError>)
    ensures
        match decode_spec(bytes@) {
            Ok(m) => r is Ok && r->Ok_0@ == m,
            Err(x) => r == Err::<SType, DecodeError>(x),
        },
{
    match decode_type_at(bytes, 0) {
        Ok((t, p)) => if p == bytes.len() {
            Ok(t)
        } else {
            Err(DecodeError::TrailingBytes)
        },
        Err(x) => Err(x),
    }
}

} // verus!
