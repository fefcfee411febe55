//! Canonical binary encoding of runtime values, read back by their type.
//!
//! Booleans, propositions and unit take one byte; every integer kind takes
//! eight big-endian bytes of its value widened to 64 bits; a box reference
//! takes eight bytes; a collection takes an eight-byte count and its items; a
//! tuple takes a count byte and its items; an option takes a flag byte and,
//! when present, its value.
use vstd::prelude::*;
use crate::codec::{DecodeError, lemma_sub_split};
use crate::types::{SType, TypeModel, type_model, types_model};
use crate::value::{Value, ValueModel, lemma_values_model, lemma_values_model_push, value_model, values_model};

verus! {

/// Values of type `t`; collections count below 2^32 and tuples below 256.
pub open spec fn has_type(v: ValueModel, t: TypeModel) -> bool
    decreases v, 1int,
{
    match (v, t) {
        (ValueModel::Boolean(_), TypeModel::Boolean) => true,
        (ValueModel::Byte(_), TypeModel::Byte) => true,
        (ValueModel::Short(_), TypeModel::Short) => true,
        (ValueModel::Int(_), TypeModel::Int) => true,
        (ValueModel::Long(_), TypeModel::Long) => true,
        (ValueModel::SigmaProp(_), TypeModel::SigmaProp) => true,
        (ValueModel::CBox(_), TypeModel::Boxed) => true,
        (ValueModel::Unit, TypeModel::Unit) => true,
        (ValueModel::Coll(items), TypeModel::Coll(e)) => items.len() <= u32::MAX && all_have_type(
            items,
            *e,
        ),
        (ValueModel::Tup(items), TypeModel::Tuple(ts)) => items.len() == ts.len() && items.len()
            <= 255 && each_has_type(items, ts),
        (ValueModel::NoneV, TypeModel::Opt(_)) => true,
        (ValueModel::SomeV(b), TypeModel::Opt(e)) => has_type(*b, *e),
        _ => false,
    }
}

pub open spec fn all_have_type(items: Seq<ValueModel>, e: TypeModel) -> bool
    decreases items, 0int,
{
    items.len() == 0 || (has_type(items[0], e) && all_have_type(items.drop_first(), e))
}

pub open spec fn each_has_type(items: Seq<ValueModel>, ts: Seq<TypeModel>) -> bool
    decreases items, 0int,
{
    items.len() == 0 || (ts.len() > 0 && has_type(items[0], ts[0]) && each_has_type(
        items.drop_first(),
        ts.drop_first(),
    ))
}

/// Eight big-endian bytes.
pub open spec fn u64_bytes(x: u64) -> Seq<u8> {
    seq![
        (x >> 56u64) as u8,
        (x >> 48u64) as u8,
        (x >> 40u64) as u8,
        (x >> 32u64) as u8,
        (x >> 24u64) as u8,
        (x >> 16u64) as u8,
        (x >> 8u64) as u8,
        x as u8,
    ]
}

/// The integer held by eight big-endian bytes at `pos`.
pub open spec fn u64_at(s: Seq<u8>, pos: int) -> u64 {
    ((s[pos] as u64) << 56u64) | ((s[pos + 1] as u64) << 48u64) | ((s[pos + 2] as u64) << 40u64)
        | ((s[pos + 3] as u64) << 32u64) | ((s[pos + 4] as u64) << 24u64) | ((s[pos + 5] as u64)
        << 16u64) | ((s[pos + 6] as u64) << 8u64) | (s[pos + 7] as u64)
}

pub open spec fn int_bytes(x: i64) -> Seq<u8> {
    u64_bytes(x as u64)
}

pub open spec fn flag(b: bool) -> u8 {
    if b {
        1
    } else {
        0
    }
}

/// The encoding of a value.
pub open spec fn enc_value(v: ValueModel) -> Seq<u8>
    decreases v, 1int,
{
    match v {
        ValueModel::Boolean(b) => seq![flag(b)],
        ValueModel::Byte(x) => int_bytes(x as i64),
        ValueModel::Short(x) => int_bytes(x as i64),
        ValueModel::Int(x) => int_bytes(x as i64),
        ValueModel::Long(x) => int_bytes(x),
        ValueModel::SigmaProp(b) => seq![flag(b)],
        ValueModel::CBox(h) => u64_bytes(h),
        ValueModel::Unit => seq![0u8],
        ValueModel::Coll(items) => u64_bytes(items.len() as u64) + enc_values(items),
        ValueModel::Tup(items) => seq![items.len() as u8] + enc_values(items),
        ValueModel::NoneV => seq![0u8],
        ValueModel::SomeV(b) => seq![1u8] + enc_value(*b),
    }
}

pub open spec fn enc_values(items: Seq<ValueModel>) -> Seq<u8>
    decreases items, 0int,
{
    if items.len() == 0 {
        Seq::empty()
    } else {
        enc_value(items[0]) + enc_values(items.drop_first())
    }
}

pub open spec fn flag_value(c: u8, is_prop: bool) -> Result<ValueModel, DecodeError> {
    if c > 1 {
        Err(DecodeError::InvalidValue)
    } else if is_prop {
        Ok(ValueModel::SigmaProp(c == 1))
    } else {
        Ok(ValueModel::Boolean(c == 1))
    }
}

/// The integer kind of `t` holding `y`, if it fits.
pub open spec fn int_value(y: i64, t: TypeModel) -> Result<ValueModel, DecodeError> {
    match t {
        TypeModel::Byte => if i8::MIN <= y <= i8::MAX {
            Ok(ValueModel::Byte(y as i8))
        } else {
            Err(DecodeError::InvalidValue)
        },
        TypeModel::Short => if i16::MIN <= y <= i16::MAX {
            Ok(ValueModel::Short(y as i16))
        } else {
            Err(DecodeError::InvalidValue)
        },
        TypeModel::Int => if i32::MIN <= y <= i32::MAX {
            Ok(ValueModel::Int(y as i32))
        } else {
            Err(DecodeError::InvalidValue)
        },
        _ => Ok(ValueModel::Long(y)),
    }
}

/// Parses one value of type `t` at `pos`.
pub open spec fn parse_value(s: Seq<u8>, pos: int, t: TypeModel) -> Result<
    (ValueModel, int),
    DecodeError,
>
    decreases t, 0int,
{
    if pos < 0 || pos >= s.len() {
        Err(DecodeError::Truncated)
    } else {
        match t {
            TypeModel::Boolean | TypeModel::SigmaProp => match flag_value(
                s[pos],
                t is SigmaProp,
            ) {
                Ok(v) => Ok((v, pos + 1)),
                Err(x) => Err(x),
            },
            TypeModel::Unit => if s[pos] == 0 {
                Ok((ValueModel::Unit, pos + 1))
            } else {
                Err(DecodeError::InvalidValue)
            },
            TypeModel::Byte | TypeModel::Short | TypeModel::Int | TypeModel::Long => if pos + 8
                > s.len() {
                Err(DecodeError::Truncated)
            } else {
                match int_value(u64_at(s, pos) as i64, t) {
                    Ok(v) => Ok((v, pos + 8)),
                    Err(x) => Err(x),
                }
            },
            TypeModel::Boxed => if pos + 8 > s.len() {
                Err(DecodeError::Truncated)
            } else {
                Ok((ValueModel::CBox(u64_at(s, pos)), pos + 8))
            },
            TypeModel::Coll(e) => if pos + 8 > s.len() {
                Err(DecodeError::Truncated)
            } else if u64_at(s, pos) > s.len() - (pos + 8) {
                Err(DecodeError::Truncated)
            } else {
                match parse_values(s, pos + 8, u64_at(s, pos) as nat, *e, Seq::empty()) {
                    Ok((ms, p)) => Ok((ValueModel::Coll(ms), p)),
                    Err(x) => Err(x),
                }
            },
            TypeModel::Tuple(ts) => if s[pos] != ts.len() {
                Err(DecodeError::InvalidValue)
            } else {
                match parse_tuple(s, pos + 1, ts, Seq::empty()) {
                    Ok((ms, p)) => Ok((ValueModel::Tup(ms), p)),
                    Err(x) => Err(x),
                }
            },
            TypeModel::Opt(e) => if s[pos] == 0 {
                Ok((ValueModel::NoneV, pos + 1))
            } else if s[pos] == 1 {
                match parse_value(s, pos + 1, *e) {
                    Ok((v, p)) => Ok((ValueModel::SomeV(Box::new(v)), p)),
                    Err(x) => Err(x),
                }
            } else {
                Err(DecodeError::InvalidValue)
            },
            _ => Err(DecodeError::UnsupportedType),
        }
    }
}

/// Parses `n` values of type `e` from `pos`, appending them to `acc`.
pub open spec fn parse_values(
    s: Seq<u8>,
    pos: int,
    n: nat,
    e: TypeModel,
    acc: Seq<ValueModel>,
) -> Result<(Seq<ValueModel>, int), DecodeError>
    decreases e, n + 1,
{
    if n == 0 {
        Ok((acc, pos))
    } else {
        match parse_value(s, pos, e) {
            Ok((v, p)) => parse_values(s, p, (n - 1) as nat, e, acc.push(v)),
            Err(x) => Err(x),
        }
    }
}

/// Parses one value of each type of `ts`, in order, appending them to `acc`.
pub open spec fn parse_tuple(s: Seq<u8>, pos: int, ts: Seq<TypeModel>, acc: Seq<ValueModel>) -> Result<
    (Seq<ValueModel>, int),
    DecodeError,
>
    decreases ts, 1int,
{
    if ts.len() == 0 {
        Ok((acc, pos))
    } else {
        match parse_value(s, pos, ts[0]) {
            Ok((v, p)) => parse_tuple(s, p, ts.drop_first(), acc.push(v)),
            Err(x) => Err(x),
        }
    }
}

/// Decoding of a whole byte sequence holding exactly one value of type `t`.
pub open spec fn decode_value_spec(s: Seq<u8>, t: TypeModel) -> Result<ValueModel, DecodeError> {
    match parse_value(s, 0, t) {
        Ok((v, p)) => if p == s.len() {
            Ok(v)
        } else {
            Err(DecodeError::TrailingBytes)
        },
        Err(x) => Err(x),
    }
}

proof fn lemma_u64_round_trip(x: u64, s: Seq<u8>, pos: int)
    requires
        0 <= pos,
        pos + 8 <= s.len(),
        s.subrange(pos, pos + 8) == u64_bytes(x),
    ensures
        u64_at(s, pos) == x,
{
    let w = s.subrange(pos, pos + 8);
    assert(s[pos] == w[0]);
    assert(s[pos + 1] == w[1]);
    assert(s[pos + 2] == w[2]);
    assert(s[pos + 3] == w[3]);
    assert(s[pos + 4] == w[4]);
    assert(s[pos + 5] == w[5]);
    assert(s[pos + 6] == w[6]);
    assert(s[pos + 7] == w[7]);
    assert(((((x >> 56u64) as u8) as u64) << 56u64) | ((((x >> 48u64) as u8) as u64) << 48u64)
        | ((((x >> 40u64) as u8) as u64) << 40u64) | ((((x >> 32u64) as u8) as u64) << 32u64)
        | ((((x >> 24u64) as u8) as u64) << 24u64) | ((((x >> 16u64) as u8) as u64) << 16u64)
        | ((((x >> 8u64) as u8) as u64) << 8u64) | ((x as u8) as u64) == x) by (bit_vector);
}

proof fn lemma_i64_cast(y: i64)
    ensures
        ((y as u64) as i64) == y,
{
    assert(((y as u64) as i64) == y) by (bit_vector);
}

proof fn lemma_enc_value_nonempty(v: ValueModel)
    ensures
        enc_value(v).len() >= 1,
{
}

proof fn lemma_enc_values_len(items: Seq<ValueModel>)
    ensures
        enc_values(items).len() >= items.len(),
    decreases items.len(),
{
    if items.len() > 0 {
        lemma_enc_value_nonempty(items[0]);
        lemma_enc_values_len(items.drop_first());
    }
}

/// Parsing the encoding of a value of type `t`, wherever it stands in a
/// longer input, yields that value and the position right after it.
pub proof fn lemma_parse_enc_value(v: ValueModel, t: TypeModel, s: Seq<u8>, pos: int)
    requires
        has_type(v, t),
        0 <= pos,
        pos + enc_value(v).len() <= s.len(),
        s.subrange(pos, pos + enc_value(v).len()) == enc_value(v),
    ensures
        parse_value(s, pos, t) == Ok::<(ValueModel, int), DecodeError>(
            (v, pos + enc_value(v).len()),
        ),
    decreases v, 1int,
{
    let e = enc_value(v);
    assert(s[pos] == s.subrange(pos, pos + e.len())[0]);
    match v {
        ValueModel::Byte(x) => {
            lemma_u64_round_trip((x as i64) as u64, s, pos);
            lemma_i64_cast(x as i64);
        },
        ValueModel::Short(x) => {
            lemma_u64_round_trip((x as i64) as u64, s, pos);
            lemma_i64_cast(x as i64);
        },
        ValueModel::Int(x) => {
            lemma_u64_round_trip((x as i64) as u64, s, pos);
            lemma_i64_cast(x as i64);
        },
        ValueModel::Long(x) => {
            lemma_u64_round_trip(x as u64, s, pos);
            lemma_i64_cast(x);
        },
        ValueModel::CBox(h) => {
            lemma_u64_round_trip(h, s, pos);
        },
        ValueModel::Coll(items) => {
            let elem = t->Coll_0;
            lemma_sub_split(s, pos, u64_bytes(items.len() as u64), enc_values(items));
            lemma_u64_round_trip(items.len() as u64, s, pos);
            lemma_enc_values_len(items);
            lemma_parse_enc_values(items, *elem, s, pos + 8, Seq::empty());
            assert(Seq::<ValueModel>::empty() + items =~= items);
        },
        ValueModel::Tup(items) => {
            let ts = t->Tuple_0;
            lemma_sub_split(s, pos, seq![items.len() as u8], enc_values(items));
            lemma_parse_enc_tuple(items, ts, s, pos + 1, Seq::empty());
            assert(Seq::<ValueModel>::empty() + items =~= items);
        },
        ValueModel::SomeV(b) => {
            lemma_sub_split(s, pos, seq![1u8], enc_value(*b));
            lemma_parse_enc_value(*b, *t->Opt_0, s, pos + 1);
        },
        _ => {},
    }
}

pub proof fn lemma_parse_enc_values(
    items: Seq<ValueModel>,
    e: TypeModel,
    s: Seq<u8>,
    pos: int,
    acc: Seq<ValueModel>,
)
    requires
        all_have_type(items, e),
        0 <= pos,
        pos + enc_values(items).len() <= s.len(),
        s.subrange(pos, pos + enc_values(items).len()) == enc_values(items),
    ensures
        parse_values(s, pos, items.len(), e, acc) == Ok::<(Seq<ValueModel>, int), DecodeError>(
            (acc + items, pos + enc_values(items).len()),
        ),
    decreases items, 0int,
{
    if items.len() == 0 {
        assert(acc + items =~= acc);
    } else {
        lemma_sub_split(s, pos, enc_value(items[0]), enc_values(items.drop_first()));
        lemma_parse_enc_value(items[0], e, s, pos);
        lemma_parse_enc_values(
            items.drop_first(),
            e,
            s,
            pos + enc_value(items[0]).len(),
            acc.push(items[0]),
        );
        assert(acc.push(items[0]) + items.drop_first() =~= acc + items);
    }
}

pub proof fn lemma_parse_enc_tuple(
    items: Seq<ValueModel>,
    ts: Seq<TypeModel>,
    s: Seq<u8>,
    pos: int,
    acc: Seq<ValueModel>,
)
    requires
        items.len() == ts.len(),
        each_has_type(items, ts),
        0 <= pos,
        pos + enc_values(items).len() <= s.len(),
        s.subrange(pos, pos + enc_values(items).len()) == enc_values(items),
    ensures
        parse_tuple(s, pos, ts, acc) == Ok::<(Seq<ValueModel>, int), DecodeError>(
            (acc + items, pos + enc_values(items).len()),
        ),
    decreases items, 0int,
{
    if items.len() == 0 {
        assert(acc + items =~= acc);
    } else {
        lemma_sub_split(s, pos, enc_value(items[0]), enc_values(items.drop_first()));
        lemma_parse_enc_value(items[0], ts[0], s, pos);
        lemma_parse_enc_tuple(
            items.drop_first(),
            ts.drop_first(),
            s,
            pos + enc_value(items[0]).len(),
            acc.push(items[0]),
        );
        assert(acc.push(items[0]) + items.drop_first() =~= acc + items);
    }
}

/// Decoding the encoding of a value of type `t`, read as type `t`, gives
/// back that value.
pub proof fn lemma_value_round_trip(v: Value, t: SType)
    requires
        has_type(v@, t@),
    ensures
        decode_value_spec(enc_value(v@), t@) == Ok::<ValueModel, DecodeError>(v@),
{
    let s = enc_value(v@);
    assert(s.subrange(0, s.len() as int) =~= s);
    lemma_parse_enc_value(v@, t@, s, 0);
}

proof fn lemma_enc_values_push(ms: Seq<ValueModel>, m: ValueModel)
    ensures
        enc_values(ms.push(m)) == enc_values(ms) + enc_value(m),
    decreases ms.len(),
{
    if ms.len() == 0 {
        assert(ms.push(m).drop_first() =~= Seq::<ValueModel>::empty());
        assert(ms.push(m)[0] == m);
        assert(enc_values(Seq::<ValueModel>::empty()) == Seq::<u8>::empty());
        assert(enc_values(ms.push(m)) =~= enc_value(m));
        assert(enc_values(ms) + enc_value(m) =~= enc_value(m));
    } else {
        assert(ms.push(m).drop_first() =~= ms.drop_first().push(m));
        assert(ms.push(m)[0] == ms[0]);
        lemma_enc_values_push(ms.drop_first(), m);
        assert(enc_values(ms.push(m)) =~= enc_values(ms) + enc_value(m));
    }
}

fn push_u64(out: &mut Vec<u8>, x: u64)
    ensures
        final(out)@ == old(out)@ + u64_bytes(x),
{
    out.push((x >> 56u64) as u8);
    out.push((x >> 48u64) as u8);
    out.push((x >> 40u64) as u8);
    out.push((x >> 32u64) as u8);
    out.push((x >> 24u64) as u8);
    out.push((x >> 16u64) as u8);
    out.push((x >> 8u64) as u8);
    out.push(x as u8);
    assert(final(out)@ =~= old(out)@ + u64_bytes(x));
}

fn read_u64(bytes: &Vec<u8>, pos: usize) -> (r: u64)
    requires
        pos + 8 <= bytes.len(),
    ensures
        r == u64_at(bytes@, pos as int),
{
    let r = ((bytes[pos] as u64) << 56u64) | ((bytes[pos + 1] as u64) << 48u64) | ((bytes[pos + 2] as u64)
        << 40u64) | ((bytes[pos + 3] as u64) << 32u64) | ((bytes[pos + 4] as u64) << 24u64) | ((
    bytes[pos + 5] as u64) << 16u64) | ((bytes[pos + 6] as u64) << 8u64) | (bytes[pos + 7] as u64);
    r
}

fn encode_value_into(v: &Value, out: &mut Vec<u8>)
    ensures
        final(out)@ == old(out)@ + enc_value(v@),
    decreases v, 1int,
{
    let ghost base = out@;
    match v {
        Value::Boolean(b) => out.push(if *b { 1 } else { 0 }),
        Value::SigmaProp(b) => out.push(if *b { 1 } else { 0 }),
        Value::Byte(x) => push_u64(out, (*x as i64) as u64),
        Value::Short(x) => push_u64(out, (*x as i64) as u64),
        Value::Int(x) => push_u64(out, (*x as i64) as u64),
        Value::Long(x) => push_u64(out, *x as u64),
        Value::CBox(h) => push_u64(out, *h),
        Value::Unit => out.push(0),
        Value::Coll(items) => {
            proof {
                lemma_values_model(items@);
            }
            push_u64(out, items.len() as u64);
            encode_values_into(items, out);
        },
        Value::Tup(items) => {
            proof {
                lemma_values_model(items@);
            }
            out.push(items.len() as u8);
            encode_values_into(items, out);
        },
        Value::Opt(o) => match o {
            None => out.push(0),
            Some(b) => {
                out.push(1);
                encode_value_into(b, out);
            },
        },
    }
    assert(out@ =~= base + enc_value(v@));
}

fn encode_values_into(vs: &Vec<Value>, out: &mut Vec<u8>)
    ensures
        final(out)@ == old(out)@ + enc_values(values_model(vs@)),
    decreases vs@, 0int,
{
    let ghost base = out@;
    proof {
        assert(vs@.subrange(0, 0) =~= Seq::<Value>::empty());
        assert(base + enc_values(Seq::<ValueModel>::empty()) =~= base);
    }
    let mut i: usize = 0;
    while i < vs.len()
        invariant
            i <= vs@.len(),
            out@ == base + enc_values(values_model(vs@.subrange(0, i as int))),
        decreases vs@.len() - i,
    {
        proof {
            assert(decreases_to!(vs@ => vs@[i as int]));
            assert(vs@.subrange(0, i + 1) =~= vs@.subrange(0, i as int).push(vs@[i as int]));
            lemma_values_model_push(vs@.subrange(0, i as int), vs@[i as int]);
            lemma_enc_values_push(values_model(vs@.subrange(0, i as int)), value_model(vs@[i as int]));
        }
        encode_value_into(&vs[i], out);
        i = i + 1;
    }
    assert(vs@.subrange(0, i as int) =~= vs@);
}

/// The canonical encoding of a value.
pub fn encode_value(v: &Value) -> (r: Vec<u8>)
    ensures
        r@ == enc_value(v@),
{
    let mut out: Vec<u8> = Vec::new();
    encode_value_into(v, &mut out);
    assert(out@ =~= enc_value(v@));
    out
}

/// The decoded value and the position after it agree with `parse_value`.
pub open spec fn value_decoded_as(
    r: Result<(Value, usize), DecodeError>,
    spec_r: Result<(ValueModel, int), DecodeError>,
) -> bool {
    match spec_r {
        Ok((m, p)) => r is Ok && r->Ok_0.0@ == m && r->Ok_0.1 as int == p,
        Err(x) => r == Err::<(Value, usize), DecodeError>(x),
    }
}

/// Decodes one value of type `t` at `pos`.
pub fn decode_value_at(bytes: &Vec<u8>, pos: usize, t: &SType) -> (r: Result<(Value, usize), DecodeError>)
    ensures
        value_decoded_as(r, parse_value(bytes@, pos as int, t@)),
    decreases t, 0int,
{
    if pos >= bytes.len() {
        return Err(DecodeError::Truncated);
    }
    let c = bytes[pos];
    match t {
        SType::SBoolean | SType::SSigmaProp => {
            if c > 1 {
                Err(DecodeError::InvalidValue)
            } else if matches!(t, SType::SSigmaProp) {
                Ok((Value::SigmaProp(c == 1), pos + 1))
            } else {
                Ok((Value::Boolean(c == 1), pos + 1))
            }
        },
        SType::SUnit => if c == 0 {
            Ok((Value::Unit, pos + 1))
        } else {
            Err(DecodeError::InvalidValue)
        },
        SType::SByte | SType::SShort | SType::SInt | SType::SLong => {
            if bytes.len() - pos < 8 {
                return Err(DecodeError::Truncated);
            }
            let y = read_u64(bytes, pos) as i64;
            match t {
                SType::SByte => if -128 <= y && y <= 127 {
                    Ok((Value::Byte(y as i8), pos + 8))
                } else {
                    Err(DecodeError::InvalidValue)
                },
                SType::SShort => if -32768 <= y && y <= 32767 {
                    Ok((Value::Short(y as i16), pos + 8))
                } else {
                    Err(DecodeError::InvalidValue)
                },
                SType::SInt => if -2147483648 <= y && y <= 2147483647 {
                    Ok((Value::Int(y as i32), pos + 8))
                } else {
                    Err(DecodeError::InvalidValue)
                },
                _ => Ok((Value::Long(y), pos + 8)),
            }
        },
        SType::SBox => {
            if bytes.len() - pos < 8 {
                return Err(DecodeError::Truncated);
            }
            Ok((Value::CBox(read_u64(bytes, pos)), pos + 8))
        },
        SType::SColl(e) => {
            if bytes.len() - pos < 8 {
                return Err(DecodeError::Truncated);
            }
            let n = read_u64(bytes, pos);
            if n > (bytes.len() - (pos + 8)) as u64 {
                return Err(DecodeError::Truncated);
            }
            match decode_values_at(bytes, pos + 8, n, e) {
                Ok((items, p)) => Ok((Value::Coll(items), p)),
                Err(x) => Err(x),
            }
        },
        SType::STuple(ts) => {
            proof {
                crate::types::lemma_types_model_len(ts@);
            }
            if c as usize != ts.len() {
                return Err(DecodeError::InvalidValue);
            }
            match decode_tuple_at(bytes, pos + 1, ts) {
                Ok((items, p)) => Ok((Value::Tup(items), p)),
                Err(x) => Err(x),
            }
        },
        SType::SOption(e) => {
            if c == 0 {
                Ok((Value::Opt(None), pos + 1))
            } else if c == 1 {
                match decode_value_at(bytes, pos + 1, e) {
                    Ok((v, p)) => Ok((Value::Opt(Some(Box::new(v))), p)),
                    Err(x) => Err(x),
                }
            } else {
                Err(DecodeError::InvalidValue)
            }
        },
        _ => Err(DecodeError::UnsupportedType),
    }
}

/// Decodes `n` values of type `e` from `pos`, in order.
pub fn decode_values_at(bytes: &Vec<u8>, pos: usize, n: u64, e: &SType) -> (r: Result<
    (Vec<Value>, usize),
    DecodeError,
>)
    ensures
        match parse_values(bytes@, pos as int, n as nat, e@, Seq::empty()) {
            Ok((ms, p)) => r is Ok && values_model(r->Ok_0.0@) == ms && r->Ok_0.1 as int == p,
            Err(x) => r == Err::<(Vec<Value>, usize), DecodeError>(x),
        },
    decreases e, n + 1,
{
    let ghost s = bytes@;
    let mut out: Vec<Value> = Vec::new();
    let mut cur: usize = pos;
    let mut k: u64 = 0;
    assert(values_model(Seq::<Value>::empty()) =~= Seq::<ValueModel>::empty());
    while k < n
        invariant
            k <= n,
            s == bytes@,
            parse_values(s, pos as int, n as nat, e@, Seq::empty()) == parse_values(
                s,
                cur as int,
                (n - k) as nat,
                e@,
                values_model(out@),
            ),
        decreases n - k,
    {
        match decode_value_at(bytes, cur, e) {
            Err(x) => {
                return Err(x);
            },
            Ok((v, p)) => {
                proof {
                    lemma_values_model_push(out@, v);
                }
                out.push(v);
                cur = p;
            },
        }
        k = k + 1;
    }
    Ok((out, cur))
}

/// Decodes one value of each type of `ts` from `pos`, in order.
pub fn decode_tuple_at(bytes: &Vec<u8>, pos: usize, ts: &Vec<SType>) -> (r: Result<
    (Vec<Value>, usize),
    DecodeError,
>)
    ensures
        match parse_tuple(bytes@, pos as int, types_model(ts@), Seq::empty()) {
            Ok((ms, p)) => r is Ok && values_model(r->Ok_0.0@) == ms && r->Ok_0.1 as int == p,
            Err(x) => r == Err::<(Vec<Value>, usize), DecodeError>(x),
        },
    decreases ts@, 1int,
{
    let ghost s = bytes@;
    let ghost tsm = types_model(ts@);
    proof {
        crate::types::lemma_types_model_len(ts@);
        assert(tsm.subrange(0, tsm.len() as int) =~= tsm);
    }
    let mut out: Vec<Value> = Vec::new();
    let mut cur: usize = pos;
    let mut i: usize = 0;
    assert(values_model(Seq::<Value>::empty()) =~= Seq::<ValueModel>::empty());
    while i < ts.len()
        invariant
            i <= ts@.len(),
            s == bytes@,
            tsm == types_model(ts@),
            tsm.len() == ts@.len(),
            forall|j: int| 0 <= j < ts@.len() ==> #[trigger] tsm[j] == type_model(ts@[j]),
            parse_tuple(s, pos as int, tsm, Seq::empty()) == parse_tuple(
                s,
                cur as int,
                tsm.subrange(i as int, tsm.len() as int),
                values_model(out@),
            ),
        decreases ts@.len() - i,
    {
        proof {
            assert(decreases_to!(ts@ => ts@[i as int]));
            let rest = tsm.subrange(i as int, tsm.len() as int);
            assert(rest[0] == tsm[i as int]);
            assert(rest.drop_first() =~= tsm.subrange(i + 1, tsm.len() as int));
        }
        match decode_value_at(bytes, cur, &ts[i]) {
            Err(x) => {
                return Err(x);
            },
            Ok((v, p)) => {
                proof {
                    lemma_values_model_push(out@, v);
                }
                out.push(v);
                cur = p;
            },
        }
        i = i + 1;
    }
    assert(tsm.subrange(i as int, tsm.len() as int) =~= Seq::<TypeModel>::empty());
    Ok((out, cur))
}

/// Decodes a byte sequence holding exactly one value of type `t`.
pub fn decode_value(bytes: &Vec<u8>, t: &SType) -> (r: Result<Value, DecodeError>)
    ensures
        match decode_value_spec(bytes@, t@) {
            Ok(m) => r is Ok && r->Ok_0@ == m,
            Err(x) => r == Err::<Value, DecodeError>(x),
        },
{
    match decode_value_at(bytes, 0, t) {
        Ok((v, p)) => if p == bytes.len() {
            Ok(v)
        } else {
            Err(DecodeError::TrailingBytes)
        },
        Err(x) => Err(x),
    }
}

} // verus!
