use ergotree::codec::{DecodeError, decode_type, encode_type};
use ergotree::types::{SFunc, SType, STypeVar};
use ergotree::value::{Value, value_eq};
use ergotree::value_codec::{decode_value, encode_value};

fn coll(t: SType) -> SType {
    SType::SColl(Box::new(t))
}

fn same_type(a: &SType, b: &SType) -> bool {
    format!("{:?}", a) == format!("{:?}", b)
}

#[test]
fn primitive_type_encodings() {
    assert_eq!(encode_type(&SType::SInt), vec![4]);
    assert_eq!(encode_type(&coll(SType::SBoolean)), vec![12, 1]);
    assert_eq!(encode_type(&SType::STuple(vec![SType::SInt, SType::SLong])), vec![96, 2, 4, 5]);
    assert_eq!(encode_type(&SType::SOption(Box::new(SType::SBox))), vec![36, 99]);
    assert_eq!(encode_type(&SType::STypeVar(STypeVar::iv())), vec![103, 1]);
}

#[test]
fn type_round_trips() {
    let f = SType::SFunc(SFunc {
        t_dom: vec![coll(SType::STypeVar(STypeVar::t())), SType::SInt],
        t_range: Box::new(SType::SInt),
        tpe_params: vec![STypeVar::t()],
    });
    assert_eq!(encode_type(&f), vec![112, 2, 12, 103, 0, 4, 4, 1, 0]);
    let samples = vec![
        SType::SBoolean,
        SType::SUnit,
        coll(coll(SType::SByte)),
        SType::STuple(vec![SType::SInt, coll(SType::SShort), SType::SSigmaProp]),
        SType::SOption(Box::new(SType::SGroupElement)),
        f,
    ];
    for t in samples.iter() {
        let back = decode_type(&encode_type(t)).unwrap();
        assert!(same_type(&back, t));
    }
}

#[test]
fn type_decoding_errors() {
    assert_eq!(decode_type(&vec![]).unwrap_err(), DecodeError::Truncated);
    assert_eq!(decode_type(&vec![12]).unwrap_err(), DecodeError::Truncated);
    assert_eq!(decode_type(&vec![200]).unwrap_err(), DecodeError::UnknownTypeCode(200));
    assert_eq!(decode_type(&vec![4, 4]).unwrap_err(), DecodeError::TrailingBytes);
    assert_eq!(decode_type(&vec![96, 3, 4, 4]).unwrap_err(), DecodeError::Truncated);
}

#[test]
fn value_encodings() {
    assert_eq!(encode_value(&Value::Boolean(true)), vec![1]);
    assert_eq!(encode_value(&Value::Int(-2)), vec![255, 255, 255, 255, 255, 255, 255, 254]);
    assert_eq!(encode_value(&Value::Long(258)), vec![0, 0, 0, 0, 0, 0, 1, 2]);
    assert_eq!(
        encode_value(&Value::Coll(vec![Value::Boolean(false), Value::Boolean(true)])),
        vec![0, 0, 0, 0, 0, 0, 0, 2, 0, 1]
    );
    assert_eq!(encode_value(&Value::Opt(None)), vec![0]);
}

#[test]
fn value_round_trips() {
    let cases = vec![
        (Value::Boolean(false), SType::SBoolean),
        (Value::Byte(-128), SType::SByte),
        (Value::Short(300), SType::SShort),
        (Value::Int(i32::MIN), SType::SInt),
        (Value::Long(i64::MAX), SType::SLong),
        (Value::SigmaProp(true), SType::SSigmaProp),
        (Value::CBox(u64::MAX), SType::SBox),
        (Value::Unit, SType::SUnit),
        (Value::Coll(vec![Value::Int(1), Value::Int(-1)]), coll(SType::SInt)),
        (Value::Coll(vec![]), coll(SType::SLong)),
        (
            Value::Tup(vec![Value::Int(3), Value::Coll(vec![Value::Unit])]),
            SType::STuple(vec![SType::SInt, coll(SType::SUnit)]),
        ),
        (Value::Opt(Some(Box::new(Value::Byte(7)))), SType::SOption(Box::new(SType::SByte))),
    ];
    for (v, t) in cases.iter() {
        let back = decode_value(&encode_value(v), t).unwrap();
        assert!(value_eq(&back, v));
    }
}

#[test]
fn value_decoding_errors() {
    assert_eq!(decode_value(&vec![2], &SType::SBoolean).unwrap_err(), DecodeError::InvalidValue);
    assert_eq!(decode_value(&vec![0, 0], &SType::SBoolean).unwrap_err(), DecodeError::TrailingBytes);
    assert_eq!(decode_value(&vec![0, 0, 0], &SType::SInt).unwrap_err(), DecodeError::Truncated);
    let big = encode_value(&Value::Long(1 << 40));
    assert_eq!(decode_value(&big, &SType::SInt).unwrap_err(), DecodeError::InvalidValue);
    assert_eq!(decode_value(&vec![1], &SType::SBigInt).unwrap_err(), DecodeError::UnsupportedType);
    let huge_count = vec![255, 255, 255, 255, 255, 255, 255, 255];
    assert_eq!(decode_value(&huge_count, &coll(SType::SUnit)).unwrap_err(), DecodeError::Truncated);
    assert_eq!(
        decode_value(&vec![3, 1], &SType::STuple(vec![SType::SBoolean, SType::SBoolean])).unwrap_err(),
        DecodeError::InvalidValue
    );
}
