use ergotree::block_id::BlockId;
use ergotree::token::{
    BoxId, TokenError, ergo_lib_token_amount_as_i64, ergo_lib_token_amount_from_i64,
    ergo_lib_token_get_amount, ergo_lib_token_get_id, ergo_lib_token_id_from_box_id,
    ergo_lib_token_id_from_str, ergo_lib_token_id_to_str, ergo_lib_token_new, ergo_lib_tokens_add, ergo_lib_tokens_get, ergo_lib_tokens_len,
    ergo_lib_tokens_new,
};
use ergotree::tvalue::{SIntT, TValue};
use ergotree::value::Value;

#[test]
fn token_amount_bounds() {
    assert_eq!(ergo_lib_token_amount_from_i64(0).unwrap_err(), TokenError::AmountOutOfBounds(0));
    assert_eq!(ergo_lib_token_amount_from_i64(-1).unwrap_err(), TokenError::AmountOutOfBounds(-1));
    let a = ergo_lib_token_amount_from_i64(1).unwrap();
    assert_eq!(ergo_lib_token_amount_as_i64(&a), 1);
    let m = ergo_lib_token_amount_from_i64(i64::MAX).unwrap();
    assert_eq!(ergo_lib_token_amount_as_i64(&m), i64::MAX);
}

#[test]
fn tokens_capacity_is_255() {
    let mut tokens = ergo_lib_tokens_new();
    assert_eq!(ergo_lib_tokens_len(&tokens), 0);
    for i in 0..255u32 {
        let mut d = [0u8; 32];
        d[0] = i as u8;
        let id = ergo_lib_token_id_from_box_id(&BoxId(d));
        let amount = ergo_lib_token_amount_from_i64(i as i64 + 1).unwrap();
        let t = ergo_lib_token_new(&id, &amount);
        assert_eq!(ergo_lib_tokens_add(&t, &mut tokens), Ok(()));
        assert_eq!(ergo_lib_tokens_len(&tokens), i as usize + 1);
        let got = ergo_lib_tokens_get(&tokens, i as usize).unwrap();
        assert_eq!(ergo_lib_token_get_id(&got).0[0], i as u8);
        assert_eq!(ergo_lib_token_amount_as_i64(&ergo_lib_token_get_amount(&got)), i as i64 + 1);
    }
    let id = ergo_lib_token_id_from_box_id(&BoxId([7u8; 32]));
    let t = ergo_lib_token_new(&id, &ergo_lib_token_amount_from_i64(3).unwrap());
    assert_eq!(ergo_lib_tokens_add(&t, &mut tokens), Err(TokenError::CapacityExceeded));
    assert_eq!(ergo_lib_tokens_len(&tokens), 255);
    assert!(ergo_lib_tokens_get(&tokens, 255).is_none());
    assert_eq!(ergo_lib_token_get_id(&ergo_lib_tokens_get(&tokens, 254).unwrap()).0[0], 254);
}

#[test]
fn block_id_as_signed_bytes() {
    let mut d = [0u8; 32];
    d[0] = 0xff;
    d[31] = 0x7f;
    let v: Vec<i8> = BlockId(d).into();
    assert_eq!(v.len(), 32);
    assert_eq!(v[0], -1);
    assert_eq!(v[31], 127);
    assert_eq!(v[1], 0);
}

#[test]
fn tvalue_from_int() {
    let t: TValue<SIntT> = TValue::from(42);
    assert!(matches!(t.v, Value::Int(42)));
    let c = TValue::from_ints(vec![1, 2]);
    assert!(matches!(&c.v, Value::Coll(items) if items.len() == 2));
    let b = TValue::from_box(5);
    assert!(matches!(b.v, Value::CBox(5)));
}

#[test]
fn token_id_hex_round_trip() {
    let text = "0cd8c9f416e5b1ca9f986a7f10a84191dfb85941619e49e53c0dc30ebf83324b";
    let id = ergo_lib_token_id_from_str(text).unwrap();
    assert_eq!(id.0[0], 0x0c);
    assert_eq!(id.0[31], 0x4b);
    assert_eq!(ergo_lib_token_id_to_str(&id), text);
    let upper = ergo_lib_token_id_from_str(&text.to_uppercase()).unwrap();
    assert_eq!(upper, id);
}

#[test]
fn token_id_hex_errors() {
    assert_eq!(ergo_lib_token_id_from_str("00").unwrap_err(), TokenError::InvalidHex);
    let bad = format!("{}g", "0".repeat(63));
    assert_eq!(ergo_lib_token_id_from_str(&bad).unwrap_err(), TokenError::InvalidHex);
    assert_eq!(ergo_lib_token_id_from_str("").unwrap_err(), TokenError::InvalidHex);
}

#[test]
fn token_id_to_str_digits() {
    let mut d = [0u8; 32];
    d[0] = 0xab;
    d[1] = 0x09;
    let s = ergo_lib_token_id_to_str(&ergo_lib_token_id_from_box_id(&BoxId(d)));
    assert_eq!(s.len(), 64);
    assert!(s.starts_with("ab09"));
}
