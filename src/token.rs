//! Tokens attached to a box: ids, bounded amounts, and a bounded collection.
use vstd::prelude::*;
use vstd::string::StringSliceAdditionalSpecFns;

verus! {

/// Smallest valid token amount.
pub const TOKEN_AMOUNT_MIN: u64 = 1;
/// Largest valid token amount.
pub const TOKEN_AMOUNT_MAX: u64 = 0x7fff_ffff_ffff_ffff;
/// Most tokens a collection can hold.
pub const TOKENS_MAX: usize = 255;

/// Identifier of a box: a 32-byte digest.
#[derive(Debug, Clone, Copy, PartialEq, Eq)]
pub struct BoxId(pub [u8; 32]);

/// Identifier of a token: a 32-byte digest.
#[derive(Debug, Clone, Copy, PartialEq, Eq)]
pub struct TokenId(pub [u8; 32]);

/// A token quantity within `TOKEN_AMOUNT_MIN..=TOKEN_AMOUNT_MAX`.
#[derive(Debug, Clone, Copy, PartialEq, Eq)]
pub struct TokenAmount {
    value: u64,
}

/// A token: id and amount.
#[derive(Debug, Clone, Copy, PartialEq, Eq)]
pub struct Token {
    pub token_id: TokenId,
    pub amount: TokenAmount,
}

/// A collection of at most `TOKENS_MAX` tokens, in insertion order.
#[derive(Debug)]
pub struct Tokens {
    items: Vec<Token>,
}

/// Failures of token operations.
#[derive(Debug, PartialEq, Eq, Clone, Copy, Structural)]
pub enum TokenError {
    /// The amount lies outside the valid range.
    AmountOutOfBounds(i64),
    /// The collection already holds `TOKENS_MAX` tokens.
    CapacityExceeded,
    /// The text is not 64 hexadecimal digits.
    InvalidHex,
}

impl TokenAmount {
    pub closed spec fn value(self) -> u64 {
        self.value
    }

    #[verifier::type_invariant]
    spec fn inv(self) -> bool {
        TOKEN_AMOUNT_MIN <= self.value <= TOKEN_AMOUNT_MAX
    }
}

impl Tokens {
    pub closed spec fn view(&self) -> Seq<Token> {
        self.items@
    }

    /// A collection holds at most `TOKENS_MAX` tokens.
    pub open spec fn wf(&self) -> bool {
        self.view().len() <= TOKENS_MAX
    }
}

/// Token id of a token minted from the given box: the same digest.
pub fn ergo_lib_token_id_from_box_id(box_id: &BoxId) -> (r: TokenId)
    ensures
        r.0@ == box_id.0@,
{
    TokenId(box_id.0)
}

/// Value of an ASCII hexadecimal digit, either case.
pub open spec fn hex_value(c: u8) -> Option<u8> {
    if 48 <= c <= 57 {
        Option::Some((c - 48) as u8)
    } else if 97 <= c <= 102 {
        Option::Some((c - 87) as u8)
    } else if 65 <= c <= 70 {
        Option::Some((c - 55) as u8)
    } else {
        Option::None
    }
}

/// Lower-case ASCII digit of a value below 16.
pub open spec fn hex_digit(n: u8) -> u8 {
    if n < 10 {
        (48 + n) as u8
    } else {
        (87 + n) as u8
    }
}

/// Two lower-case digits per byte, high digit first.
pub open spec fn hex_text(d: Seq<u8>) -> Seq<u8> {
    Seq::new(
        2 * d.len(),
        |i: int|
            if i % 2 == 0 {
                hex_digit(d[i / 2] / 16)
            } else {
                hex_digit(d[i / 2] % 16)
            },
    )
}

fn hex_value_exec(c: u8) -> (r: Option<u8>)
    ensures
        r == hex_value(c),
{
    if 48 <= c && c <= 57 {
        Some(c - 48)
    } else if 97 <= c && c <= 102 {
        Some(c - 87)
    } else if 65 <= c && c <= 70 {
        Some(c - 55)
    } else {
        None
    }
}

/// Relies on String::from_utf8: ASCII bytes are valid UTF-8, one character each.
#[verifier::external_body]
fn ascii_string(bytes: Vec<u8>) -> (r: String)
    requires
        forall|i: int| 0 <= i < bytes@.len() ==> bytes@[i] < 128,
    ensures
        r@ == bytes@.map_values(|b: u8| b as char),
{
    match String::from_utf8(bytes) {
        Ok(s) => s,
        Err(_) => String::new(),
    }
}

/// Token id from 64 hexadecimal digits (either case), two per byte.
pub fn ergo_lib_token_id_from_str(s: &str) -> (r: Result<TokenId, TokenError>)
    ensures
        r is Ok <==> (s.spec_bytes().len() == 64 && forall|i: int|
            0 <= i < 64 ==> #[trigger] hex_value(s.spec_bytes()[i]) is Some),
        r is Ok ==> forall|i: int|
            0 <= i < 32 ==> #[trigger] r->Ok_0.0@[i] == 16 * hex_value(s.spec_bytes()[2 * i])->0
                + hex_value(s.spec_bytes()[2 * i + 1])->0,
        r is Err ==> r == Err::<TokenId, TokenError>(TokenError::InvalidHex),
{
    let b = s.as_bytes();
    if b.len() != 64 {
        return Err(TokenError::InvalidHex);
    }
    let mut d: [u8; 32] = [0u8; 32];
    let mut i: usize = 0;
    while i < 32
        invariant
            i <= 32,
            b@ == s.spec_bytes(),
            b@.len() == 64,
            d@.len() == 32,
            forall|j: int| 0 <= j < 2 * i ==> #[trigger] hex_value(b@[j]) is Some,
            forall|j: int|
                0 <= j < i ==> #[trigger] d@[j] == 16 * hex_value(b@[2 * j])->0 + hex_value(
                    b@[2 * j + 1],
                )->0,
        decreases 32 - i,
    {
        let hi = match hex_value_exec(b[2 * i]) {
            Some(v) => v,
            None => {
                return Err(TokenError::InvalidHex);
            },
        };
        let lo = match hex_value_exec(b[2 * i + 1]) {
            Some(v) => v,
            None => {
                return Err(TokenError::InvalidHex);
            },
        };
        d.set(i, 16 * hi + lo);
        i = i + 1;
    }
    Ok(TokenId(d))
}

/// The id as 64 lower-case hexadecimal digits.
pub fn ergo_lib_token_id_to_str(token_id: &TokenId) -> (r: String)
    ensures
        r@ == hex_text(token_id.0@).map_values(|b: u8| b as char),
{
    let mut out: Vec<u8> = Vec::new();
    let ghost d = token_id.0@;
    let mut i: usize = 0;
    while i < 32
        invariant
            i <= 32,
            d == token_id.0@,
            d.len() == 32,
            out@ == hex_text(d).subrange(0, 2 * i),
            forall|j: int| 0 <= j < out@.len() ==> out@[j] < 128,
        decreases 32 - i,
    {
        let x = token_id.0[i];
        let hi = x / 16;
        let lo = x % 16;
        let ch = if hi < 10 { 48 + hi } else { 87 + hi };
        let cl = if lo < 10 { 48 + lo } else { 87 + lo };
        out.push(ch);
        out.push(cl);
        proof {
            assert(hex_text(d)[2 * i] == ch);
            assert(hex_text(d)[2 * i + 1] == cl);
            assert(out@ =~= hex_text(d).subrange(0, 2 * i + 2));
        }
        i = i + 1;
    }
    assert(hex_text(d).subrange(0, 64) =~= hex_text(d));
    ascii_string(out)
}

/// Amount from a signed integer, failing unless it is at least 1.
pub fn ergo_lib_token_amount_from_i64(amount: i64) -> (r: Result<TokenAmount, TokenError>)
    ensures
        r is Ok <==> amount >= 1,
        r is Ok ==> r->Ok_0.value() == amount,
        r is Err ==> r == Err::<TokenAmount, TokenError>(TokenError::AmountOutOfBounds(amount)),
{
    if amount < 1 {
        Err(TokenError::AmountOutOfBounds(amount))
    } else {
        Ok(TokenAmount { value: amount as u64 })
    }
}

/// The amount as a signed integer.
pub fn ergo_lib_token_amount_as_i64(amount: &TokenAmount) -> (r: i64)
    ensures
        r as int == amount.value(),
{
    proof {
        use_type_invariant(amount);
    }
    amount.value as i64
}

/// A token of the given id and amount.
pub fn ergo_lib_token_new(token_id: &TokenId, amount: &TokenAmount) -> (r: Token)
    ensures
        r.token_id == *token_id,
        r.amount == *amount,
{
    Token { token_id: *token_id, amount: *amount }
}

/// The token's id.
pub fn ergo_lib_token_get_id(token: &Token) -> (r: TokenId)
    ensures
        r == token.token_id,
{
    token.token_id
}

/// The token's amount.
pub fn ergo_lib_token_get_amount(token: &Token) -> (r: TokenAmount)
    ensures
        r == token.amount,
{
    token.amount
}

/// An empty collection.
pub fn ergo_lib_tokens_new() -> (r: Tokens)
    ensures
        r.wf(),
        r.view() == Seq::<Token>::empty(),
{
    Tokens { items: Vec::new() }
}

/// Number of tokens in the collection.
pub fn ergo_lib_tokens_len(tokens: &Tokens) -> (r: usize)
    ensures
        r == tokens.view().len(),
{
    tokens.items.len()
}

/// The token at `index`, if there is one.
pub fn ergo_lib_tokens_get(tokens: &Tokens, index: usize) -> (r: Option<Token>)
    ensures
        index < tokens.view().len() ==> r == Some(tokens.view()[index as int]),
        index >= tokens.view().len() ==> r is None,
{
    if index < tokens.items.len() {
        Some(tokens.items[index])
    } else {
        None
    }
}

/// Appends a token; a full collection is left unchanged and the call fails.
pub fn ergo_lib_tokens_add(token: &Token, tokens: &mut Tokens) -> (r: Result<(), TokenError>)
    ensures
        old(tokens).wf() ==> final(tokens).wf(),
        old(tokens).view().len() < TOKENS_MAX ==> r is Ok && final(tokens).view()
            == old(tokens).view().push(*token),
        old(tokens).view().len() >= TOKENS_MAX ==> r == Err::<(), TokenError>(
            TokenError::CapacityExceeded,
        ) && final(tokens).view() == old(tokens).view(),
{
    if tokens.items.len() >= TOKENS_MAX {
        Err(TokenError::CapacityExceeded)
    } else {
        tokens.items.push(*token);
        Ok(())
    }
}

} // verus!
