//! Syntactic validation for the two address families.
//!
//! A source-chain address is hex text: the prefix `0x` followed by exactly
//! forty hex digits, either case. A target-chain address is base-58 text
//! that decodes to exactly thirty-two bytes, the target chain's native key
//! width.

use vstd::prelude::*;

verus! {

/// An ASCII hex digit, either case.
pub open spec fn is_hex_digit_char(c: char) -> bool {
    ('0' <= c && c <= '9') || ('a' <= c && c <= 'f') || ('A' <= c && c <= 'F')
}

/// The source-address grammar: `0x` followed by exactly forty hex digits.
pub open spec fn valid_source_address(s: Seq<char>) -> bool {
    &&& s.len() == 42
    &&& s[0] == '0'
    &&& s[1] == 'x'
    &&& forall|i: int| 2 <= i < 42 ==> is_hex_digit_char(#[trigger] s[i])
}

/// Width in bytes of a target-chain key.
pub const TARGET_KEY_LEN: usize = 32;

/// Value of `c` as a base-58 digit, or -1 when `c` is not in the alphabet
/// `123456789ABCDEFGHJKLMNPQRSTUVWXYZabcdefghijkmnopqrstuvwxyz`.
pub open spec fn base58_digit(c: char) -> int {
    if '1' <= c && c <= '9' {
        c as int - '1' as int
    } else if 'A' <= c && c <= 'H' {
        9 + (c as int - 'A' as int)
    } else if 'J' <= c && c <= 'N' {
        17 + (c as int - 'J' as int)
    } else if 'P' <= c && c <= 'Z' {
        22 + (c as int - 'P' as int)
    } else if 'a' <= c && c <= 'k' {
        33 + (c as int - 'a' as int)
    } else if 'm' <= c && c <= 'z' {
        44 + (c as int - 'm' as int)
    } else {
        -1
    }
}

pub open spec fn is_base58_char(c: char) -> bool {
    base58_digit(c) >= 0
}

/// The number read from `s` as a base-58 numeral (digits outside the
/// alphabet count as -1; only meaningful when every digit is valid).
pub open spec fn base58_value(s: Seq<char>) -> int
    decreases s.len(),
{
    if s.len() == 0 {
        0
    } else {
        base58_value(s.drop_last()) * 58 + base58_digit(s.last())
    }
}

/// How many `1` digits (the zero digit) stand at the front of `s`.
pub open spec fn leading_zero_digits(s: Seq<char>) -> int
    decreases s.len(),
{
    if s.len() > 0 && s[0] == '1' {
        1 + leading_zero_digits(s.drop_first())
    } else {
        0
    }
}

/// The number read from `b` as a big-endian base-256 numeral.
pub open spec fn byte_value(b: Seq<u8>) -> int
    decreases b.len(),
{
    if b.len() == 0 {
        0
    } else {
        byte_value(b.drop_last()) * 256 + b.last()
    }
}

/// The fewest bytes that can carry the value `v`.
pub open spec fn min_byte_len(v: int) -> int
    decreases v,
{
    if v <= 0 {
        0
    } else {
        1 + min_byte_len(v / 256)
    }
}

pub proof fn lemma_byte_value_nonneg(b: Seq<u8>)
    ensures
        byte_value(b) >= 0,
    decreases b.len(),
{
    if b.len() > 0 {
        lemma_byte_value_nonneg(b.drop_last());
    }
}

/// Byte strings of equal width with the same value are the same string.
pub proof fn lemma_byte_value_injective(b1: Seq<u8>, b2: Seq<u8>)
    requires
        b1.len() == b2.len(),
        byte_value(b1) == byte_value(b2),
    ensures
        b1 == b2,
    decreases b1.len(),
{
    if b1.len() == 0 {
        assert(b1 =~= b2);
    } else {
        lemma_byte_value_nonneg(b1.drop_last());
        lemma_byte_value_nonneg(b2.drop_last());
        vstd::arithmetic::div_mod::lemma_fundamental_div_mod_converse(
            byte_value(b1),
            256,
            byte_value(b1.drop_last()),
            b1.last() as int,
        );
        vstd::arithmetic::div_mod::lemma_fundamental_div_mod_converse(
            byte_value(b2),
            256,
            byte_value(b2.drop_last()),
            b2.last() as int,
        );
        lemma_byte_value_injective(b1.drop_last(), b2.drop_last());
        assert(b1 =~= b1.drop_last().push(b1.last()));
        assert(b2 =~= b2.drop_last().push(b2.last()));
    }
}

/// The one byte string of native key width that carries the value of the
/// base-58 numeral `s`.
pub open spec fn target_key(s: Seq<char>) -> Seq<u8> {
    choose|b: Seq<u8>|
        b.len() == TARGET_KEY_LEN as int && byte_value(b) == base58_value(s)
}

/// Any native-width byte string carrying the value of `s` is `target_key(s)`.
pub proof fn lemma_target_key_unique(s: Seq<char>, b: Seq<u8>)
    requires
        b.len() == TARGET_KEY_LEN as int,
        byte_value(b) == base58_value(s),
    ensures
        target_key(s) == b,
{
    assert(exists|w: Seq<u8>|
        w.len() == TARGET_KEY_LEN as int && #[trigger] byte_value(w) == base58_value(s));
    let w = target_key(s);
    assert(w.len() == TARGET_KEY_LEN as int && byte_value(w) == base58_value(s));
    lemma_byte_value_injective(w, b);
}

/// The target-address grammar: base-58 text whose decoded form is exactly
/// `TARGET_KEY_LEN` bytes wide. The decoded form has one zero byte per
/// leading `1` digit followed by the big-endian bytes of the numeral value.
pub open spec fn valid_target_address(s: Seq<char>) -> bool {
    &&& forall|i: int| 0 <= i < s.len() ==> is_base58_char(#[trigger] s[i])
    &&& leading_zero_digits(s) + min_byte_len(base58_value(s)) == TARGET_KEY_LEN
}

/// A target-chain owner key: the fixed-width binary form of a target
/// address.
pub struct TargetAddress {
    pub bytes: Vec<u8>,
}

impl View for TargetAddress {
    type V = Seq<u8>;

    open spec fn view(&self) -> Seq<u8> {
        self.bytes@
    }
}

impl TargetAddress {
    /// The key has exactly the native width.
    pub open spec fn wf(&self) -> bool {
        self.bytes@.len() == TARGET_KEY_LEN
    }

    /// Exact key equality, byte for byte.
    pub fn same_as(&self, other: &TargetAddress) -> (r: bool)
        ensures
            r == (self@ == other@),
    {
        key_bytes_eq(&self.bytes, &other.bytes)
    }
}

/// Exact byte-string equality.
pub fn key_bytes_eq(a: &Vec<u8>, b: &Vec<u8>) -> (r: bool)
    ensures
        r == (a@ == b@),
{
    if a.len() != b.len() {
        return false;
    }
    let mut i: usize = 0;
    while i < a.len()
        invariant
            0 <= i <= a@.len(),
            a@.len() == b@.len(),
            forall|j: int| 0 <= j < i ==> a@[j] == b@[j],
        decreases a@.len() - i,
    {
        if a[i] != b[i] {
            return false;
        }
        i += 1;
    }
    proof {
        assert(a@ =~= b@);
    }
    true
}

/// Relies on `bs58::decode(..).into_vec()` with its default alphabet: each
/// digit folds into a big-endian byte string, one zero byte stands in front
/// per leading `1` digit, and a character outside the alphabet (non-ASCII
/// included) is the only error.
#[verifier::external_body]
fn base58_decode(s: &str) -> (r: Option<Vec<u8>>)
    ensures
        r is Some <==> (forall|i: int| 0 <= i < s@.len() ==> is_base58_char(#[trigger] s@[i])),
        r matches Some(b) ==> {
            &&& byte_value(b@) == base58_value(s@)
            &&& b@.len() == leading_zero_digits(s@) + min_byte_len(base58_value(s@))
        },
{
    bs58::decode(s).into_vec().ok()
}

/// Decodes `s` into a target-chain key; `None` exactly on text that is not
/// a well-formed target address.
pub fn parse_target_address(s: &str) -> (r: Option<TargetAddress>)
    ensures
        r is Some <==> valid_target_address(s@),
        r matches Some(t) ==> t.wf() && byte_value(t@) == base58_value(s@),
{
    match base58_decode(s) {
        Some(b) => {
            if b.len() == TARGET_KEY_LEN {
                Some(TargetAddress { bytes: b })
            } else {
                None
            }
        },
        None => None,
    }
}

/// True exactly when `s` is a well-formed target-chain address. Parse
/// failure of any kind yields `false`, never an error.
pub fn is_valid_target_address(s: &str) -> (r: bool)
    ensures
        r == valid_target_address(s@),
{
    parse_target_address(s).is_some()
}

fn is_hex_digit(c: char) -> (r: bool)
    ensures
        r == is_hex_digit_char(c),
{
    ('0' <= c && c <= '9') || ('a' <= c && c <= 'f') || ('A' <= c && c <= 'F')
}

/// True exactly when `s` is a well-formed source-chain address. No checksum
/// is checked, only the grammar.
pub fn is_valid_source_address(s: &str) -> (r: bool)
    ensures
        r == valid_source_address(s@),
{
    let n = s.unicode_len();
    if n != 42 {
        return false;
    }
    if s.get_char(0) != '0' || s.get_char(1) != 'x' {
        return false;
    }
    let mut i: usize = 2;
    while i < 42
        invariant
            2 <= i <= 42,
            s@.len() == 42,
            forall|j: int| 2 <= j < i ==> is_hex_digit_char(#[trigger] s@[j]),
        decreases 42 - i,
    {
        if !is_hex_digit(s.get_char(i)) {
            return false;
        }
        i += 1;
    }
    true
}

} // verus!

