use vstd::prelude::*;
use vstd::string::*;
use crate::error::BitsError;
use crate::literal::{lemma_literal_denotes_digits, literal_value, radix_prefix};
use crate::numeral::{lemma_radix_digits_value, push_radix_digits, radix_digits};

verus! {

/// The widths at which a value can be read as a signed integer.
pub open spec fn valid_bit_width(bits: u8) -> bool {
    bits == 8 || bits == 16 || bits == 32 || bits == 64
}

/// 2 to the power `bits`, for the signed widths.
pub open spec fn modulus(bits: nat) -> nat {
    if bits == 8 {
        0x100
    } else if bits == 16 {
        0x1_0000
    } else if bits == 32 {
        0x1_0000_0000
    } else {
        0x1_0000_0000_0000_0000
    }
}

/// The low `bits` bits of `v` read as a two's-complement signed integer.
pub open spec fn signed_value(v: u64, bits: nat) -> int {
    let low = v as nat % modulus(bits);
    if 2 * low >= modulus(bits) {
        low - modulus(bits)
    } else {
        low as int
    }
}

/// An integer in decimal, with a leading `-` when negative.
pub open spec fn int_text(i: int) -> Seq<char> {
    if i < 0 {
        seq!['-'] + radix_digits((-i) as nat, 10)
    } else {
        radix_digits(i as nat, 10)
    }
}

/// `0x` followed by the lowercase hex digits of `v`.
pub open spec fn hex_text(v: u64) -> Seq<char> {
    seq!['0', 'x'] + radix_digits(v as nat, 16)
}

/// The decimal digits of `v`.
pub open spec fn decimal_text(v: u64) -> Seq<char> {
    radix_digits(v as nat, 10)
}

/// The octal digits of `v`, without a prefix.
pub open spec fn octal_text(v: u64) -> Seq<char> {
    radix_digits(v as nat, 8)
}

/// Renders the low `bits` bits of `value` as a signed decimal integer.
pub fn render_signed(bits: u8, value: u64) -> (r: Result<String, BitsError>)
    ensures
        valid_bit_width(bits) <==> r is Ok,
        r matches Ok(t) ==> t@ == int_text(signed_value(value, bits as nat)),
        r matches Err(e) ==> e == BitsError::InvalidBitWidth(bits),
{
    if !(bits == 8 || bits == 16 || bits == 32 || bits == 64) {
        return Err(BitsError::InvalidBitWidth(bits));
    }
    proof {
        reveal_strlit("-");
    }
    let top: u64 = if bits == 8 {
        0xFF
    } else if bits == 16 {
        0xFFFF
    } else if bits == 32 {
        0xFFFF_FFFF
    } else {
        0xFFFF_FFFF_FFFF_FFFF
    };
    let low: u64 = if bits == 64 {
        value
    } else {
        value % (top + 1)
    };
    let ghost m = modulus(bits as nat);
    assert(m == top + 1);
    assert(low == value as nat % m);
    let mut text = String::new();
    if low > top / 2 {
        let magnitude = (top - low) + 1;
        assert(signed_value(value, bits as nat) == -(magnitude as int));
        text.append("-");
        push_radix_digits(&mut text, magnitude, 10);
    } else {
        push_radix_digits(&mut text, low, 10);
    }
    assert(text@ =~= int_text(signed_value(value, bits as nat)));
    Ok(text)
}

/// Renders `value` as `0x` and lowercase hex digits.
pub fn render_hex(value: u64) -> (r: String)
    ensures
        r@ == hex_text(value),
{
    proof {
        reveal_strlit("0x");
    }
    let mut text = String::new();
    text.append("0x");
    push_radix_digits(&mut text, value, 16);
    assert(text@ =~= hex_text(value));
    text
}

/// Renders `value` in decimal.
pub fn render_decimal(value: u64) -> (r: String)
    ensures
        r@ == decimal_text(value),
{
    let mut text = String::new();
    push_radix_digits(&mut text, value, 10);
    assert(text@ =~= decimal_text(value));
    text
}

/// Renders `value` in octal, without a prefix.
pub fn render_octal(value: u64) -> (r: String)
    ensures
        r@ == octal_text(value),
{
    let mut text = String::new();
    push_radix_digits(&mut text, value, 8);
    assert(text@ =~= octal_text(value));
    text
}

/// The digits of `v` in radix 8, 10 or 16 behind the prefix that selects that radix
/// read back as `v`.
proof fn lemma_prefixed_round_trip(v: u64, radix: nat)
    requires
        radix == 8 || radix == 10 || radix == 16,
    ensures
        literal_value(radix_prefix(radix) + radix_digits(v as nat, radix)) == Some(v as nat),
{
    let ds = radix_digits(v as nat, radix);
    lemma_radix_digits_value(v as nat, radix);
    lemma_literal_denotes_digits(radix, ds);
}

/// Hex text read back as a literal gives the value it was rendered from.
pub proof fn lemma_hex_round_trip(v: u64)
    ensures
        literal_value(hex_text(v)) == Some(v as nat),
{
    lemma_prefixed_round_trip(v, 16);
    assert(radix_prefix(16) + radix_digits(v as nat, 16) =~= hex_text(v));
}

/// Decimal text read back as a literal gives the value it was rendered from.
pub proof fn lemma_decimal_round_trip(v: u64)
    ensures
        literal_value(decimal_text(v)) == Some(v as nat),
{
    lemma_prefixed_round_trip(v, 10);
    assert(radix_prefix(10) + radix_digits(v as nat, 10) =~= decimal_text(v));
}

/// Octal text, once the `0o` prefix that marks octal is put before it, read back as a
/// literal gives the value it was rendered from.
pub proof fn lemma_octal_round_trip(v: u64)
    ensures
        literal_value(seq!['0', 'o'] + octal_text(v)) == Some(v as nat),
{
    lemma_prefixed_round_trip(v, 8);
}

} // verus!
