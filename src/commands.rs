use vstd::prelude::*;
use crate::error::BitsError;
use crate::formats::{
    decimal_text, hex_text, int_text, octal_text, render_decimal, render_hex, render_octal,
    render_signed, signed_value, valid_bit_width,
};
use crate::literal::{literal_value, value_from_string};
use crate::table::{bit_table, render_bits, valid_chunk};

verus! {

/// Reads the literal `input` and renders its bit table grouped by `chunk` bits.
/// A bad chunk width is reported before the literal is read.
pub fn show_me_bits(input: &String, chunk: u8) -> (r: Result<String, BitsError>)
    ensures
        !valid_chunk(chunk) ==> r == Err::<String, BitsError>(BitsError::InvalidChunkWidth(chunk)),
        valid_chunk(chunk) && literal_value(input@) is None ==> r == Err::<String, BitsError>(
            BitsError::Parse,
        ),
        valid_chunk(chunk) && literal_value(input@) is Some ==> (r matches Ok(t) && t@ == bit_table(
            literal_value(input@)->0 as u64,
            chunk as nat,
        )),
{
    if !(chunk == 1 || chunk == 2 || chunk == 4) {
        return Err(BitsError::InvalidChunkWidth(chunk));
    }
    let value = value_from_string(input.clone())?;
    render_bits(value, chunk)
}

/// Reads the literal `input` and renders its low `bits` bits as a signed integer.
/// A bad width is reported before the literal is read.
pub fn show_me_signed(input: &String, bits: u8) -> (r: Result<String, BitsError>)
    ensures
        !valid_bit_width(bits) ==> r == Err::<String, BitsError>(BitsError::InvalidBitWidth(bits)),
        valid_bit_width(bits) && literal_value(input@) is None ==> r == Err::<String, BitsError>(
            BitsError::Parse,
        ),
        valid_bit_width(bits) && literal_value(input@) is Some ==> (r matches Ok(t) && t@ == int_text(
            signed_value(literal_value(input@)->0 as u64, bits as nat),
        )),
{
    if !(bits == 8 || bits == 16 || bits == 32 || bits == 64) {
        return Err(BitsError::InvalidBitWidth(bits));
    }
    let value = value_from_string(input.clone())?;
    render_signed(bits, value)
}

/// Reads the literal `input` and renders it in hex.
pub fn show_me_hex(input: &String) -> (r: Result<String, BitsError>)
    ensures
        literal_value(input@) is None ==> r == Err::<String, BitsError>(BitsError::Parse),
        literal_value(input@) is Some ==> (r matches Ok(t) && t@ == hex_text(
            literal_value(input@)->0 as u64,
        )),
{
    let value = value_from_string(input.clone())?;
    Ok(render_hex(value))
}

/// Reads the literal `input` and renders it in decimal.
pub fn show_me_decimal(input: &String) -> (r: Result<String, BitsError>)
    ensures
        literal_value(input@) is None ==> r == Err::<String, BitsError>(BitsError::Parse),
        literal_value(input@) is Some ==> (r matches Ok(t) && t@ == decimal_text(
            literal_value(input@)->0 as u64,
        )),
{
    let value = value_from_string(input.clone())?;
    Ok(render_decimal(value))
}

/// Reads the literal `input` and renders it in octal.
pub fn show_me_octal(input: &String) -> (r: Result<String, BitsError>)
    ensures
        literal_value(input@) is None ==> r == Err::<String, BitsError>(BitsError::Parse),
        literal_value(input@) is Some ==> (r matches Ok(t) && t@ == octal_text(
            literal_value(input@)->0 as u64,
        )),
{
    let value = value_from_string(input.clone())?;
    Ok(render_octal(value))
}

} // verus!
