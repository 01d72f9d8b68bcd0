use vstd::prelude::*;
use crate::error::BitsError;
use crate::numeral::{char_digit, digit_value, digits_valid, digits_value};

verus! {

/// The radix that the first two characters of a literal select:
/// `0x` for sixteen, `0o` for eight, anything else for ten.
pub open spec fn literal_radix(s: Seq<char>) -> nat {
    if s.len() >= 2 && s[0] == '0' && s[1] == 'x' {
        16
    } else if s.len() >= 2 && s[0] == '0' && s[1] == 'o' {
        8
    } else {
        10
    }
}

/// The digits of a literal: what follows a `0x` or `0o` prefix, or the whole text.
pub open spec fn literal_digits(s: Seq<char>) -> Seq<char> {
    if literal_radix(s) == 10 {
        s
    } else {
        s.subrange(2, s.len() as int)
    }
}

/// The value that a literal denotes, if it denotes one: its digits must be
/// non-empty, valid in the selected radix, and write a number below 2^64.
pub open spec fn literal_value(s: Seq<char>) -> Option<nat> {
    let ds = literal_digits(s);
    let radix = literal_radix(s);
    if ds.len() > 0 && digits_valid(ds, radix) && digits_value(ds, radix) <= u64::MAX {
        Some(digits_value(ds, radix))
    } else {
        None
    }
}

/// Reads a literal (`0x` hex, `0o` octal, or plain decimal) as a `u64`.
pub fn value_from_string(input: String) -> (r: Result<u64, BitsError>)
    ensures
        r matches Ok(v) ==> literal_value(input@) == Some(v as nat),
        r matches Err(e) ==> literal_value(input@) is None && e == BitsError::Parse,
        literal_value(input@) is None <==> r is Err,
{
    let mut chars: Vec<char> = Vec::new();
    for c in it: input.as_str().chars()
        invariant
            chars@ =~= it.seq().take(it.index() as int),
    {
        chars.push(c);
    }
    assert(chars@ =~= input@);
    let n = chars.len();
    let mut radix: u64 = 10;
    let mut start: usize = 0;
    if n >= 2 && chars[0] == '0' && chars[1] == 'x' {
        radix = 16;
        start = 2;
    } else if n >= 2 && chars[0] == '0' && chars[1] == 'o' {
        radix = 8;
        start = 2;
    }
    let ghost ds = chars@.subrange(start as int, n as int);
    assert(radix == literal_radix(input@));
    assert(ds =~= literal_digits(input@));
    if start == n {
        return Err(BitsError::Parse);
    }
    let mut acc: u64 = 0;
    let mut overflow = false;
    let mut i: usize = start;
    while i < n
        invariant
            start <= i <= n,
            n == chars.len(),
            radix == 8 || radix == 10 || radix == 16,
            ds == chars@.subrange(start as int, n as int),
            ds == literal_digits(input@),
            radix == literal_radix(input@),
            digits_valid(chars@.subrange(start as int, i as int), radix as nat),
            !overflow ==> acc == digits_value(chars@.subrange(start as int, i as int), radix as nat),
            overflow ==> digits_value(chars@.subrange(start as int, i as int), radix as nat)
                > u64::MAX,
        decreases n - i,
    {
        let ghost prev = chars@.subrange(start as int, i as int);
        let ghost next = chars@.subrange(start as int, i + 1);
        assert(next.drop_last() =~= prev);
        assert(next.last() == chars@[i as int]);
        let d = char_digit(chars[i]);
        if d as u64 >= radix {
            assert(ds[i - start] == chars@[i as int]);
            assert(digit_value(ds[i - start]) >= radix);
            assert(!digits_valid(ds, radix as nat));
            return Err(BitsError::Parse);
        }
        assert(digits_value(next, radix as nat) == digits_value(prev, radix as nat) * radix + d);
        if !overflow {
            match acc.checked_mul(radix) {
                Some(m) => match m.checked_add(d as u64) {
                    Some(a) => {
                        acc = a;
                    },
                    None => {
                        overflow = true;
                    },
                },
                None => {
                    overflow = true;
                    assert(digits_value(prev, radix as nat) * radix >= 0) by (nonlinear_arith);
                },
            }
        } else {
            assert(digits_value(prev, radix as nat) * radix >= digits_value(prev, radix as nat))
                by (nonlinear_arith)
                requires
                    radix >= 1,
            ;
        }
        assert forall|j: int| 0 <= j < next.len() implies #[trigger] digit_value(next[j])
            < radix by {
            if j < prev.len() {
                assert(next[j] == prev[j]);
            }
        }
        i = i + 1;
    }
    assert(chars@.subrange(start as int, i as int) == ds);
    if overflow {
        Err(BitsError::Parse)
    } else {
        Ok(acc)
    }
}

/// The prefix that selects `radix` in a literal: `0x`, `0o`, or none for ten.
pub open spec fn radix_prefix(radix: nat) -> Seq<char> {
    if radix == 16 {
        seq!['0', 'x']
    } else if radix == 8 {
        seq!['0', 'o']
    } else {
        Seq::empty()
    }
}

/// A literal made of a radix prefix (`0x`, `0o` or none) and non-empty digits valid in
/// that radix denotes the number the digits write, whenever that number fits in 64 bits.
pub proof fn lemma_literal_denotes_digits(radix: nat, ds: Seq<char>)
    requires
        radix == 8 || radix == 10 || radix == 16,
        ds.len() > 0,
        digits_valid(ds, radix),
        digits_value(ds, radix) <= u64::MAX,
    ensures
        literal_value(radix_prefix(radix) + ds) == Some(digits_value(ds, radix)),
{
    let s = radix_prefix(radix) + ds;
    if radix == 10 {
        assert(s =~= ds);
        if ds.len() >= 2 {
            assert(digit_value(ds[1]) < 10);
        }
        assert(literal_radix(s) == 10);
    } else {
        assert(s.subrange(2, s.len() as int) =~= ds);
    }
}

/// A literal is rejected when the digits after the prefix that selects its radix are
/// empty, hold a character that is no digit of that radix, or write a number of 2^64 or more.
pub proof fn lemma_literal_rejected(radix: nat, ds: Seq<char>)
    requires
        radix == 8 || radix == 10 || radix == 16,
        literal_radix(radix_prefix(radix) + ds) == radix,
        ds.len() == 0 || !digits_valid(ds, radix) || digits_value(ds, radix) > u64::MAX,
    ensures
        literal_value(radix_prefix(radix) + ds) is None,
{
    let s = radix_prefix(radix) + ds;
    if radix == 10 {
        assert(s =~= ds);
    } else {
        assert(s.subrange(2, s.len() as int) =~= ds);
    }
}

} // verus!
