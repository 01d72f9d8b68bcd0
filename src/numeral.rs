use vstd::prelude::*;
use vstd::string::*;
use vstd::arithmetic::div_mod::*;

verus! {

/// The digit characters of every radix up to sixteen, in lowercase.
pub open spec fn digit_alphabet() -> Seq<char> {
    seq!['0', '1', '2', '3', '4', '5', '6', '7', '8', '9', 'a', 'b', 'c', 'd', 'e', 'f']
}

/// The character that writes the digit `d` (for `d < 16`).
pub open spec fn digit_char(d: nat) -> char {
    digit_alphabet()[d as int]
}

/// The value of `c` read as a digit: `0`-`9`, then `a`-`z` (or `A`-`Z`) for 10 to 35.
/// Any other character gets 36, which is no digit in any radix up to 36.
pub open spec fn digit_value(c: char) -> nat {
    if '0' <= c && c <= '9' {
        (c as int - '0' as int) as nat
    } else if 'a' <= c && c <= 'z' {
        (c as int - 'a' as int + 10) as nat
    } else if 'A' <= c && c <= 'Z' {
        (c as int - 'A' as int + 10) as nat
    } else {
        36
    }
}

/// Every character of `s` is a digit of radix `radix`.
pub open spec fn digits_valid(s: Seq<char>, radix: nat) -> bool {
    forall|i: int| 0 <= i < s.len() ==> #[trigger] digit_value(s[i]) < radix
}

/// The number that the digits `s` write in radix `radix`, most significant first.
pub open spec fn digits_value(s: Seq<char>, radix: nat) -> nat
    decreases s.len(),
{
    if s.len() == 0 {
        0
    } else {
        digits_value(s.drop_last(), radix) * radix + digit_value(s.last())
    }
}

/// The shortest digit string of `n` in radix `radix` (2 to 16), lowercase,
/// most significant digit first; zero is written `0`.
pub open spec fn radix_digits(n: nat, radix: nat) -> Seq<char>
    decreases n,
{
    if radix < 2 || radix > 16 {
        Seq::empty()
    } else if n < radix {
        seq![digit_char(n)]
    } else {
        proof {
            lemma_div_decreases(n as int, radix as int);
        }
        radix_digits(n / radix, radix).push(digit_char(n % radix))
    }
}

/// The digit characters read back give the digit they write.
pub proof fn lemma_digit_char_value(d: nat)
    requires
        d < 16,
    ensures
        digit_value(digit_char(d)) == d,
{
    assert(d == 0 || d == 1 || d == 2 || d == 3 || d == 4 || d == 5 || d == 6 || d == 7 || d == 8
        || d == 9 || d == 10 || d == 11 || d == 12 || d == 13 || d == 14 || d == 15);
}

/// Writing `n` in radix `radix` and reading the digits back gives `n`;
/// the digits are valid in that radix and there is at least one.
pub proof fn lemma_radix_digits_value(n: nat, radix: nat)
    requires
        2 <= radix <= 16,
    ensures
        radix_digits(n, radix).len() > 0,
        digits_valid(radix_digits(n, radix), radix),
        digits_value(radix_digits(n, radix), radix) == n,
    decreases n,
{
    let s = radix_digits(n, radix);
    if n < radix {
        lemma_digit_char_value(n);
        assert(s.drop_last() =~= Seq::<char>::empty());
        assert(digits_value(s.drop_last(), radix) == 0);
        assert(digits_value(s, radix) == 0 * radix + digit_value(s.last()));
    } else {
        lemma_div_decreases(n as int, radix as int);
        lemma_radix_digits_value(n / radix, radix);
        lemma_fundamental_div_mod(n as int, radix as int);
        lemma_mod_bound(n as int, radix as int);
        lemma_digit_char_value(n % radix);
        let p = radix_digits(n / radix, radix);
        assert(s.drop_last() =~= p);
        assert(s.last() == digit_char(n % radix));
        assert(digits_value(s, radix) == digits_value(p, radix) * radix + digit_value(s.last()));
        assert(digits_value(s, radix) == (n / radix) * radix + n % radix);
        assert forall|i: int| 0 <= i < s.len() implies #[trigger] digit_value(s[i]) < radix by {
            if i < p.len() {
                assert(s[i] == p[i]);
            }
        }
    }
}

/// The value of the digit `c`, as `digit_value` gives it.
pub fn char_digit(c: char) -> (r: u32)
    ensures
        r == digit_value(c),
{
    if '0' <= c && c <= '9' {
        c as u32 - '0' as u32
    } else if 'a' <= c && c <= 'z' {
        c as u32 - 'a' as u32 + 10
    } else if 'A' <= c && c <= 'Z' {
        c as u32 - 'A' as u32 + 10
    } else {
        36
    }
}

/// Appends the character of the digit `d` to `out`.
pub fn push_digit(out: &mut String, d: u64)
    requires
        d < 16,
    ensures
        final(out)@ == old(out)@.push(digit_char(d as nat)),
{
    let alphabet = "0123456789abcdef";
    proof {
        reveal_strlit("0123456789abcdef");
    }
    assert(alphabet.is_ascii());
    let piece = alphabet.substring_ascii(d as usize, d as usize + 1);
    assert(piece@ =~= seq![digit_char(d as nat)]);
    out.append(piece);
}

/// Appends the digits of `n` in radix `radix` to `out`.
pub fn push_radix_digits(out: &mut String, n: u64, radix: u64)
    requires
        2 <= radix <= 16,
    ensures
        final(out)@ == old(out)@ + radix_digits(n as nat, radix as nat),
    decreases n,
{
    if n < radix {
        push_digit(out, n);
        assert(radix_digits(n as nat, radix as nat) =~= seq![digit_char(n as nat)]);
    } else {
        proof {
            lemma_div_decreases(n as int, radix as int);
            lemma_mod_bound(n as int, radix as int);
        }
        push_radix_digits(out, n / radix, radix);
        push_digit(out, n % radix);
        assert(final(out)@ =~= old(out)@ + radix_digits(n as nat, radix as nat));
    }
}

} // verus!
