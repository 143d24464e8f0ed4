//! Decimal and hexadecimal renderings of machine integers as character
//! sequences, used by the alias generator for collision suffixes (`~1`, `~2`,
//! ...) and for hex-escaping non-ASCII characters.

use vstd::prelude::*;

verus! {

/// The character for one decimal digit.
pub open spec fn dec_digit(d: nat) -> char {
    if d == 0 {
        '0'
    } else if d == 1 {
        '1'
    } else if d == 2 {
        '2'
    } else if d == 3 {
        '3'
    } else if d == 4 {
        '4'
    } else if d == 5 {
        '5'
    } else if d == 6 {
        '6'
    } else if d == 7 {
        '7'
    } else if d == 8 {
        '8'
    } else {
        '9'
    }
}

/// The character for one hexadecimal digit, upper case.
pub open spec fn hex_digit(d: nat) -> char {
    if d < 10 {
        dec_digit(d)
    } else if d == 10 {
        'A'
    } else if d == 11 {
        'B'
    } else if d == 12 {
        'C'
    } else if d == 13 {
        'D'
    } else if d == 14 {
        'E'
    } else {
        'F'
    }
}

/// Decimal rendering of `n`, most significant digit first, no leading zeros
/// (except for `n == 0`, rendered as `0`).
pub open spec fn dec_rep(n: nat) -> Seq<char>
    decreases n,
{
    if n < 10 {
        seq![dec_digit(n)]
    } else {
        dec_rep(n / 10).push(dec_digit(n % 10))
    }
}

/// Hexadecimal rendering of `n`, most significant digit first, no leading
/// zeros (except for `n == 0`).
pub open spec fn hex_rep(n: nat) -> Seq<char>
    decreases n,
{
    if n < 16 {
        seq![hex_digit(n)]
    } else {
        hex_rep(n / 16).push(hex_digit(n % 16))
    }
}

/// Hexadecimal rendering padded to a minimum of two digits, the form used by
/// the transliteration escape (`x0A`, `x7E`, `x305F`, ...).
pub open spec fn hex_rep_min2(n: nat) -> Seq<char> {
    if n < 16 {
        seq!['0'] + hex_rep(n)
    } else {
        hex_rep(n)
    }
}

/// True of the ten decimal digit characters.
pub open spec fn is_dec_digit(c: char) -> bool {
    c == '0' || c == '1' || c == '2' || c == '3' || c == '4' || c == '5' || c == '6' || c == '7'
        || c == '8' || c == '9'
}

/// The numeric value of a decimal digit sequence, most significant first.
pub open spec fn dec_val(s: Seq<char>) -> nat
    decreases s.len(),
{
    if s.len() == 0 {
        0
    } else {
        dec_val(s.drop_last()) * 10 + dec_digit_val(s.last())
    }
}

/// The numeric value of one decimal digit character (0 for a non-digit).
pub open spec fn dec_digit_val(c: char) -> nat {
    if c == '1' {
        1
    } else if c == '2' {
        2
    } else if c == '3' {
        3
    } else if c == '4' {
        4
    } else if c == '5' {
        5
    } else if c == '6' {
        6
    } else if c == '7' {
        7
    } else if c == '8' {
        8
    } else if c == '9' {
        9
    } else {
        0
    }
}

/// Reading a decimal rendering back yields the rendered number.
pub proof fn lemma_dec_rep_val(n: nat)
    ensures
        dec_val(dec_rep(n)) == n,
    decreases n,
{
    if n < 10 {
        let s = dec_rep(n);
        assert(s.len() == 1);
        assert(s.drop_last() =~= Seq::<char>::empty());
        assert(dec_val(Seq::<char>::empty()) == 0);
        assert(s.last() == dec_digit(n));
        assert(dec_digit_val(dec_digit(n)) == n);
    } else {
        lemma_dec_rep_val(n / 10);
        let s = dec_rep(n);
        assert(s.drop_last() =~= dec_rep(n / 10));
        assert(s.last() == dec_digit(n % 10));
        assert(dec_digit_val(dec_digit(n % 10)) == n % 10);
        assert(dec_val(s) == (n / 10) * 10 + n % 10);
    }
}

/// Distinct numbers have distinct decimal renderings.
pub proof fn lemma_dec_rep_injective(i: nat, j: nat)
    ensures
        dec_rep(i) == dec_rep(j) ==> i == j,
{
    if dec_rep(i) == dec_rep(j) {
        lemma_dec_rep_val(i);
        lemma_dec_rep_val(j);
    }
}

/// Every character of a decimal rendering is a decimal digit.
pub proof fn lemma_dec_rep_digits(n: nat)
    ensures
        forall|k: int| 0 <= k < dec_rep(n).len() ==> is_dec_digit(#[trigger] dec_rep(n)[k]),
    decreases n,
{
    if n >= 10 {
        lemma_dec_rep_digits(n / 10);
    }
    assert forall|k: int| 0 <= k < dec_rep(n).len() implies is_dec_digit(
        #[trigger] dec_rep(n)[k],
    ) by {
        if n < 10 {
            assert(dec_rep(n)[k] == dec_digit(n));
        } else {
            if k < dec_rep(n / 10).len() {
                assert(dec_rep(n)[k] == dec_rep(n / 10)[k]);
            } else {
                assert(dec_rep(n)[k] == dec_digit(n % 10));
            }
        }
    }
}

/// A decimal rendering holds at least one digit.
pub proof fn lemma_dec_rep_len(n: nat)
    ensures
        dec_rep(n).len() >= 1,
    decreases n,
{
    if n >= 10 {
        lemma_dec_rep_len(n / 10);
    }
}

/// Every character of a hexadecimal rendering is an ASCII digit or letter:
/// its code point stays below 128 and it is never `~`.
pub proof fn lemma_hex_rep_chars(n: nat)
    ensures
        forall|k: int|
            0 <= k < hex_rep(n).len() ==> ((#[trigger] hex_rep(n)[k]) as u32) < 128 && hex_rep(
                n,
            )[k] != '~',
    decreases n,
{
    if n >= 16 {
        lemma_hex_rep_chars(n / 16);
    }
    assert forall|k: int| 0 <= k < hex_rep(n).len() implies ((#[trigger] hex_rep(n)[k]) as u32)
        < 128 && hex_rep(n)[k] != '~' by {
        if n < 16 {
            assert(hex_rep(n)[k] == hex_digit(n));
        } else {
            if k < hex_rep(n / 16).len() {
                assert(hex_rep(n)[k] == hex_rep(n / 16)[k]);
            } else {
                assert(hex_rep(n)[k] == hex_digit(n % 16));
            }
        }
    }
}

/// Relies on `String::push`, which appends the given character to the end of
/// the string.
#[verifier::external_body]
pub fn push_char(out: &mut String, c: char)
    ensures
        final(out)@ == old(out)@.push(c),
{
    out.push(c);
}

/// The digit character for `d < 10`.
pub fn dec_digit_exec(d: usize) -> (c: char)
    requires
        d < 10,
    ensures
        c == dec_digit(d as nat),
{
    if d == 0 {
        '0'
    } else if d == 1 {
        '1'
    } else if d == 2 {
        '2'
    } else if d == 3 {
        '3'
    } else if d == 4 {
        '4'
    } else if d == 5 {
        '5'
    } else if d == 6 {
        '6'
    } else if d == 7 {
        '7'
    } else if d == 8 {
        '8'
    } else {
        '9'
    }
}

/// The digit character for `d < 16`, upper case.
pub fn hex_digit_exec(d: u32) -> (c: char)
    requires
        d < 16,
    ensures
        c == hex_digit(d as nat),
{
    if d < 10 {
        dec_digit_exec(d as usize)
    } else if d == 10 {
        'A'
    } else if d == 11 {
        'B'
    } else if d == 12 {
        'C'
    } else if d == 13 {
        'D'
    } else if d == 14 {
        'E'
    } else {
        'F'
    }
}

/// Appends the decimal rendering of `n` to `out`.
pub fn push_dec(out: &mut String, n: usize)
    ensures
        final(out)@ == old(out)@ + dec_rep(n as nat),
    decreases n,
{
    if n >= 10 {
        push_dec(out, n / 10);
    }
    push_char(out, dec_digit_exec(n % 10));
    proof {
        if n < 10 {
            assert(old(out)@ + dec_rep(n as nat) =~= old(out)@.push(dec_digit(n as nat)));
        } else {
            assert(old(out)@ + dec_rep(n as nat) =~= (old(out)@ + dec_rep(
                (n / 10) as nat,
            )).push(dec_digit((n % 10) as nat)));
        }
    }
}

/// Appends the hexadecimal rendering of `n` to `out`.
pub fn push_hex(out: &mut String, n: u32)
    ensures
        final(out)@ == old(out)@ + hex_rep(n as nat),
    decreases n,
{
    if n >= 16 {
        push_hex(out, n / 16);
    }
    push_char(out, hex_digit_exec(n % 16));
    proof {
        if n < 16 {
            assert(old(out)@ + hex_rep(n as nat) =~= old(out)@.push(hex_digit(n as nat)));
        } else {
            assert(old(out)@ + hex_rep(n as nat) =~= (old(out)@ + hex_rep(
                (n / 16) as nat,
            )).push(hex_digit((n % 16) as nat)));
        }
    }
}

/// Appends the two-digit-minimum hexadecimal rendering of `n` to `out`.
pub fn push_hex_min2(out: &mut String, n: u32)
    ensures
        final(out)@ == old(out)@ + hex_rep_min2(n as nat),
{
    if n < 16 {
        push_char(out, '0');
    }
    push_hex(out, n);
    proof {
        if n < 16 {
            assert(old(out)@ + hex_rep_min2(n as nat) =~= old(out)@.push('0') + hex_rep(
                n as nat,
            ));
        }
    }
}

} // verus!
