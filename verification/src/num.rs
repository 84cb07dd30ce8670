use vstd::prelude::*;

use crate::text::push_char;

verus! {

/// The character for one digit value, in the usual lower-case alphabet.
pub open spec fn digit_char(d: int) -> char {
    if d == 0 {
        '0'
    } else if d == 1 {
        '1'
    } else if d == 2 {
        '2'
    } else if d == 3 {
        '3'
    } else if d == 4 {
        '4'
    } else if d == 5 {
        '5'
    } else if d == 6 {
        '6'
    } else if d == 7 {
        '7'
    } else if d == 8 {
        '8'
    } else if d == 9 {
        '9'
    } else if d == 10 {
        'a'
    } else if d == 11 {
        'b'
    } else if d == 12 {
        'c'
    } else if d == 13 {
        'd'
    } else if d == 14 {
        'e'
    } else {
        'f'
    }
}

fn digit_char_exec(d: u8) -> (c: char)
    requires
        d < 16,
    ensures
        c == digit_char(d as int),
{
    match d {
        0 => '0',
        1 => '1',
        2 => '2',
        3 => '3',
        4 => '4',
        5 => '5',
        6 => '6',
        7 => '7',
        8 => '8',
        9 => '9',
        10 => 'a',
        11 => 'b',
        12 => 'c',
        13 => 'd',
        14 => 'e',
        _ => 'f',
    }
}

/// The octal digits of a number, empty for zero.
pub open spec fn spec_octal(n: nat) -> Seq<char>
    decreases n,
{
    if n == 0 {
        Seq::empty()
    } else {
        spec_octal(n / 8).push(digit_char((n % 8) as int))
    }
}

/// The octal rendering of a number, as core::fmt writes it.
pub open spec fn octal_repr(n: nat) -> Seq<char> {
    if n == 0 {
        seq!['0']
    } else {
        spec_octal(n)
    }
}

/// The hexadecimal digits of a number, empty for zero.
pub open spec fn spec_hex(n: nat) -> Seq<char>
    decreases n,
{
    if n == 0 {
        Seq::empty()
    } else {
        spec_hex(n / 16).push(digit_char((n % 16) as int))
    }
}

/// The lower-case hexadecimal rendering of a number, as core::fmt writes it.
pub open spec fn hex_repr(n: nat) -> Seq<char> {
    if n == 0 {
        seq!['0']
    } else {
        spec_hex(n)
    }
}

/// The decimal digits of a number, empty for zero.
pub open spec fn spec_dec(n: nat) -> Seq<char>
    decreases n,
{
    if n == 0 {
        Seq::empty()
    } else {
        spec_dec(n / 10).push(digit_char((n % 10) as int))
    }
}

/// The decimal rendering of a number.
pub open spec fn dec_repr(n: nat) -> Seq<char> {
    if n == 0 {
        seq!['0']
    } else {
        spec_dec(n)
    }
}

fn push_octal(n: u64, out: &mut String)
    ensures
        final(out)@ == old(out)@ + spec_octal(n as nat),
    decreases n,
{
    if n > 0 {
        push_octal(n / 8, out);
        push_char(out, digit_char_exec((n % 8) as u8));
        proof {
            assert(old(out)@ + spec_octal(n as nat) =~= (old(out)@ + spec_octal(
                (n / 8) as nat,
            )).push(digit_char((n % 8) as int)));
        }
    } else {
        proof {
            assert(old(out)@ + spec_octal(0) =~= old(out)@);
        }
    }
}

/// Renders a number in octal.
pub fn format_octal_u64(n: u64) -> (r: String)
    ensures
        r@ == octal_repr(n as nat),
{
    let mut out = String::new();
    if n == 0 {
        push_char(&mut out, '0');
        proof {
            assert(Seq::<char>::empty().push('0') =~= seq!['0']);
        }
    } else {
        push_octal(n, &mut out);
        proof {
            assert(Seq::<char>::empty() + spec_octal(n as nat) =~= spec_octal(n as nat));
        }
    }
    out
}

fn push_hex(n: u64, out: &mut String)
    ensures
        final(out)@ == old(out)@ + spec_hex(n as nat),
    decreases n,
{
    if n > 0 {
        push_hex(n / 16, out);
        push_char(out, digit_char_exec((n % 16) as u8));
        proof {
            assert(old(out)@ + spec_hex(n as nat) =~= (old(out)@ + spec_hex(
                (n / 16) as nat,
            )).push(digit_char((n % 16) as int)));
        }
    } else {
        proof {
            assert(old(out)@ + spec_hex(0) =~= old(out)@);
        }
    }
}

/// Renders a number in lower-case hexadecimal.
pub fn format_hex_u64(n: u64) -> (r: String)
    ensures
        r@ == hex_repr(n as nat),
{
    let mut out = String::new();
    if n == 0 {
        push_char(&mut out, '0');
        proof {
            assert(Seq::<char>::empty().push('0') =~= seq!['0']);
        }
    } else {
        push_hex(n, &mut out);
        proof {
            assert(Seq::<char>::empty() + spec_hex(n as nat) =~= spec_hex(n as nat));
        }
    }
    out
}

fn push_dec(n: u128, out: &mut String)
    ensures
        final(out)@ == old(out)@ + spec_dec(n as nat),
    decreases n,
{
    if n > 0 {
        push_dec(n / 10, out);
        push_char(out, digit_char_exec((n % 10) as u8));
        proof {
            assert(old(out)@ + spec_dec(n as nat) =~= (old(out)@ + spec_dec(
                (n / 10) as nat,
            )).push(digit_char((n % 10) as int)));
        }
    } else {
        proof {
            assert(old(out)@ + spec_dec(0) =~= old(out)@);
        }
    }
}

/// Renders a number in decimal.
pub fn format_dec_u128(n: u128) -> (r: String)
    ensures
        r@ == dec_repr(n as nat),
{
    let mut out = String::new();
    if n == 0 {
        push_char(&mut out, '0');
        proof {
            assert(Seq::<char>::empty().push('0') =~= seq!['0']);
        }
    } else {
        push_dec(n, &mut out);
        proof {
            assert(Seq::<char>::empty() + spec_dec(n as nat) =~= spec_dec(n as nat));
        }
    }
    out
}

/// A decimal digit character.
pub open spec fn is_dec_digit(c: char) -> bool {
    48 <= (c as u32) <= 57
}

/// The numeric value of one decimal digit character.
pub open spec fn dec_digit_val(c: char) -> int {
    (c as u32) - 48
}

/// The value of a sequence of decimal digit characters.
pub open spec fn dec_value(s: Seq<char>) -> int
    decreases s.len(),
{
    if s.len() == 0 {
        0
    } else {
        dec_value(s.drop_last()) * 10 + dec_digit_val(s.last())
    }
}

/// All characters of the sequence are decimal digits.
pub open spec fn all_dec_digits(s: Seq<char>) -> bool {
    forall|k: int| 0 <= k < s.len() ==> is_dec_digit(s[k])
}

proof fn dec_value_nonneg(s: Seq<char>)
    requires
        all_dec_digits(s),
    ensures
        dec_value(s) >= 0,
    decreases s.len(),
{
    if s.len() > 0 {
        assert(all_dec_digits(s.drop_last()));
        dec_value_nonneg(s.drop_last());
        assert(dec_value(s.drop_last()) * 10 >= 0) by (nonlinear_arith)
            requires
                dec_value(s.drop_last()) >= 0,
        ;
    }
}

proof fn dec_value_prefix_le(s: Seq<char>, i: int)
    requires
        all_dec_digits(s),
        0 <= i <= s.len(),
    ensures
        dec_value(s.take(i)) <= dec_value(s),
    decreases s.len() - i,
{
    if i < s.len() {
        dec_value_prefix_le(s, i + 1);
        let t = s.take(i + 1);
        assert(t.drop_last() =~= s.take(i));
        assert(all_dec_digits(s.take(i)));
        dec_value_nonneg(s.take(i));
        assert(dec_value(s.take(i)) * 10 >= dec_value(s.take(i))) by (nonlinear_arith)
            requires
                dec_value(s.take(i)) >= 0,
        ;
    } else {
        assert(s.take(i) =~= s);
    }
}

/// Parses an unsigned decimal integer, exactly when the whole string is a
/// digit sequence whose value fits the type.
pub fn parse_u128(s: &str) -> (r: Option<u128>)
    ensures
        r is Some <==> s@.len() > 0 && all_dec_digits(s@) && dec_value(s@) <= u128::MAX,
        r matches Some(v) ==> v == dec_value(s@),
{
    let len = s.unicode_len();
    if len == 0 {
        return None;
    }
    let mut acc: u128 = 0;
    let mut i: usize = 0;
    while i < len
        invariant
            0 < len == s@.len(),
            i <= len,
            all_dec_digits(s@.take(i as int)),
            acc == dec_value(s@.take(i as int)),
        decreases len - i,
    {
        let c = s.get_char(i);
        let code = c as u32;
        if code < 48 || code > 57 {
            assert(!is_dec_digit(s@[i as int]));
            return None;
        }
        let d = (code - 48) as u128;
        proof {
            assert(s@.take(i + 1).drop_last() =~= s@.take(i as int));
        }
        if acc > (u128::MAX - d) / 10 {
            proof {
                assert(acc * 10 + d > u128::MAX) by (nonlinear_arith)
                    requires
                        acc > (u128::MAX - d) / 10,
                        0 <= d <= 9,
                ;
                assert(dec_value(s@.take(i + 1)) > u128::MAX);
                if all_dec_digits(s@) {
                    dec_value_prefix_le(s@, i + 1);
                }
            }
            return None;
        }
        proof {
            assert(acc * 10 + d <= u128::MAX) by (nonlinear_arith)
                requires
                    acc <= (u128::MAX - d) / 10,
                    0 <= d <= 9,
            ;
        }
        acc = acc * 10 + d;
        i = i + 1;
    }
    proof {
        assert(s@.take(len as int) =~= s@);
    }
    Some(acc)
}

/// Rendering a number in decimal and reading it back yields the same number.
pub proof fn lemma_dec_roundtrip(n: nat)
    ensures
        dec_repr(n).len() > 0,
        all_dec_digits(dec_repr(n)),
        dec_value(dec_repr(n)) == n,
{
    lemma_spec_dec_value(n);
    if n == 0 {
        assert(dec_repr(0) == seq!['0']);
        assert(dec_value(seq!['0']) == dec_value(seq!['0'].drop_last()) * 10 + dec_digit_val('0'));
        assert(seq!['0'].drop_last() =~= Seq::<char>::empty());
    }
}

proof fn lemma_spec_dec_value(n: nat)
    ensures
        all_dec_digits(spec_dec(n)),
        dec_value(spec_dec(n)) == n,
        n > 0 ==> spec_dec(n).len() > 0,
    decreases n,
{
    if n > 0 {
        lemma_spec_dec_value(n / 10);
        let s = spec_dec(n);
        assert(s.drop_last() =~= spec_dec(n / 10));
        assert(is_dec_digit(digit_char((n % 10) as int)));
        assert(dec_digit_val(digit_char((n % 10) as int)) == n % 10);
        assert((n / 10) * 10 + n % 10 == n) by (nonlinear_arith);
    }
}

} // verus!
