//! Decimal and hexadecimal text rendering for identifiers and counters.
//!
//! Wire messages carry connection identifiers (128-bit values shown in the
//! usual hyphenated hexadecimal form) and decimal numbers (poll ids, vote
//! counts).  The renderers here are verified against the spec functions that
//! define those textual forms character by character.

use vstd::prelude::*;
use vstd::string::StrSliceExecFns;
use vstd::string::StringExecFns;

verus! {

/// The character for one decimal digit value.
pub open spec fn dec_digit(d: int) -> char
    recommends
        0 <= d < 10,
{
    if d == 0 {
        '0'
    } else if d == 1 {
        '1'
    } else if d == 2 {
        '2'
    } else if d == 3 {
        '3'
    } else if d == 4 {
        '4'
    } else if d == 5 {
        '5'
    } else if d == 6 {
        '6'
    } else if d == 7 {
        '7'
    } else if d == 8 {
        '8'
    } else {
        '9'
    }
}

/// The decimal digits of `n`, most significant first, no leading zeros
/// (a single `'0'` for zero).
pub open spec fn dec_digits(n: nat) -> Seq<char>
    decreases n,
{
    if n < 10 {
        seq![dec_digit(n as int)]
    } else {
        dec_digits(n / 10).push(dec_digit((n % 10) as int))
    }
}

/// The decimal rendering of a possibly negative integer.
pub open spec fn dec_chars(n: int) -> Seq<char> {
    if n < 0 {
        seq!['-'] + dec_digits((-n) as nat)
    } else {
        dec_digits(n as nat)
    }
}

/// The character for one hexadecimal digit value, lower case.
pub open spec fn hex_digit(d: int) -> char
    recommends
        0 <= d < 16,
{
    if d < 10 {
        dec_digit(d)
    } else if d == 10 {
        'a'
    } else if d == 11 {
        'b'
    } else if d == 12 {
        'c'
    } else if d == 13 {
        'd'
    } else if d == 14 {
        'e'
    } else {
        'f'
    }
}

/// The lowest `w` hexadecimal digits of `n`, most significant first,
/// zero padded to exactly `w` characters.
pub open spec fn hex_fixed(n: int, w: nat) -> Seq<char>
    decreases w,
{
    if w == 0 {
        Seq::empty()
    } else {
        hex_fixed(n / 16, (w - 1) as nat).push(hex_digit(n % 16))
    }
}

/// The hyphenated form of a 128-bit identifier: five groups of 8, 4, 4, 4
/// and 12 lower-case hexadecimal digits, most significant digit first.
pub open spec fn id_chars(n: u128) -> Seq<char> {
    hex_fixed(n as int / 0x1000000000000000000000000, 8) + seq!['-'] + hex_fixed(
        n as int / 0x100000000000000000000,
        4,
    ) + seq!['-'] + hex_fixed(n as int / 0x10000000000000000, 4) + seq!['-'] + hex_fixed(
        n as int / 0x1000000000000,
        4,
    ) + seq!['-'] + hex_fixed(n as int, 12)
}

/// Fixed-width hexadecimal text never contains a space.
proof fn lemma_hex_fixed_no_space(n: int, w: nat)
    ensures
        forall|i: int| 0 <= i < hex_fixed(n, w).len() ==> hex_fixed(n, w)[i] != ' ',
    decreases w,
{
    if w > 0 {
        lemma_hex_fixed_no_space(n / 16, (w - 1) as nat);
        assert(hex_digit(n % 16) != ' ');
        assert forall|i: int| 0 <= i < hex_fixed(n, w).len() implies hex_fixed(n, w)[i]
            != ' ' by {
            if i < hex_fixed(n, w).len() - 1 {
                assert(hex_fixed(n, w)[i] == hex_fixed(n / 16, (w - 1) as nat)[i]);
            }
        }
    }
}

/// The hyphenated text of an identifier never contains a space, so it
/// reads as a single token wherever tokens end at spaces.
pub proof fn lemma_id_chars_no_space(n: u128)
    ensures
        forall|i: int| 0 <= i < id_chars(n).len() ==> id_chars(n)[i] != ' ',
{
    lemma_hex_fixed_no_space(n as int / 0x1000000000000000000000000, 8);
    lemma_hex_fixed_no_space(n as int / 0x100000000000000000000, 4);
    lemma_hex_fixed_no_space(n as int / 0x10000000000000000, 4);
    lemma_hex_fixed_no_space(n as int / 0x1000000000000, 4);
    lemma_hex_fixed_no_space(n as int, 12);
}

fn push_dec_digit(s: &mut String, d: u8)
    requires
        d < 10,
    ensures
        final(s)@ == old(s)@.push(dec_digit(d as int)),
{
    if d == 0 {
        proof {
            reveal_strlit("0");
            assert("0"@ =~= seq![dec_digit(0)]);
        }
        s.append("0");
    } else if d == 1 {
        proof {
            reveal_strlit("1");
            assert("1"@ =~= seq![dec_digit(1)]);
        }
        s.append("1");
    } else if d == 2 {
        proof {
            reveal_strlit("2");
            assert("2"@ =~= seq![dec_digit(2)]);
        }
        s.append("2");
    } else if d == 3 {
        proof {
            reveal_strlit("3");
            assert("3"@ =~= seq![dec_digit(3)]);
        }
        s.append("3");
    } else if d == 4 {
        proof {
            reveal_strlit("4");
            assert("4"@ =~= seq![dec_digit(4)]);
        }
        s.append("4");
    } else if d == 5 {
        proof {
            reveal_strlit("5");
            assert("5"@ =~= seq![dec_digit(5)]);
        }
        s.append("5");
    } else if d == 6 {
        proof {
            reveal_strlit("6");
            assert("6"@ =~= seq![dec_digit(6)]);
        }
        s.append("6");
    } else if d == 7 {
        proof {
            reveal_strlit("7");
            assert("7"@ =~= seq![dec_digit(7)]);
        }
        s.append("7");
    } else if d == 8 {
        proof {
            reveal_strlit("8");
            assert("8"@ =~= seq![dec_digit(8)]);
        }
        s.append("8");
    } else {
        proof {
            reveal_strlit("9");
            assert("9"@ =~= seq![dec_digit(9)]);
        }
        s.append("9");
    }
    proof {
        assert(final(s)@ =~= old(s)@.push(dec_digit(d as int)));
    }
}

fn push_hex_digit(s: &mut String, d: u8)
    requires
        d < 16,
    ensures
        final(s)@ == old(s)@.push(hex_digit(d as int)),
{
    if d < 10 {
        push_dec_digit(s, d);
    } else if d == 10 {
        proof {
            reveal_strlit("a");
            assert("a"@ =~= seq![hex_digit(10)]);
        }
        s.append("a");
    } else if d == 11 {
        proof {
            reveal_strlit("b");
            assert("b"@ =~= seq![hex_digit(11)]);
        }
        s.append("b");
    } else if d == 12 {
        proof {
            reveal_strlit("c");
            assert("c"@ =~= seq![hex_digit(12)]);
        }
        s.append("c");
    } else if d == 13 {
        proof {
            reveal_strlit("d");
            assert("d"@ =~= seq![hex_digit(13)]);
        }
        s.append("d");
    } else if d == 14 {
        proof {
            reveal_strlit("e");
            assert("e"@ =~= seq![hex_digit(14)]);
        }
        s.append("e");
    } else {
        proof {
            reveal_strlit("f");
            assert("f"@ =~= seq![hex_digit(15)]);
        }
        s.append("f");
    }
    proof {
        assert(final(s)@ =~= old(s)@.push(hex_digit(d as int)));
    }
}

/// Appends the decimal digits of `n` to `s`.
pub fn push_u64_dec(s: &mut String, n: u64)
    ensures
        final(s)@ == old(s)@ + dec_digits(n as nat),
    decreases n,
{
    if n >= 10 {
        push_u64_dec(s, n / 10);
        push_dec_digit(s, (n % 10) as u8);
        proof {
            assert(final(s)@ =~= old(s)@ + dec_digits(n as nat));
        }
    } else {
        push_dec_digit(s, n as u8);
        proof {
            assert(final(s)@ =~= old(s)@ + dec_digits(n as nat));
        }
    }
}

/// Appends the decimal rendering of `n` to `s`, with a leading minus sign
/// when `n` is negative.
pub fn push_i32_dec(s: &mut String, n: i32)
    ensures
        final(s)@ == old(s)@ + dec_chars(n as int),
{
    if n < 0 {
        proof {
            reveal_strlit("-");
            assert("-"@ =~= seq!['-']);
        }
        s.append("-");
        let m: u64 = (-(n as i64)) as u64;
        proof {
            assert(m as nat == -(n as int));
        }
        push_u64_dec(s, m);
        proof {
            assert(final(s)@ =~= old(s)@ + dec_chars(n as int));
        }
    } else {
        push_u64_dec(s, n as u64);
    }
}

/// Appends the lowest `w` hexadecimal digits of `n`, zero padded.
pub fn push_hex_fixed(s: &mut String, n: u128, w: u32)
    ensures
        final(s)@ == old(s)@ + hex_fixed(n as int, w as nat),
    decreases w,
{
    if w > 0 {
        push_hex_fixed(s, n / 16, w - 1);
        push_hex_digit(s, (n % 16) as u8);
        proof {
            assert(final(s)@ =~= old(s)@ + hex_fixed(n as int, w as nat));
        }
    } else {
        proof {
            assert(final(s)@ =~= old(s)@ + hex_fixed(n as int, 0));
        }
    }
}

/// Appends the hyphenated form of the identifier `n` to `s`.
pub fn push_id(s: &mut String, n: u128)
    ensures
        final(s)@ == old(s)@ + id_chars(n),
{
    proof {
        reveal_strlit("-");
        assert("-"@ =~= seq!['-']);
    }
    push_hex_fixed(s, n / 0x1000000000000000000000000, 8);
    s.append("-");
    push_hex_fixed(s, n / 0x100000000000000000000, 4);
    s.append("-");
    push_hex_fixed(s, n / 0x10000000000000000, 4);
    s.append("-");
    push_hex_fixed(s, n / 0x1000000000000, 4);
    s.append("-");
    push_hex_fixed(s, n, 12);
    proof {
        assert(final(s)@ =~= old(s)@ + id_chars(n));
    }
}

/// The hyphenated text of the identifier `n`.
pub fn id_string(n: u128) -> (r: String)
    ensures
        r@ == id_chars(n),
{
    let mut s = String::new();
    push_id(&mut s, n);
    proof {
        assert(s@ =~= id_chars(n));
    }
    s
}

} // verus!
