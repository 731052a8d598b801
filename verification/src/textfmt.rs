//! Rendering of the numbers and strings that appear in the trajectory
//! document: decimal integers, zero-padded fields, fixed-point values in
//! thousandths, and string content escaped for the document format.

use vstd::prelude::*;

verus! {

/// The character of one decimal digit.
pub open spec fn digit_char(d: int) -> char {
    if d == 0 {
        '0'
    } else if d == 1 {
        '1'
    } else if d == 2 {
        '2'
    } else if d == 3 {
        '3'
    } else if d == 4 {
        '4'
    } else if d == 5 {
        '5'
    } else if d == 6 {
        '6'
    } else if d == 7 {
        '7'
    } else if d == 8 {
        '8'
    } else {
        '9'
    }
}

/// The character of one hexadecimal digit.
pub open spec fn hex_char(d: int) -> char {
    if d < 10 {
        digit_char(d)
    } else if d == 10 {
        'a'
    } else if d == 11 {
        'b'
    } else if d == 12 {
        'c'
    } else if d == 13 {
        'd'
    } else if d == 14 {
        'e'
    } else {
        'f'
    }
}

/// The decimal rendering of a natural number, most significant digit first.
pub open spec fn dec_chars(n: nat) -> Seq<char>
    decreases n,
{
    if n < 10 {
        seq![digit_char(n as int)]
    } else {
        dec_chars(n / 10).push(digit_char((n % 10) as int))
    }
}

/// Decimal rendering padded with zeros to at least two places.
pub open spec fn pad2_chars(n: nat) -> Seq<char> {
    if n < 10 {
        seq!['0', digit_char(n as int)]
    } else {
        dec_chars(n)
    }
}

/// Decimal rendering padded with zeros to at least four places.
pub open spec fn pad4_chars(n: nat) -> Seq<char> {
    if n < 10 {
        seq!['0', '0', '0', digit_char(n as int)]
    } else if n < 100 {
        seq!['0', '0'] + dec_chars(n)
    } else if n < 1000 {
        seq!['0'] + dec_chars(n)
    } else {
        dec_chars(n)
    }
}

/// A count of thousandths rendered as a decimal number with three
/// fractional places.
pub open spec fn umilli_chars(m: nat) -> Seq<char> {
    dec_chars(m / 1000) + seq!['.', digit_char((m / 100 % 10) as int), digit_char(
        (m / 10 % 10) as int,
    ), digit_char((m % 10) as int)]
}

/// A signed count of thousandths rendered as a decimal number.
pub open spec fn milli_chars(v: int) -> Seq<char> {
    if v < 0 {
        seq!['-'] + umilli_chars((-v) as nat)
    } else {
        umilli_chars(v as nat)
    }
}

/// One decimal digit as a borrowed string.
fn digit_str(d: u64) -> (r: &'static str)
    requires
        d < 10,
    ensures
        r@ =~= seq![digit_char(d as int)],
{
    proof {
        reveal_strlit("0");
        reveal_strlit("1");
        reveal_strlit("2");
        reveal_strlit("3");
        reveal_strlit("4");
        reveal_strlit("5");
        reveal_strlit("6");
        reveal_strlit("7");
        reveal_strlit("8");
        reveal_strlit("9");
    }
    match d {
        0 => "0",
        1 => "1",
        2 => "2",
        3 => "3",
        4 => "4",
        5 => "5",
        6 => "6",
        7 => "7",
        8 => "8",
        _ => "9",
    }
}

/// One hexadecimal digit as a borrowed string.
fn hex_str(d: u32) -> (r: &'static str)
    requires
        d < 16,
    ensures
        r@ =~= seq![hex_char(d as int)],
{
    if d < 10 {
        digit_str(d as u64)
    } else {
        proof {
            reveal_strlit("a");
            reveal_strlit("b");
            reveal_strlit("c");
            reveal_strlit("d");
            reveal_strlit("e");
            reveal_strlit("f");
        }
        match d {
            10 => "a",
            11 => "b",
            12 => "c",
            13 => "d",
            14 => "e",
            _ => "f",
        }
    }
}

/// Append the decimal rendering of `n`.
pub fn append_u64(out: &mut String, n: u64)
    ensures
        final(out)@ == old(out)@ + dec_chars(n as nat),
    decreases n,
{
    if n < 10 {
        out.append(digit_str(n));
        proof {
            assert(old(out)@ + seq![digit_char(n as int)] =~= final(out)@);
        }
    } else {
        append_u64(out, n / 10);
        out.append(digit_str(n % 10));
        proof {
            assert(old(out)@ + dec_chars(n as nat) =~= final(out)@);
        }
    }
}

/// Append the decimal rendering of `n`, zero-padded to two places.
pub fn append_pad2(out: &mut String, n: u64)
    ensures
        final(out)@ == old(out)@ + pad2_chars(n as nat),
{
    if n < 10 {
        out.append("0");
        out.append(digit_str(n));
        proof {
            reveal_strlit("0");
            assert(old(out)@ + pad2_chars(n as nat) =~= final(out)@);
        }
    } else {
        append_u64(out, n);
    }
}

/// Append the decimal rendering of `n`, zero-padded to four places.
pub fn append_pad4(out: &mut String, n: u64)
    ensures
        final(out)@ == old(out)@ + pad4_chars(n as nat),
{
    if n < 10 {
        out.append("000");
        out.append(digit_str(n));
        proof {
            reveal_strlit("000");
            assert(old(out)@ + pad4_chars(n as nat) =~= final(out)@);
        }
    } else if n < 100 {
        out.append("00");
        append_u64(out, n);
        proof {
            reveal_strlit("00");
            assert(old(out)@ + pad4_chars(n as nat) =~= final(out)@);
        }
    } else if n < 1000 {
        out.append("0");
        append_u64(out, n);
        proof {
            reveal_strlit("0");
            assert(old(out)@ + pad4_chars(n as nat) =~= final(out)@);
        }
    } else {
        append_u64(out, n);
    }
}

/// Append a count of thousandths as a decimal number with three
/// fractional places.
pub fn append_umilli(out: &mut String, m: u64)
    ensures
        final(out)@ == old(out)@ + umilli_chars(m as nat),
{
    append_u64(out, m / 1000);
    out.append(".");
    out.append(digit_str(m / 100 % 10));
    out.append(digit_str(m / 10 % 10));
    out.append(digit_str(m % 10));
    proof {
        reveal_strlit(".");
        assert(old(out)@ + umilli_chars(m as nat) =~= final(out)@);
    }
}

/// Append a signed count of thousandths as a decimal number.
pub fn append_milli(out: &mut String, v: i64)
    ensures
        final(out)@ == old(out)@ + milli_chars(v as int),
{
    if v < 0 {
        out.append("-");
        let mag: u64 = if v == i64::MIN {
            0x8000_0000_0000_0000u64
        } else {
            (-v) as u64
        };
        assert(mag == -(v as int));
        append_umilli(out, mag);
        proof {
            reveal_strlit("-");
            assert(old(out)@ + milli_chars(v as int) =~= final(out)@);
        }
    } else {
        append_umilli(out, v as u64);
    }
}

/// How one character is written inside a quoted string of the document:
/// quote and backslash get a backslash, control characters are written as
/// a four-digit hexadecimal escape, anything else stands for itself.
pub open spec fn esc_char(c: char) -> Seq<char> {
    if c == '"' {
        seq!['\\', '"']
    } else if c == '\\' {
        seq!['\\', '\\']
    } else if (c as u32) < 0x20 {
        seq!['\\', 'u', '0', '0', hex_char((c as u32) as int / 16), hex_char(
            (c as u32) as int % 16,
        )]
    } else {
        seq![c]
    }
}

/// A whole string escaped for the document format.
pub open spec fn esc_chars(s: Seq<char>) -> Seq<char>
    decreases s.len(),
{
    if s.len() == 0 {
        Seq::empty()
    } else {
        esc_chars(s.drop_last()) + esc_char(s.last())
    }
}

/// Append `s` with every character escaped for the document format.
pub fn append_json_escaped(out: &mut String, s: &str)
    ensures
        final(out)@ == old(out)@ + esc_chars(s@),
{
    let n = s.unicode_len();
    let mut i: usize = 0;
    proof {
        assert(esc_chars(s@.take(0)) =~= Seq::<char>::empty());
        assert(old(out)@ + esc_chars(s@.take(0)) =~= old(out)@);
    }
    while i < n
        invariant
            n == s@.len(),
            0 <= i <= n,
            out@ == old(out)@ + esc_chars(s@.take(i as int)),
        decreases n - i,
    {
        let c = s.get_char(i);
        if c == '"' {
            out.append("\\\"");
            proof {
                reveal_strlit("\\\"");
            }
        } else if c == '\\' {
            out.append("\\\\");
            proof {
                reveal_strlit("\\\\");
            }
        } else {
            let u = c as u32;
            if u < 0x20 {
                out.append("\\u00");
                out.append(hex_str(u / 16));
                out.append(hex_str(u % 16));
                proof {
                    reveal_strlit("\\u00");
                }
            } else {
                let piece = s.substring_char(i, i + 1);
                out.append(piece);
                proof {
                    assert(piece@ =~= seq![c]);
                }
            }
        }
        proof {
            assert(s@.take(i + 1).drop_last() =~= s@.take(i as int));
            assert(s@.take(i + 1).last() == c);
            assert(out@ =~= old(out)@ + esc_chars(s@.take(i + 1)));
        }
        i += 1;
    }
    proof {
        assert(s@.take(n as int) =~= s@);
    }
}

} // verus!
