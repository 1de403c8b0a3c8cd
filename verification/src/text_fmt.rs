//! Decimal and hexadecimal rendering of integers into `String`s, the
//! pieces messages and reports are assembled from.

use vstd::prelude::*;
use vstd::string::*;

verus! {

/// The digits `0-9A-F`.
pub open spec fn digit_chars() -> Seq<char> {
    seq!['0', '1', '2', '3', '4', '5', '6', '7', '8', '9', 'A', 'B', 'C', 'D', 'E', 'F']
}

/// Decimal digits of `n`, most significant first, no leading zeros.
pub open spec fn dec_digits(n: nat) -> Seq<char>
    decreases n,
{
    if n < 10 {
        seq![digit_chars()[n as int]]
    } else {
        dec_digits(n / 10).push(digit_chars()[(n % 10) as int])
    }
}

/// Upper-case hexadecimal digits of `n`, no leading zeros.
pub open spec fn hex_digits(n: nat) -> Seq<char>
    decreases n,
{
    if n < 16 {
        seq![digit_chars()[n as int]]
    } else {
        hex_digits(n / 16).push(digit_chars()[(n % 16) as int])
    }
}

/// `s` left-padded with `'0'` to at least `width` chars.
pub open spec fn zero_pad(s: Seq<char>, width: nat) -> Seq<char> {
    if s.len() < width {
        Seq::new((width - s.len()) as nat, |i: int| '0') + s
    } else {
        s
    }
}

/// The one-char string of digit `d`.
pub fn digit_str(d: u8) -> (r: &'static str)
    requires
        d < 16,
    ensures
        r@ == seq![digit_chars()[d as int]],
{
    match d {
        0 => { proof { reveal_strlit("0"); } "0" },
        1 => { proof { reveal_strlit("1"); } "1" },
        2 => { proof { reveal_strlit("2"); } "2" },
        3 => { proof { reveal_strlit("3"); } "3" },
        4 => { proof { reveal_strlit("4"); } "4" },
        5 => { proof { reveal_strlit("5"); } "5" },
        6 => { proof { reveal_strlit("6"); } "6" },
        7 => { proof { reveal_strlit("7"); } "7" },
        8 => { proof { reveal_strlit("8"); } "8" },
        9 => { proof { reveal_strlit("9"); } "9" },
        10 => { proof { reveal_strlit("A"); } "A" },
        11 => { proof { reveal_strlit("B"); } "B" },
        12 => { proof { reveal_strlit("C"); } "C" },
        13 => { proof { reveal_strlit("D"); } "D" },
        14 => { proof { reveal_strlit("E"); } "E" },
        _ => { proof { reveal_strlit("F"); } "F" },
    }
}

/// Append the decimal form of `n` to `out`.
pub fn push_decimal(out: &mut String, n: u64)
    ensures
        final(out)@ == old(out)@ + dec_digits(n as nat),
    decreases n,
{
    if n >= 10 {
        push_decimal(out, n / 10);
    }
    let ghost before = out@;
    out.append(digit_str((n % 10) as u8));
    proof {
        assert(out@ =~= old(out)@ + dec_digits(n as nat));
    }
}

/// Append the upper-case hexadecimal form of `n` to `out`.
pub fn push_hex(out: &mut String, n: u64)
    ensures
        final(out)@ == old(out)@ + hex_digits(n as nat),
    decreases n,
{
    if n >= 16 {
        push_hex(out, n / 16);
    }
    out.append(digit_str((n % 16) as u8));
    proof {
        assert(out@ =~= old(out)@ + hex_digits(n as nat));
    }
}

/// Number of hexadecimal digits of `n`.
pub proof fn lemma_hex_len(n: nat)
    ensures
        hex_digits(n).len() >= 1,
        n < 16 ==> hex_digits(n).len() == 1,
        16 <= n < 256 ==> hex_digits(n).len() == 2,
        256 <= n < 4096 ==> hex_digits(n).len() == 3,
    decreases n,
{
    if n >= 16 {
        lemma_hex_len(n / 16);
    }
}

/// Four or more hexadecimal digits from 4096 on.
pub proof fn lemma_hex_big(n: nat)
    requires
        n >= 4096,
    ensures
        hex_digits(n).len() >= 4,
    decreases n,
{
    lemma_hex_len(n / 16);
    if n / 16 >= 4096 {
        lemma_hex_big(n / 16);
    }
}

/// Append `n` in upper-case hexadecimal, zero-padded to four digits.
pub fn push_hex4(out: &mut String, n: u64)
    ensures
        final(out)@ == old(out)@ + zero_pad(hex_digits(n as nat), 4),
{
    proof {
        lemma_hex_len(n as nat);
    }
    let ghost before = out@;
    if n < 16 {
        out.append(digit_str(0));
        out.append(digit_str(0));
        out.append(digit_str(0));
    } else if n < 256 {
        out.append(digit_str(0));
        out.append(digit_str(0));
    } else if n < 4096 {
        out.append(digit_str(0));
    }
    let ghost padded = out@;
    push_hex(out, n);
    proof {
        let h = hex_digits(n as nat);
        let zeros = Seq::new((4 - h.len()) as nat, |i: int| '0');
        assert(digit_chars()[0] == '0');
        if n < 16 {
            assert(zeros.len() == 3);
            assert(padded =~= before + zeros);
        } else if n < 256 {
            assert(zeros.len() == 2);
            assert(padded =~= before + zeros);
        } else if n < 4096 {
            assert(zeros.len() == 1);
            assert(padded =~= before + zeros);
        } else {
            lemma_hex_big(n as nat);
            assert(padded =~= before);
        }
        assert(out@ =~= before + zero_pad(h, 4));
    }
}

} // verus!
