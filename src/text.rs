//! Decimal and hexadecimal text for event descriptions.

use vstd::prelude::*;
use vstd::string::StringExecFns;

verus! {

/// The character of a digit value below 16: `0`-`9`, then `a`-`f`.
pub open spec fn digit_char(d: nat) -> char {
    if d == 0 {
        '0'
    } else if d == 1 {
        '1'
    } else if d == 2 {
        '2'
    } else if d == 3 {
        '3'
    } else if d == 4 {
        '4'
    } else if d == 5 {
        '5'
    } else if d == 6 {
        '6'
    } else if d == 7 {
        '7'
    } else if d == 8 {
        '8'
    } else if d == 9 {
        '9'
    } else if d == 10 {
        'a'
    } else if d == 11 {
        'b'
    } else if d == 12 {
        'c'
    } else if d == 13 {
        'd'
    } else if d == 14 {
        'e'
    } else {
        'f'
    }
}

/// `n` written in decimal, without leading zeros.
pub open spec fn decimal(n: nat) -> Seq<char>
    decreases n,
{
    if n < 10 {
        seq![digit_char(n)]
    } else {
        decimal(n / 10).push(digit_char(n % 10))
    }
}

/// `b` as two lowercase hexadecimal digits.
pub open spec fn hex2(b: u8) -> Seq<char> {
    seq![digit_char(b as nat / 16), digit_char(b as nat % 16)]
}

/// The bytes as two-digit hexadecimal numbers separated by single spaces.
pub open spec fn hex_list(bytes: Seq<u8>) -> Seq<char>
    decreases bytes.len(),
{
    if bytes.len() == 0 {
        Seq::empty()
    } else if bytes.len() == 1 {
        hex2(bytes[0])
    } else {
        hex_list(bytes.drop_last()) + seq![' '] + hex2(bytes.last())
    }
}

fn digit_str(d: u32) -> (r: &'static str)
    requires
        d < 16,
    ensures
        r@ == seq![digit_char(d as nat)],
{
    proof {
        reveal_strlit("0");
        reveal_strlit("1");
        reveal_strlit("2");
        reveal_strlit("3");
        reveal_strlit("4");
        reveal_strlit("5");
        reveal_strlit("6");
        reveal_strlit("7");
        reveal_strlit("8");
        reveal_strlit("9");
        reveal_strlit("a");
        reveal_strlit("b");
        reveal_strlit("c");
        reveal_strlit("d");
        reveal_strlit("e");
        reveal_strlit("f");
    }
    if d == 0 {
        "0"
    } else if d == 1 {
        "1"
    } else if d == 2 {
        "2"
    } else if d == 3 {
        "3"
    } else if d == 4 {
        "4"
    } else if d == 5 {
        "5"
    } else if d == 6 {
        "6"
    } else if d == 7 {
        "7"
    } else if d == 8 {
        "8"
    } else if d == 9 {
        "9"
    } else if d == 10 {
        "a"
    } else if d == 11 {
        "b"
    } else if d == 12 {
        "c"
    } else if d == 13 {
        "d"
    } else if d == 14 {
        "e"
    } else {
        "f"
    }
}

/// Appends `n` in decimal.
pub fn push_decimal(s: &mut String, n: u32)
    ensures
        final(s)@ == old(s)@ + decimal(n as nat),
    decreases n,
{
    if n >= 10 {
        push_decimal(s, n / 10);
    }
    s.append(digit_str(n % 10));
    assert(final(s)@ =~= old(s)@ + decimal(n as nat));
}

/// Appends `bytes` as hexadecimal numbers separated by spaces.
pub fn push_hex_list(s: &mut String, bytes: &[u8])
    ensures
        final(s)@ == old(s)@ + hex_list(bytes@),
{
    let mut i: usize = 0;
    while i < bytes.len()
        invariant
            i <= bytes@.len(),
            s@ == old(s)@ + hex_list(bytes@.subrange(0, i as int)),
        decreases bytes@.len() - i,
    {
        let b = bytes[i];
        let ghost before = s@;
        if i > 0 {
            s.append(" ");
            proof {
                reveal_strlit(" ");
            }
        }
        s.append(digit_str((b / 16) as u32));
        s.append(digit_str((b % 16) as u32));
        proof {
            let pre = bytes@.subrange(0, i as int);
            let cur = bytes@.subrange(0, i + 1 as int);
            assert(cur.drop_last() =~= pre);
            assert(cur.last() == b);
            if i == 0 {
                assert(s@ =~= before + hex2(b));
            } else {
                assert(s@ =~= before + seq![' '] + hex2(b));
            }
            assert(s@ =~= old(s)@ + hex_list(cur));
        }
        i = i + 1;
    }
    assert(bytes@.subrange(0, i as int) =~= bytes@);
}

} // verus!
