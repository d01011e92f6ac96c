//! Numbers and bytes as text: decimal digits and pairs of lowercase
//! hexadecimal digits.

use vstd::prelude::*;
use vstd::string::StringExecFns;

verus! {

/// The character of one decimal or hexadecimal digit, lowercase.
pub open spec fn digit_char(digit: nat) -> char {
    if digit == 0 {
        '0'
    } else if digit == 1 {
        '1'
    } else if digit == 2 {
        '2'
    } else if digit == 3 {
        '3'
    } else if digit == 4 {
        '4'
    } else if digit == 5 {
        '5'
    } else if digit == 6 {
        '6'
    } else if digit == 7 {
        '7'
    } else if digit == 8 {
        '8'
    } else if digit == 9 {
        '9'
    } else if digit == 10 {
        'a'
    } else if digit == 11 {
        'b'
    } else if digit == 12 {
        'c'
    } else if digit == 13 {
        'd'
    } else if digit == 14 {
        'e'
    } else {
        'f'
    }
}

/// The decimal digits of a number, without leading zeros.
pub open spec fn decimal(n: nat) -> Seq<char>
    decreases n,
{
    if n < 10 {
        seq![digit_char(n)]
    } else {
        decimal(n / 10).push(digit_char(n % 10))
    }
}

/// The last `width` decimal digits of a number, with zeros in front where
/// the number has fewer.
pub open spec fn fixed_decimal(n: nat, width: nat) -> Seq<char>
    decreases width,
{
    if width == 0 {
        Seq::empty()
    } else {
        fixed_decimal(n / 10, (width - 1) as nat).push(digit_char(n % 10))
    }
}

/// As many digits as asked for.
pub proof fn lemma_fixed_decimal_len(n: nat, width: nat)
    ensures
        fixed_decimal(n, width).len() == width,
    decreases width,
{
    if width > 0 {
        lemma_fixed_decimal_len(n / 10, (width - 1) as nat);
    }
}

/// The two hexadecimal digits of a byte.
pub open spec fn hex_pair(byte: u8) -> Seq<char> {
    seq![digit_char((byte / 16) as nat), digit_char((byte % 16) as nat)]
}

/// The hexadecimal digits of a byte string: a pair for each byte, with one
/// space between two pairs.
pub open spec fn hex_spaced(bytes: Seq<u8>) -> Seq<char>
    decreases bytes.len(),
{
    if bytes.len() == 0 {
        Seq::empty()
    } else if bytes.len() == 1 {
        hex_pair(bytes[0])
    } else {
        hex_spaced(bytes.drop_last()) + seq![' '] + hex_pair(bytes.last())
    }
}

/// The text of one digit.
fn digit_str(digit: u8) -> (r: &'static str)
    requires
        digit < 16,
    ensures
        r@ == seq![digit_char(digit as nat)],
{
    proof {
        reveal_strlit("0");
        reveal_strlit("1");
        reveal_strlit("2");
        reveal_strlit("3");
        reveal_strlit("4");
        reveal_strlit("5");
        reveal_strlit("6");
        reveal_strlit("7");
        reveal_strlit("8");
        reveal_strlit("9");
        reveal_strlit("a");
        reveal_strlit("b");
        reveal_strlit("c");
        reveal_strlit("d");
        reveal_strlit("e");
        reveal_strlit("f");
    }
    let r = if digit == 0 {
        "0"
    } else if digit == 1 {
        "1"
    } else if digit == 2 {
        "2"
    } else if digit == 3 {
        "3"
    } else if digit == 4 {
        "4"
    } else if digit == 5 {
        "5"
    } else if digit == 6 {
        "6"
    } else if digit == 7 {
        "7"
    } else if digit == 8 {
        "8"
    } else if digit == 9 {
        "9"
    } else if digit == 10 {
        "a"
    } else if digit == 11 {
        "b"
    } else if digit == 12 {
        "c"
    } else if digit == 13 {
        "d"
    } else if digit == 14 {
        "e"
    } else {
        "f"
    };
    assert(r@ =~= seq![digit_char(digit as nat)]);
    r
}

/// Appends the decimal digits of `n` to `out`.
pub fn append_decimal(out: &mut String, n: u64)
    ensures
        final(out)@ == old(out)@ + decimal(n as nat),
    decreases n,
{
    if n >= 10 {
        append_decimal(out, n / 10);
    }
    out.append(digit_str((n % 10) as u8));
    assert(out@ =~= old(out)@ + decimal(n as nat));
}

/// Appends the last `width` decimal digits of `n` to `out`, with zeros in
/// front where `n` has fewer.
pub fn append_fixed_decimal(out: &mut String, n: u64, width: u8)
    ensures
        final(out)@ == old(out)@ + fixed_decimal(n as nat, width as nat),
    decreases width,
{
    if width > 0 {
        append_fixed_decimal(out, n / 10, width - 1);
        out.append(digit_str((n % 10) as u8));
    }
    assert(out@ =~= old(out)@ + fixed_decimal(n as nat, width as nat));
}

/// The decimal digits of `n`.
pub fn decimal_string(n: u64) -> (r: String)
    ensures
        r@ == decimal(n as nat),
{
    let mut out = String::new();
    append_decimal(&mut out, n);
    assert(out@ =~= decimal(n as nat));
    out
}

/// Appends the hexadecimal digits of `bytes` to `out`, a pair for each
/// byte, with one space between two pairs.
pub fn append_hex_spaced(out: &mut String, bytes: &[u8])
    ensures
        final(out)@ == old(out)@ + hex_spaced(bytes@),
{
    let mut i: usize = 0;
    assert(bytes@.take(0) =~= Seq::<u8>::empty());
    assert(out@ =~= old(out)@ + hex_spaced(bytes@.take(0)));
    while i < bytes.len()
        invariant
            i <= bytes.len(),
            out@ == old(out)@ + hex_spaced(bytes@.take(i as int)),
        decreases bytes.len() - i,
    {
        let ghost before = out@;
        if i > 0 {
            proof {
                reveal_strlit(" ");
            }
            out.append(" ");
        }
        let byte = bytes[i];
        out.append(digit_str(byte / 16));
        out.append(digit_str(byte % 16));
        proof {
            let next = bytes@.take(i + 1);
            assert(next.drop_last() =~= bytes@.take(i as int));
            assert(next.last() == byte);
            if i > 0 {
                assert(out@ =~= before + seq![' '] + hex_pair(byte));
            } else {
                assert(out@ =~= before + hex_pair(byte));
                assert(hex_spaced(bytes@.take(0)) =~= Seq::<char>::empty());
            }
            assert(out@ =~= old(out)@ + hex_spaced(next));
        }
        i = i + 1;
    }
    assert(bytes@.take(i as int) =~= bytes@);
}

} // verus!
