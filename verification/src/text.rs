//! Numbers as text.

use vstd::prelude::*;
use vstd::string::*;
use crate::util::Sizing;

verus! {

/// The character of the digit `d`, in any base up to 16, small letters for
/// the digits above 9.
pub open spec fn digit_char(d: nat) -> char {
    if d == 0 {
        '0'
    } else if d == 1 {
        '1'
    } else if d == 2 {
        '2'
    } else if d == 3 {
        '3'
    } else if d == 4 {
        '4'
    } else if d == 5 {
        '5'
    } else if d == 6 {
        '6'
    } else if d == 7 {
        '7'
    } else if d == 8 {
        '8'
    } else if d == 9 {
        '9'
    } else if d == 10 {
        'a'
    } else if d == 11 {
        'b'
    } else if d == 12 {
        'c'
    } else if d == 13 {
        'd'
    } else if d == 14 {
        'e'
    } else {
        'f'
    }
}

/// `n` in decimal, the highest digit first, without leading zeros; one zero
/// for 0.
pub open spec fn decimal(n: nat) -> Seq<char>
    decreases n,
{
    if n < 10 {
        seq![digit_char(n)]
    } else {
        decimal(n / 10).push(digit_char(n % 10))
    }
}

/// `n` in hexadecimal, the highest digit first, without leading zeros; one
/// zero for 0.
pub open spec fn hexadecimal(n: nat) -> Seq<char>
    decreases n,
{
    if n < 16 {
        seq![digit_char(n)]
    } else {
        hexadecimal(n / 16).push(digit_char(n % 16))
    }
}

/// `n` in hexadecimal behind `0x`, with two digits at least.
pub open spec fn hex_byte(n: nat) -> Seq<char> {
    if n < 16 {
        seq!['0', 'x', '0'] + hexadecimal(n)
    } else {
        seq!['0', 'x'] + hexadecimal(n)
    }
}

/// The text of one digit.
fn digit_str(d: u64) -> (res: &'static str)
    requires
        d < 16,
    ensures
        res@ == seq![digit_char(d as nat)],
{
    proof {
        reveal_strlit("0");
        reveal_strlit("1");
        reveal_strlit("2");
        reveal_strlit("3");
        reveal_strlit("4");
        reveal_strlit("5");
        reveal_strlit("6");
        reveal_strlit("7");
        reveal_strlit("8");
        reveal_strlit("9");
        reveal_strlit("a");
        reveal_strlit("b");
        reveal_strlit("c");
        reveal_strlit("d");
        reveal_strlit("e");
        reveal_strlit("f");
    }
    let res = if d == 0 {
        "0"
    } else if d == 1 {
        "1"
    } else if d == 2 {
        "2"
    } else if d == 3 {
        "3"
    } else if d == 4 {
        "4"
    } else if d == 5 {
        "5"
    } else if d == 6 {
        "6"
    } else if d == 7 {
        "7"
    } else if d == 8 {
        "8"
    } else if d == 9 {
        "9"
    } else if d == 10 {
        "a"
    } else if d == 11 {
        "b"
    } else if d == 12 {
        "c"
    } else if d == 13 {
        "d"
    } else if d == 14 {
        "e"
    } else {
        "f"
    };
    assert(res@ =~= seq![digit_char(d as nat)]);
    res
}

/// Appends to `out` the number `n` in decimal.
pub fn push_decimal(out: &mut String, n: u64)
    ensures
        final(out)@ == old(out)@ + decimal(n as nat),
    decreases n,
{
    if n >= 10 {
        push_decimal(out, n / 10);
        out.append(digit_str(n % 10));
        assert(out@ =~= old(out)@ + decimal(n as nat));
    } else {
        out.append(digit_str(n));
    }
}

/// Appends to `out` the number `n` in hexadecimal.
pub fn push_hexadecimal(out: &mut String, n: u64)
    ensures
        final(out)@ == old(out)@ + hexadecimal(n as nat),
    decreases n,
{
    if n >= 16 {
        push_hexadecimal(out, n / 16);
        out.append(digit_str(n % 16));
        assert(out@ =~= old(out)@ + hexadecimal(n as nat));
    } else {
        out.append(digit_str(n));
    }
}

/// Appends to `out` the number `n` in hexadecimal behind `0x`, with two
/// digits at least.
pub fn push_hex(out: &mut String, n: u64)
    ensures
        final(out)@ == old(out)@ + hex_byte(n as nat),
{
    proof {
        reveal_strlit("0x");
        reveal_strlit("0x0");
    }
    if n < 16 {
        out.append("0x0");
    } else {
        out.append("0x");
    }
    push_hexadecimal(out, n);
    assert(out@ =~= old(out)@ + hex_byte(n as nat));
}

/// The bounds as they are written behind a collection type: nothing where
/// anything up to 65535 elements goes, ` ^ min..` where only the least
/// number is bound, else ` ^ min..max` with the greatest in hexadecimal.
pub open spec fn sizing_text(sizing: Sizing) -> Seq<char> {
    if sizing.min == 0 && sizing.max == u16::MAX {
        Seq::empty()
    } else if sizing.max == u16::MAX {
        " ^ "@ + decimal(sizing.min as nat) + ".."@
    } else {
        " ^ "@ + decimal(sizing.min as nat) + ".."@ + hex_byte(sizing.max as nat)
    }
}

impl Sizing {
    /// The bounds as they are written behind a collection type.
    pub fn to_string(&self) -> (res: String)
        ensures
            res@ == sizing_text(*self),
    {
        let mut out = String::new();
        if self.min == 0 && self.max == u16::MAX {
            return out;
        }
        out.append(" ^ ");
        push_decimal(&mut out, self.min as u64);
        out.append("..");
        if self.max != u16::MAX {
            push_hex(&mut out, self.max as u64);
        }
        assert(out@ =~= sizing_text(*self));
        out
    }
}

} // verus!
