//! Small text helpers shared by the other modules.

use vstd::prelude::*;
use vstd::utf8::{encode_utf8, encode_utf8_decode_utf8};

verus! {

/// Whether two strings hold the same characters.
pub fn same_text(a: &str, b: &str) -> (same: bool)
    ensures
        same == (a@ == b@),
{
    let x = a.as_bytes();
    let y = b.as_bytes();
    proof {
        // Two strings with the same encoding decode to the same characters.
        encode_utf8_decode_utf8(a@);
        encode_utf8_decode_utf8(b@);
    }
    if x.len() != y.len() {
        return false;
    }
    let mut i: usize = 0;
    while i < x.len()
        invariant
            i <= x.len(),
            x.len() == y.len(),
            x@ == encode_utf8(a@),
            y@ == encode_utf8(b@),
            forall|k: int| 0 <= k < i ==> x@[k] == y@[k],
        decreases x.len() - i,
    {
        if x[i] != y[i] {
            return false;
        }
        i += 1;
    }
    assert(x@ =~= y@);
    true
}

/// The character of a decimal digit.
pub open spec fn digit_char(d: nat) -> char {
    if d == 0 {
        '0'
    } else if d == 1 {
        '1'
    } else if d == 2 {
        '2'
    } else if d == 3 {
        '3'
    } else if d == 4 {
        '4'
    } else if d == 5 {
        '5'
    } else if d == 6 {
        '6'
    } else if d == 7 {
        '7'
    } else if d == 8 {
        '8'
    } else {
        '9'
    }
}

/// A natural number in decimal, without leading zeros.
pub open spec fn decimal(n: nat) -> Seq<char>
    decreases n,
{
    if n < 10 {
        seq![digit_char(n)]
    } else {
        decimal(n / 10).push(digit_char(n % 10))
    }
}

/// An integer in decimal, with a minus sign in front of a negative one.
pub open spec fn signed_decimal(n: int) -> Seq<char> {
    if n < 0 {
        seq!['-'] + decimal((-n) as nat)
    } else {
        decimal(n as nat)
    }
}

/// An IPv4 address, given as a number, in dotted decimal.
pub open spec fn dotted_quad(addr: u32) -> Seq<char> {
    decimal((addr / 0x100_0000) as nat) + seq!['.'] + decimal((addr / 0x1_0000 % 256) as nat)
        + seq!['.'] + decimal((addr / 0x100 % 256) as nat) + seq!['.'] + decimal(
        (addr % 256) as nat,
    )
}

fn digit_str(d: u64) -> (s: &'static str)
    requires
        d < 10,
    ensures
        s@ == seq![digit_char(d as nat)],
{
    proof {
        reveal_strlit("0");
        reveal_strlit("1");
        reveal_strlit("2");
        reveal_strlit("3");
        reveal_strlit("4");
        reveal_strlit("5");
        reveal_strlit("6");
        reveal_strlit("7");
        reveal_strlit("8");
        reveal_strlit("9");
    }
    let s = if d == 0 {
        "0"
    } else if d == 1 {
        "1"
    } else if d == 2 {
        "2"
    } else if d == 3 {
        "3"
    } else if d == 4 {
        "4"
    } else if d == 5 {
        "5"
    } else if d == 6 {
        "6"
    } else if d == 7 {
        "7"
    } else if d == 8 {
        "8"
    } else {
        "9"
    };
    assert(s@ =~= seq![digit_char(d as nat)]);
    s
}

/// Appends `n` in decimal to `out`.
pub fn push_decimal(out: &mut String, n: u64)
    ensures
        final(out)@ == old(out)@ + decimal(n as nat),
    decreases n,
{
    if n >= 10 {
        push_decimal(out, n / 10);
    }
    out.append(digit_str(n % 10));
    assert(out@ =~= old(out)@ + decimal(n as nat));
}

/// Appends `n` in decimal to `out`, with its sign if it is negative.
pub fn push_signed_decimal(out: &mut String, n: i32)
    ensures
        final(out)@ == old(out)@ + signed_decimal(n as int),
{
    if n < 0 {
        proof {
            reveal_strlit("-");
        }
        out.append("-");
        let magnitude: u64 = (-(n as i64)) as u64;
        push_decimal(out, magnitude);
        assert(out@ =~= old(out)@ + signed_decimal(n as int));
    } else {
        push_decimal(out, n as u64);
    }
}

/// Appends the address `addr` in dotted decimal to `out`.
pub fn push_dotted_quad(out: &mut String, addr: u32)
    ensures
        final(out)@ == old(out)@ + dotted_quad(addr),
{
    proof {
        reveal_strlit(".");
    }
    push_decimal(out, (addr / 0x100_0000) as u64);
    out.append(".");
    push_decimal(out, (addr / 0x1_0000 % 256) as u64);
    out.append(".");
    push_decimal(out, (addr / 0x100 % 256) as u64);
    out.append(".");
    push_decimal(out, (addr % 256) as u64);
    assert(out@ =~= old(out)@ + dotted_quad(addr));
}

} // verus!
