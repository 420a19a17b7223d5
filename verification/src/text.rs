//! Rendering numbers as decimal text for the status lines and the
//! result records.

use vstd::prelude::*;

verus! {

/// The character for one decimal digit.
pub open spec fn dec_digit(dv: int) -> char {
    if dv == 0 {
        '0'
    } else if dv == 1 {
        '1'
    } else if dv == 2 {
        '2'
    } else if dv == 3 {
        '3'
    } else if dv == 4 {
        '4'
    } else if dv == 5 {
        '5'
    } else if dv == 6 {
        '6'
    } else if dv == 7 {
        '7'
    } else if dv == 8 {
        '8'
    } else {
        '9'
    }
}

/// The decimal digits of `n`, most significant first, with no leading
/// zeros except for `n == 0` itself.
pub open spec fn dec_str(n: int) -> Seq<char>
    recommends
        n >= 0,
    decreases n,
{
    if n < 10 {
        seq![dec_digit(n)]
    } else {
        dec_str(n / 10).push(dec_digit(n % 10))
    }
}

/// The one-character string for a decimal digit.
fn digit_str(dv: usize) -> (r: &'static str)
    requires
        dv < 10,
    ensures
        r@ == seq![dec_digit(dv as int)],
{
    proof {
        reveal_strlit("0");
        reveal_strlit("1");
        reveal_strlit("2");
        reveal_strlit("3");
        reveal_strlit("4");
        reveal_strlit("5");
        reveal_strlit("6");
        reveal_strlit("7");
        reveal_strlit("8");
        reveal_strlit("9");
    }
    let r = match dv {
        0 => "0",
        1 => "1",
        2 => "2",
        3 => "3",
        4 => "4",
        5 => "5",
        6 => "6",
        7 => "7",
        8 => "8",
        _ => "9",
    };
    proof {
        assert(r@ =~= seq![dec_digit(dv as int)]);
    }
    r
}

/// Writes `n` in decimal.
pub fn usize_to_string(n: usize) -> (s: String)
    ensures
        s@ == dec_str(n as int),
    decreases n,
{
    if n < 10 {
        let d = digit_str(n);
        let s = d.to_owned();
        proof {
            assert(s@ =~= dec_str(n as int));
        }
        s
    } else {
        let mut s = usize_to_string(n / 10);
        let d = digit_str(n % 10);
        s.append(d);
        proof {
            assert(s@ =~= dec_str(n as int));
        }
        s
    }
}

/// Writes `n` in decimal.
pub fn u32_to_string(n: u32) -> (s: String)
    ensures
        s@ == dec_str(n as int),
{
    usize_to_string(n as usize)
}

} // verus!
