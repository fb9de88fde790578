//! Decimal rendering of counters and positional `$n` parameter markers.

use vstd::prelude::*;
use vstd::string::StrSliceExecFns;
use vstd::string::StringExecFns;
use crate::scan::contains_seq;
use crate::scan::contains_exec;

verus! {

/// The character for one decimal digit.
pub open spec fn dec_digit(d: int) -> char {
    if d == 0 {
        '0'
    } else if d == 1 {
        '1'
    } else if d == 2 {
        '2'
    } else if d == 3 {
        '3'
    } else if d == 4 {
        '4'
    } else if d == 5 {
        '5'
    } else if d == 6 {
        '6'
    } else if d == 7 {
        '7'
    } else if d == 8 {
        '8'
    } else {
        '9'
    }
}

/// The decimal rendering of `n`, most significant digit first, no sign and no
/// leading zero except for `n == 0` itself.
pub open spec fn dec_seq(n: nat) -> Seq<char>
    decreases n,
{
    if n < 10 {
        seq![dec_digit(n as int)]
    } else {
        dec_seq(n / 10).push(dec_digit((n % 10) as int))
    }
}

/// The text of the positional parameter marker for counter value `n`: a `$`
/// followed by the decimal rendering of `n`.
pub open spec fn marker_seq(n: nat) -> Seq<char> {
    seq!['$'] + dec_seq(n)
}

/// The one-character string for a decimal digit.
fn digit_str(d: usize) -> (r: &'static str)
    requires
        d < 10,
    ensures
        r@ == seq![dec_digit(d as int)],
{
    let r: &'static str = if d == 0 {
        "0"
    } else if d == 1 {
        "1"
    } else if d == 2 {
        "2"
    } else if d == 3 {
        "3"
    } else if d == 4 {
        "4"
    } else if d == 5 {
        "5"
    } else if d == 6 {
        "6"
    } else if d == 7 {
        "7"
    } else if d == 8 {
        "8"
    } else {
        "9"
    };
    proof {
        reveal_strlit("0");
        reveal_strlit("1");
        reveal_strlit("2");
        reveal_strlit("3");
        reveal_strlit("4");
        reveal_strlit("5");
        reveal_strlit("6");
        reveal_strlit("7");
        reveal_strlit("8");
        reveal_strlit("9");
        assert(r@ =~= seq![dec_digit(d as int)]);
    }
    r
}

/// Renders `n` in decimal.
pub fn dec_string(n: usize) -> (r: String)
    ensures
        r@ == dec_seq(n as nat),
    decreases n,
{
    if n < 10 {
        digit_str(n).to_owned()
    } else {
        let mut r = dec_string(n / 10);
        r.append(digit_str(n % 10));
        proof {
            assert(r@ =~= dec_seq(n as nat));
        }
        r
    }
}

/// The characters of the marker for counter value `n`.
fn marker_chars(n: usize) -> (v: Vec<char>)
    ensures
        v@ == marker_seq(n as nat),
{
    let s = dec_string(n);
    let digits = crate::scan::chars_of(s.as_str());
    let mut v: Vec<char> = Vec::new();
    v.push('$');
    let mut i: usize = 0;
    let dl = digits.len();
    while i < dl
        invariant
            dl == digits@.len(),
            i <= dl,
            v@ == seq!['$'] + digits@.subrange(0, i as int),
        decreases dl - i,
    {
        let c = digits[i];
        v.push(c);
        i = i + 1;
        proof {
            assert(v@ =~= seq!['$'] + digits@.subrange(0, i as int));
        }
    }
    proof {
        assert(digits@.subrange(0, dl as int) =~= digits@);
        assert(v@ =~= marker_seq(n as nat));
    }
    v
}

/// Whether the statement text holds the marker for counter value `n` as a
/// substring.  The check is verbatim, so a marker such as `$1` is also found
/// inside a longer one such as `$10`.
pub fn has_marker(stmt: &Vec<char>, n: usize) -> (r: bool)
    ensures
        r == contains_seq(stmt@, marker_seq(n as nat)),
{
    let m = marker_chars(n);
    contains_exec(stmt, &m)
}

} // verus!
