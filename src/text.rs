//! Decimal renderings of integers and fixed-point values.
use vstd::prelude::*;

verus! {

pub open spec fn digit(d: nat) -> char {
    ((d % 10) + 48) as char
}

/// The decimal digits of `n`, most significant first, no leading zeros.
pub open spec fn decimal(n: nat) -> Seq<char>
    decreases n,
{
    if n < 10 {
        seq![digit(n)]
    } else {
        decimal(n / 10).push(digit(n % 10))
    }
}

/// A signed integer in decimal, with a leading '-' when negative.
pub open spec fn signed_text(v: int) -> Seq<char> {
    if v < 0 {
        seq!['-'] + decimal((-v) as nat)
    } else {
        decimal(v as nat)
    }
}

/// The fractional part of a value in hundredths, without trailing zeros:
/// empty, one digit or two digits after a '.'.
pub open spec fn hundredths_text(f: nat) -> Seq<char> {
    if f == 0 {
        Seq::empty()
    } else if f % 10 == 0 {
        seq!['.'] + decimal(f / 10)
    } else {
        seq!['.'] + decimal(f / 10) + decimal(f % 10)
    }
}

/// A fixed-point value held in hundredths, written as a decimal number in its
/// shortest form (`7500` is "75", `1250` is "12.5", `-5` is "-0.05").
pub open spec fn centi_text(v: int) -> Seq<char> {
    let m: nat = if v < 0 {
        (-v) as nat
    } else {
        v as nat
    };
    let body = decimal(m / 100) + hundredths_text(m % 100);
    if v < 0 {
        seq!['-'] + body
    } else {
        body
    }
}

/// Relies on u64's `to_string` (its `Display`): the decimal digits of the
/// number, without sign or leading zeros.
#[verifier::external_body]
pub(crate) fn decimal_string(n: u64) -> (r: String)
    ensures
        r@ == decimal(n as nat),
{
    n.to_string()
}

/// `v` in decimal.
pub fn signed_string(v: i64) -> (r: String)
    ensures
        r@ == signed_text(v as int),
{
    if v < 0 {
        let m = (-(v as i128)) as u64;
        let digits = decimal_string(m);
        let out = String::from_str("-").concat(digits.as_str());
        proof {
            reveal_strlit("-");
        }
        assert(out@ =~= signed_text(v as int));
        out
    } else {
        decimal_string(v as u64)
    }
}

/// `v` hundredths, written as a decimal number in its shortest form.
pub fn centi_string(v: i64) -> (r: String)
    ensures
        r@ == centi_text(v as int),
{
    let m: u64 = if v < 0 {
        (-(v as i128)) as u64
    } else {
        v as u64
    };
    let whole = m / 100;
    let f = m % 100;
    let mut out = String::new();
    if v < 0 {
        out.append("-");
    }
    let w = decimal_string(whole);
    out.append(w.as_str());
    if f != 0 {
        out.append(".");
        let t = decimal_string(f / 10);
        out.append(t.as_str());
        if f % 10 != 0 {
            let u = decimal_string(f % 10);
            out.append(u.as_str());
        }
    }
    proof {
        reveal_strlit("-");
        reveal_strlit(".");
    }
    assert(out@ =~= centi_text(v as int));
    out
}

} // verus!
