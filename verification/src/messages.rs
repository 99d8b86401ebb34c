//! Text of the failure messages a job can carry, and the decimal rendering
//! of exit codes that those messages embed.
use vstd::prelude::*;

verus! {

/// The character for one decimal digit value.
pub open spec fn decimal_digit_char(d: int) -> char
    recommends
        0 <= d <= 9,
{
    if d == 0 {
        '0'
    } else if d == 1 {
        '1'
    } else if d == 2 {
        '2'
    } else if d == 3 {
        '3'
    } else if d == 4 {
        '4'
    } else if d == 5 {
        '5'
    } else if d == 6 {
        '6'
    } else if d == 7 {
        '7'
    } else if d == 8 {
        '8'
    } else {
        '9'
    }
}

/// Decimal digits of a non-negative number, most significant first,
/// with no leading zeros (a single '0' for zero).
pub open spec fn decimal_digits(n: nat) -> Seq<char>
    decreases n,
{
    if n < 10 {
        seq![decimal_digit_char(n as int)]
    } else {
        decimal_digits(n / 10).push(decimal_digit_char((n % 10) as int))
    }
}

/// Decimal rendering of a signed number: a leading '-' for negatives.
pub open spec fn signed_decimal(v: int) -> Seq<char> {
    if v < 0 {
        seq!['-'] + decimal_digits((-v) as nat)
    } else {
        decimal_digits(v as nat)
    }
}

/// Message recorded when the external tool exits with a non-zero code.
pub open spec fn exit_error_message(code: int) -> Seq<char> {
    "Unity exited with code "@ + signed_decimal(code) + "."@
}

/// Message recorded when polling a running process fails.
pub open spec fn poll_error_message(detail: Seq<char>) -> Seq<char> {
    "Could not fetch unity state: "@ + detail
}

/// Message recorded when spawning the external tool fails.
pub open spec fn spawn_error_message(detail: Seq<char>) -> Seq<char> {
    "Could not start the unity process: "@ + detail
}

/// Appends the decimal digits of `n` to `out`.
fn append_decimal(out: &mut String, n: u64)
    ensures
        final(out)@ == old(out)@ + decimal_digits(n as nat),
    decreases n,
{
    if n >= 10 {
        append_decimal(out, n / 10);
    }
    let d = (n % 10) as usize;
    let digits = "0123456789";
    proof {
        reveal_strlit("0123456789");
        assert(digits.is_ascii());
    }
    let ds = digits.substring_ascii(d, d + 1);
    proof {
        assert(ds@ =~= seq![decimal_digit_char(d as int)]);
    }
    out.append(ds);
    proof {
        assert(final(out)@ =~= old(out)@ + decimal_digits(n as nat));
    }
}

/// Renders a signed 32-bit value in decimal.
pub fn signed_decimal_string(v: i32) -> (s: String)
    ensures
        s@ == signed_decimal(v as int),
{
    let mut s = String::new();
    if v < 0 {
        let minus = "-";
        proof {
            reveal_strlit("-");
        }
        s.append(minus);
        proof {
            assert(s@ =~= seq!['-']);
        }
        let m = (-(v as i64)) as u64;
        append_decimal(&mut s, m);
        proof {
            assert(s@ =~= signed_decimal(v as int));
        }
    } else {
        append_decimal(&mut s, v as u64);
        proof {
            assert(s@ =~= signed_decimal(v as int));
        }
    }
    s
}

/// Builds the message for a non-zero exit code.
pub fn exit_error_string(code: i32) -> (s: String)
    ensures
        s@ == exit_error_message(code as int),
{
    let mut s = String::from_str("Unity exited with code ");
    let num = signed_decimal_string(code);
    s.append(num.as_str());
    s.append(".");
    proof {
        assert(s@ =~= exit_error_message(code as int));
    }
    s
}

/// Builds the message for a failed status poll.
pub fn poll_error_string(detail: &str) -> (s: String)
    ensures
        s@ == poll_error_message(detail@),
{
    let mut s = String::from_str("Could not fetch unity state: ");
    s.append(detail);
    s
}

/// Builds the message for a failed spawn attempt.
pub fn spawn_error_string(detail: &str) -> (s: String)
    ensures
        s@ == spawn_error_message(detail@),
{
    let mut s = String::from_str("Could not start the unity process: ");
    s.append(detail);
    s
}

} // verus!
