//! Rendering a track duration, given in milliseconds, as a clock string
//! `HH:MM:SS`, each field zero-padded to at least two digits.

use vstd::prelude::*;

verus! {

/// The decimal digit `d` as a character; meaningful for `0 <= d < 10`.
pub open spec fn digit_char(d: int) -> char
    recommends
        0 <= d < 10,
{
    ((d + 48) as u8) as char
}

/// The decimal representation of `n`, most significant digit first,
/// without leading zeros (a single zero for `n == 0`).
pub open spec fn spec_decimal(n: nat) -> Seq<char>
    decreases n,
{
    if n < 10 {
        seq![digit_char(n as int)]
    } else {
        spec_decimal(n / 10).push(digit_char((n % 10) as int))
    }
}

/// The decimal representation of `n`, zero-padded to width two.
pub open spec fn spec_padded2(n: nat) -> Seq<char> {
    if n < 10 {
        seq!['0'] + spec_decimal(n)
    } else {
        spec_decimal(n)
    }
}

/// The clock rendering of a duration in milliseconds.
pub open spec fn spec_clock(time_ms: nat) -> Seq<char> {
    spec_padded2(time_ms / 3600000) + ":"@ + spec_padded2((time_ms / 60000) % 60) + ":"@
        + spec_padded2((time_ms / 1000) % 60)
}

/// The decimal digits of `n`, most significant first.
fn decimal_digits(n: usize) -> (r: Vec<char>)
    ensures
        r@ == spec_decimal(n as nat),
{
    let mut tail: Vec<char> = Vec::new();
    let mut m = n;
    while m >= 10
        invariant
            spec_decimal(n as nat) == spec_decimal(m as nat) + tail@,
        decreases m,
    {
        let d: u8 = 48 + (m % 10) as u8;
        let c = d as char;
        let ghost t0 = tail@;
        proof {
            assert(c == digit_char((m % 10) as int));
            assert(spec_decimal(m as nat) == spec_decimal((m as nat) / 10).push(c));
            assert(spec_decimal((m as nat) / 10).push(c) + t0 =~= spec_decimal((m as nat) / 10) + (
            seq![c] + t0));
            assert((m / 10) as nat == (m as nat) / 10);
        }
        tail.insert(0, c);
        proof {
            assert(tail@ =~= seq![c] + t0);
        }
        m = m / 10;
    }
    let d: u8 = 48 + (m % 10) as u8;
    let c = d as char;
    let ghost t1 = tail@;
    proof {
        assert(c == digit_char(m as int));
        assert(spec_decimal(m as nat) == seq![c]);
    }
    tail.insert(0, c);
    proof {
        assert(tail@ =~= seq![c] + t1);
        assert(seq![c] + t1 =~= spec_decimal(m as nat) + t1);
    }
    tail
}

/// Append the digits of `n`, zero-padded to width two, to `out`.
fn append_padded2(out: Vec<char>, n: usize) -> (r: Vec<char>)
    ensures
        r@ == out@ + spec_padded2(n as nat),
{
    let mut buf = out;
    let ghost start = buf@;
    if n < 10 {
        buf.push('0');
    }
    let mut digits = decimal_digits(n);
    buf.append(&mut digits);
    proof {
        assert(buf@ =~= start + spec_padded2(n as nat));
    }
    buf
}

/// Render a duration in milliseconds as `HH:MM:SS`; hours widen past two
/// digits when they need to, minutes and seconds never do.
pub fn format_time(time_ms: usize) -> (r: String)
    ensures
        r@ == spec_clock(time_ms as nat),
{
    let hours = time_ms / 3600000;
    let minutes = (time_ms / 60000) % 60;
    let seconds = (time_ms / 1000) % 60;
    let mut buf: Vec<char> = Vec::new();
    buf = append_padded2(buf, hours);
    buf = crate::strtool::append_str_chars(buf, ":");
    buf = append_padded2(buf, minutes);
    buf = crate::strtool::append_str_chars(buf, ":");
    buf = append_padded2(buf, seconds);
    proof {
        assert(hours as nat == (time_ms as nat) / 3600000);
        assert(minutes as nat == ((time_ms as nat) / 60000) % 60);
        assert(seconds as nat == ((time_ms as nat) / 1000) % 60);
        assert(buf@ =~= spec_clock(time_ms as nat));
    }
    crate::strtool::string_from_chars(buf)
}

} // verus!
