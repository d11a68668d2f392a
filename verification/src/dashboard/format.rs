//! Human-readable sizes, durations and truncated text.
use vstd::prelude::*;
use crate::system::model::ServiceStatus;
use crate::text::{chars_of, decimal, owned, push_decimal, push_str, string_from_chars};

verus! {

pub open spec fn pow2s(s: nat) -> nat
    decreases s,
{
    if s == 0 {
        1
    } else {
        2 * pow2s((s - 1) as nat)
    }
}

/// 2^53: below it every integer is exactly a double.
pub const EXACT_LIMIT: u128 = 9007199254740992;

/// The smallest shift from `s` on that brings `n` below 2^53.
pub open spec fn shift_from(n: nat, s: nat) -> nat
    decreases 64 - s,
{
    if s >= 64 || n / pow2s(s) < EXACT_LIMIT {
        s
    } else {
        shift_from(n, s + 1)
    }
}

/// `n` rounded to the nearest double, ties to even: the value `n as f64` holds.
pub open spec fn float_of(n: nat) -> nat {
    if n < EXACT_LIMIT {
        n
    } else {
        let p = pow2s(shift_from(n, 0));
        let q = n / p;
        let r = n % p;
        let h = p / 2;
        if r > h || (r == h && q % 2 == 1) {
            (q + 1) * p
        } else {
            q * p
        }
    }
}

pub open spec fn unit_of(f: nat) -> nat {
    if f >= 1099511627776 {
        4
    } else if f >= 1073741824 {
        3
    } else if f >= 1048576 {
        2
    } else if f >= 1024 {
        1
    } else {
        0
    }
}

pub open spec fn divisor_of(k: nat) -> nat {
    if k == 4 {
        1099511627776
    } else if k == 3 {
        1073741824
    } else if k == 2 {
        1048576
    } else {
        1024
    }
}

pub open spec fn unit_name(k: nat) -> Seq<char> {
    if k == 4 {
        "TB"@
    } else if k == 3 {
        "GB"@
    } else if k == 2 {
        "MB"@
    } else {
        "KB"@
    }
}

/// `x / d` in tenths, rounded to the nearest, ties to even.
pub open spec fn tenths(x: nat, d: nat) -> nat {
    let q = x * 10 / d;
    let r = x * 10 % d;
    if 2 * r > d || (2 * r == d && q % 2 == 1) {
        q + 1
    } else {
        q
    }
}

/// `n` bytes as a human reads them: bytes below a kibibyte, else the value in
/// the largest binary unit up to TB with one decimal, as `{:.1}` prints the
/// double nearest `n`.
pub open spec fn bytes_text(n: nat) -> Seq<char> {
    let f = float_of(n);
    let k = unit_of(f);
    if k == 0 {
        decimal(n) + " B"@
    } else {
        let t = tenths(f, divisor_of(k));
        decimal(t / 10) + "."@ + decimal(t % 10) + " "@ + unit_name(k)
    }
}

fn float_value(n: u64) -> (f: u128)
    ensures
        f as nat == float_of(n as nat),
        f <= 0x40000000000000000,
{
    let m: u128 = n as u128;
    if m < EXACT_LIMIT {
        return m;
    }
    let mut s: u64 = 0;
    let mut p: u128 = 1;
    while s < 64 && m / p >= EXACT_LIMIT
        invariant
            s <= 64,
            p as nat == pow2s(s as nat),
            1 <= p <= 0x40000000000000000,
            p <= 2 * m,
            m == n as u128,
            m >= EXACT_LIMIT,
            shift_from(n as nat, 0) == shift_from(n as nat, s as nat),
            s == 0 || p % 2 == 0,
        decreases 64 - s,
    {
        assert(p <= m) by (nonlinear_arith)
            requires
                m / p >= EXACT_LIMIT,
                p >= 1,
        ;
        p = p * 2;
        s = s + 1;
    }
    assert(shift_from(n as nat, s as nat) == s as nat);
    assert(s >= 1) by {
        if s == 0 {
            assert(m / 1 == m);
        }
    }
    let q = m / p;
    let r = m % p;
    let h = p / 2;
    proof {
        vstd::arithmetic::div_mod::lemma_fundamental_div_mod(m as int, p as int);
        assert(q * p <= m) by (nonlinear_arith)
            requires
                m == p * q + r,
                r >= 0,
        ;
        assert((q + 1) * p <= 3 * m) by (nonlinear_arith)
            requires
                q * p <= m,
                p <= 2 * m,
        ;
    }
    if r > h || (r == h && q % 2 == 1) {
        (q + 1) * p
    } else {
        q * p
    }
}

/// The size of `bytes` for display.
pub fn format_bytes(bytes: u64) -> (r: String)
    ensures
        r@ == bytes_text(bytes as nat),
{
    let f = float_value(bytes);
    let (k, d, unit): (u64, u128, &str) = if f >= 1099511627776 {
        (4, 1099511627776, "TB")
    } else if f >= 1073741824 {
        (3, 1073741824, "GB")
    } else if f >= 1048576 {
        (2, 1048576, "MB")
    } else if f >= 1024 {
        (1, 1024, "KB")
    } else {
        (0, 1024, "B")
    };
    if k == 0 {
        let mut r = String::new();
        push_decimal(&mut r, bytes);
        push_str(&mut r, " B");
        return r;
    }
    let x = f * 10;
    let q = x / d;
    let rem = x % d;
    let t: u128 = if 2 * rem > d || (2 * rem == d && q % 2 == 1) {
        q + 1
    } else {
        q
    };
    assert(t <= 0x40000000000000000 * 10 + 1) by (nonlinear_arith)
        requires
            q == x / d,
            d >= 1024,
            x <= 0x40000000000000000 * 10,
            t <= q + 1,
    ;
    let whole: u64 = (t / 10) as u64;
    let frac: u64 = (t % 10) as u64;
    let mut r = String::new();
    push_decimal(&mut r, whole);
    push_str(&mut r, ".");
    push_decimal(&mut r, frac);
    push_str(&mut r, " ");
    push_str(&mut r, unit);
    r
}

/// `used / total`, both as sizes.
pub fn format_usage(used_bytes: u64, total_bytes: u64) -> (r: String)
    ensures
        r@ == bytes_text(used_bytes as nat) + " / "@ + bytes_text(total_bytes as nat),
{
    let mut r = format_bytes(used_bytes);
    push_str(&mut r, " / ");
    let t = format_bytes(total_bytes);
    push_str(&mut r, t.as_str());
    r
}

/// An uptime of `seconds`: days, hours and minutes, leading zero units omitted.
pub open spec fn duration_text(seconds: nat) -> Seq<char> {
    let days = seconds / 86400;
    let hours = (seconds % 86400) / 3600;
    let minutes = (seconds % 3600) / 60;
    if days > 0 {
        decimal(days) + "d "@ + decimal(hours) + "h "@ + decimal(minutes) + "m"@
    } else if hours > 0 {
        decimal(hours) + "h "@ + decimal(minutes) + "m"@
    } else {
        decimal(minutes) + "m"@
    }
}

pub fn format_duration(seconds: u64) -> (r: String)
    ensures
        r@ == duration_text(seconds as nat),
{
    let days = seconds / 86400;
    let hours = (seconds % 86400) / 3600;
    let minutes = (seconds % 3600) / 60;
    let mut r = String::new();
    if days > 0 {
        push_decimal(&mut r, days);
        push_str(&mut r, "d ");
        push_decimal(&mut r, hours);
        push_str(&mut r, "h ");
        push_decimal(&mut r, minutes);
        push_str(&mut r, "m");
    } else if hours > 0 {
        push_decimal(&mut r, hours);
        push_str(&mut r, "h ");
        push_decimal(&mut r, minutes);
        push_str(&mut r, "m");
    } else {
        push_decimal(&mut r, minutes);
        push_str(&mut r, "m");
    }
    r
}

/// Text cut to at most `max_characters` characters, an ellipsis marking the cut.
pub open spec fn truncated(value: Seq<char>, max_characters: nat) -> Seq<char> {
    if value.len() <= max_characters {
        value
    } else if max_characters == 0 {
        Seq::empty()
    } else if max_characters == 1 {
        seq!['…']
    } else {
        value.take(max_characters - 1).push('…')
    }
}

pub fn truncate_text(value: &str, max_characters: usize) -> (r: String)
    ensures
        r@ == truncated(value@, max_characters as nat),
        r@.len() <= max_characters || r@ == value@,
{
    let chars = chars_of(value);
    if chars.len() <= max_characters {
        return owned(value);
    }
    if max_characters == 0 {
        return String::new();
    }
    if max_characters == 1 {
        let mut r = String::new();
        r.push('…');
        return r;
    }
    let mut visible: Vec<char> = Vec::new();
    let mut i: usize = 0;
    while i < max_characters - 1
        invariant
            i <= max_characters - 1,
            max_characters <= chars@.len(),
            visible@ == chars@.take(i as int),
        decreases max_characters - 1 - i,
    {
        visible.push(chars[i]);
        i = i + 1;
        assert(visible@ =~= chars@.take(i as int));
    }
    visible.push('…');
    string_from_chars(visible.as_slice())
}

/// A fresh unknown status never hides a known one.
pub fn merge_service_status(current: ServiceStatus, incoming: ServiceStatus) -> (r: ServiceStatus)
    ensures
        r == if incoming == ServiceStatus::Unknown && current != ServiceStatus::Unknown {
            current
        } else {
            incoming
        },
{
    if incoming == ServiceStatus::Unknown && current != ServiceStatus::Unknown {
        current
    } else {
        incoming
    }
}

} // verus!
