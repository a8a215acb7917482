//! Durations and sizes for people to read.
use vstd::prelude::*;
use crate::number::{decimal, decimal_chars};
use crate::text::{extend, from_chars, to_chars};

verus! {

/// A duration in minutes, as `3d 5h 32m`, without leading parts that are zero.
pub open spec fn duration_text(minutes: nat) -> Seq<char> {
    let days = minutes / 1440;
    let hours = (minutes / 60) % 24;
    let tail = decimal(minutes % 60) + "m"@;
    if days == 0 && hours == 0 {
        tail
    } else if days == 0 {
        decimal(hours) + "h "@ + tail
    } else {
        decimal(days) + "d "@ + decimal(hours) + "h "@ + tail
    }
}

fn push_number(out: &mut Vec<char>, n: u64, suffix: &str)
    ensures
        final(out)@ == old(out)@ + (decimal(n as nat) + suffix@),
{
    let ghost before = out@;
    extend(out, &decimal_chars(n));
    extend(out, &to_chars(suffix));
    assert(out@ =~= before + (decimal(n as nat) + suffix@));
}

/// A duration in minutes, as `3d 5h 32m`.
pub fn format_duration(total_minutes: u64) -> (r: String)
    ensures
        r@ == duration_text(total_minutes as nat),
{
    let days: u64 = total_minutes / 1440;
    let hours: u64 = (total_minutes / 60) % 24;
    let mut out: Vec<char> = Vec::new();
    if days != 0 {
        push_number(&mut out, days, "d ");
    }
    if days != 0 || hours != 0 {
        push_number(&mut out, hours, "h ");
    }
    push_number(&mut out, total_minutes % 60, "m");
    assert(out@ =~= duration_text(total_minutes as nat));
    from_chars(&out)
}

/// The integer nearest to `n / d`; of two equally near, the even one.
pub open spec fn nearest(n: nat, d: nat) -> nat {
    let q = n / d;
    let r = n % d;
    if 2 * r > d || (2 * r == d && q % 2 == 1) {
        q + 1
    } else {
        q
    }
}

/// The least power of two by which `n` is divided to fit into 53 bits.
pub open spec fn precision(n: nat) -> nat
    decreases n,
{
    if n < 0x20_0000_0000_0000 {
        1
    } else {
        2 * precision(n / 2)
    }
}

/// `n` rounded to 53 significant bits.
pub open spec fn rounded(n: nat) -> nat {
    nearest(n, precision(n)) * precision(n)
}

/// The unit in which a size is shown, in KiB, and its name: the largest one not above the size.
pub open spec fn unit_of(n: nat) -> (nat, Seq<char>) {
    if n >= 0x4000_0000 {
        (0x4000_0000, " TiB"@)
    } else if n >= 0x10_0000 {
        (0x10_0000, " GiB"@)
    } else if n >= 0x400 {
        (0x400, " MiB"@)
    } else {
        (1, " KiB"@)
    }
}

/// A size in KiB, as `412 MiB` or `1.9 GiB`: below ten of the unit, with one decimal.
pub open spec fn size_text(kib: nat) -> Seq<char> {
    let n = rounded(kib);
    let (unit, name) = unit_of(n);
    if n >= 10 * unit {
        decimal(nearest(n, unit)) + name
    } else {
        let tenths = nearest(10 * n, unit);
        decimal(tenths / 10) + seq!['.'] + decimal(tenths % 10) + name
    }
}

fn to_nearest(n: u128, d: u128) -> (r: u128)
    requires
        0 < d,
        n <= 0x1_0000_0000_0000_0000,
        d <= 0x4000_0000,
    ensures
        r == nearest(n as nat, d as nat),
        r <= n / d + 1,
{
    let q: u128 = n / d;
    let r: u128 = n % d;
    assert(q <= n && r < d) by (nonlinear_arith)
        requires
            d > 0,
            q == n / d,
            r == n % d,
    ;
    if 2 * r > d || (2 * r == d && q % 2 == 1) {
        q + 1
    } else {
        q
    }
}

/// The power of two by which `n` is divided to fit into 53 bits.
fn precision_of(n: u64) -> (p: u128)
    ensures
        p == precision(n as nat),
        1 <= p <= 2048,
        nearest(n as nat, p as nat) * p <= 0x1_0000_0000_0000_0000,
{
    let mut p: u128 = 1;
    let mut m: u64 = n;
    let mut k: u64 = 0;
    assert(p * m <= n);
    while m >= 0x20_0000_0000_0000
        invariant
            k <= 11,
            p * precision(m as nat) == precision(n as nat),
            k == 0 ==> p == 1 && m <= 0xffff_ffff_ffff_ffff,
            k == 1 ==> p == 2 && m <= 0x7fff_ffff_ffff_ffff,
            k == 2 ==> p == 4 && m <= 0x3fff_ffff_ffff_ffff,
            k == 3 ==> p == 8 && m <= 0x1fff_ffff_ffff_ffff,
            k == 4 ==> p == 16 && m <= 0xfff_ffff_ffff_ffff,
            k == 5 ==> p == 32 && m <= 0x7ff_ffff_ffff_ffff,
            k == 6 ==> p == 64 && m <= 0x3ff_ffff_ffff_ffff,
            k == 7 ==> p == 128 && m <= 0x1ff_ffff_ffff_ffff,
            k == 8 ==> p == 256 && m <= 0xff_ffff_ffff_ffff,
            k == 9 ==> p == 512 && m <= 0x7f_ffff_ffff_ffff,
            k == 10 ==> p == 1024 && m <= 0x3f_ffff_ffff_ffff,
            k == 11 ==> p == 2048 && m <= 0x1f_ffff_ffff_ffff,
        decreases m,
    {
        let ghost was = p;
        let ghost rest = precision((m / 2) as nat);
        assert(precision(m as nat) == 2 * rest);
        m = m / 2;
        p = p * 2;
        k = k + 1;
        assert(p * rest == was * (2 * rest)) by (nonlinear_arith)
            requires
                p == was * 2,
        ;
    }
    assert(precision(m as nat) == 1);
    assert(p == precision(n as nat));
    proof {
        let q = n as nat / p as nat;
        assert(p == 1 || p == 2 || p == 4 || p == 8 || p == 16 || p == 32 || p == 64 || p == 128
            || p == 256 || p == 512 || p == 1024 || p == 2048);
        assert(0x1_0000_0000_0000_0000nat / (p as nat) * p == 0x1_0000_0000_0000_0000nat);
        assert(q + 1 <= 0x1_0000_0000_0000_0000nat / (p as nat));
        assert((q + 1) * p <= 0x1_0000_0000_0000_0000nat / (p as nat) * p) by (nonlinear_arith)
            requires
                q + 1 <= 0x1_0000_0000_0000_0000nat / (p as nat),
                p >= 1,
        ;
        assert(q * p <= (q + 1) * p) by (nonlinear_arith);
    }
    p
}

/// A size in KiB, as `412 MiB` or `1.9 GiB`.
pub fn format_kib(kib: u64) -> (r: String)
    ensures
        r@ == size_text(kib as nat),
{
    let p = precision_of(kib);
    let short: u128 = to_nearest(kib as u128, p);
    let n: u128 = short * p;
    assert(n == rounded(kib as nat));
    let (unit, name): (u128, &str) = if n >= 0x4000_0000 {
        (0x4000_0000, " TiB")
    } else if n >= 0x10_0000 {
        (0x10_0000, " GiB")
    } else if n >= 0x400 {
        (0x400, " MiB")
    } else {
        (1, " KiB")
    };
    assert(unit_of(n as nat) == (unit as nat, name@));
    let mut out: Vec<char> = Vec::new();
    if n >= 10 * unit {
        let whole: u128 = to_nearest(n, unit);
        assert(whole <= u64::MAX);
        push_number(&mut out, whole as u64, name);
    } else {
        let tenths: u128 = to_nearest(10 * n, unit);
        assert(tenths <= u64::MAX);
        extend(&mut out, &decimal_chars((tenths / 10) as u64));
        out.push('.');
        push_number(&mut out, (tenths % 10) as u64, name);
    }
    assert(out@ =~= size_text(kib as nat));
    from_chars(&out)
}

/// A duration is shown by the days, the hours of the last day and the minutes of the last hour that
/// make it up; what is zero at its front is left away.
pub proof fn durations_add_up(minutes: nat) -> (r: (nat, nat, nat))
    ensures
        ({
            let (d, h, m) = r;
            &&& d * 1440 + h * 60 + m == minutes
            &&& h < 24
            &&& m < 60
            &&& d > 0 ==> duration_text(minutes) == decimal(d) + "d "@ + decimal(h) + "h "@ + (
            decimal(m) + "m"@)
            &&& d == 0 && h > 0 ==> duration_text(minutes) == decimal(h) + "h "@ + (decimal(m)
                + "m"@)
            &&& d == 0 && h == 0 ==> duration_text(minutes) == decimal(m) + "m"@
        }),
{
    (minutes / 1440, (minutes / 60) % 24, minutes % 60)
}

proof fn nearest_is_near(n: nat, d: nat)
    requires
        d > 0,
    ensures
        -(d as int) <= 2 * (nearest(n, d) * d - n) <= d,
        2 * (nearest(n, d) * d - n) == d || 2 * (n - nearest(n, d) * d) == d ==> nearest(n, d) % 2
            == 0,
{
    let q = n / d;
    let r = n % d;
    assert(q * d + r == n && 0 <= r < d) by (nonlinear_arith)
        requires
            d > 0,
            q == n / d,
            r == n % d,
    ;
    assert((q + 1) * d == q * d + d) by (nonlinear_arith);
    if 2 * (nearest(n, d) * d - n) == d || 2 * (n - nearest(n, d) * d) == d {
        assert(2 * r == d);
    }
}

/// A size of less than nine quadrillion KiB is shown in the largest unit that is not above it, to the
/// nearest whole number of it or, below ten of it, to the nearest tenth; halves go to the even one.
/// `shown` is the number of units, or of tenths of it.
pub proof fn sizes_are_shown_to_the_nearest(kib: nat) -> (r: (nat, nat))
    requires
        kib < 0x20_0000_0000_0000,
    ensures
        ({
            let (unit, shown) = r;
            let name = if kib < 1024 {
                " KiB"@
            } else if kib < 1024 * 1024 {
                " MiB"@
            } else if kib < 1024 * 1024 * 1024 {
                " GiB"@
            } else {
                " TiB"@
            };
            let is_whole = kib >= 10 * unit;
            let exact: nat = if is_whole {
                kib
            } else {
                10 * kib
            };
            &&& unit == if kib < 1024 {
                1
            } else if kib < 1024 * 1024 {
                1024
            } else if kib < 1024 * 1024 * 1024 {
                1024 * 1024
            } else {
                1024nat * 1024 * 1024
            }
            &&& is_whole ==> size_text(kib) == decimal(shown) + name
            &&& !is_whole ==> size_text(kib) == decimal(shown / 10) + seq!['.'] + decimal(
                shown % 10,
            ) + name
            &&& -(unit as int) <= 2 * (shown * unit - exact) <= unit
            &&& 2 * (shown * unit - exact) == unit || 2 * (exact - shown * unit) == unit ==> shown
                % 2 == 0
        }),
{
    assert(precision(kib) == 1);
    assert(nearest(kib, 1) == kib) by {
        nearest_is_near(kib, 1);
    }
    assert(rounded(kib) == kib);
    let unit = unit_of(kib).0;
    let shown = if kib >= 10 * unit {
        nearest(kib, unit)
    } else {
        nearest(10 * kib, unit)
    };
    nearest_is_near(kib, unit);
    nearest_is_near(10 * kib, unit);
    (unit, shown)
}

proof fn precisions_fit(n: nat)
    requires
        n >= 0x20_0000_0000_0000,
    ensures
        precision(n) >= 2,
        precision(n) * 0x10_0000_0000_0000 <= n < precision(n) * 0x20_0000_0000_0000,
    decreases n,
{
    let half = n / 2;
    if half >= 0x20_0000_0000_0000 {
        precisions_fit(half);
    } else {
        assert(precision(half) == 1);
    }
}

/// A larger size is first rounded to as many binary digits as a double has, and then shown like any
/// other: `short` is the rounded size, a multiple of `step`, and `shown` the number of TiB.
pub proof fn large_sizes_are_rounded_first(kib: nat) -> (r: (nat, nat, nat))
    requires
        kib >= 0x20_0000_0000_0000,
    ensures
        ({
            let (step, short, shown) = r;
            let unit: nat = 1024 * 1024 * 1024;
            &&& step >= 2 && step * 0x10_0000_0000_0000 <= kib < step * 0x20_0000_0000_0000
            &&& short % step == 0
            &&& -(step as int) <= 2 * (short - kib) <= step
            &&& size_text(kib) == decimal(shown) + " TiB"@
            &&& -(unit as int) <= 2 * (shown * unit - short) <= unit
        }),
{
    let step = precision(kib);
    precisions_fit(kib);
    let q = nearest(kib, step);
    let short = rounded(kib);
    nearest_is_near(kib, step);
    assert((q * step) % step == 0) by (nonlinear_arith)
        requires
            step > 0,
    ;
    let shown = nearest(short, 0x4000_0000);
    nearest_is_near(short, 0x4000_0000);
    assert(2 * short >= 2 * kib - step);
    assert(short >= 0x4000_0000 * 10);
    (step, short, shown)
}

} // verus!
