//! Rendering of byte counts, plain counts and durations as text.
//!
//! All quantities are integers; fractional displays (one decimal for byte
//! units, two for seconds) are computed with integer arithmetic, rounding
//! half away from zero.

use vstd::prelude::*;

verus! {

/// The character for a single decimal digit.
pub open spec fn spec_digit_char(d: int) -> char {
    if d == 0 {
        '0'
    } else if d == 1 {
        '1'
    } else if d == 2 {
        '2'
    } else if d == 3 {
        '3'
    } else if d == 4 {
        '4'
    } else if d == 5 {
        '5'
    } else if d == 6 {
        '6'
    } else if d == 7 {
        '7'
    } else if d == 8 {
        '8'
    } else {
        '9'
    }
}

/// Decimal digits of a non-negative integer, most significant first.
pub open spec fn spec_digits(n: int) -> Seq<char>
    decreases n,
{
    if n < 10 {
        seq![spec_digit_char(n)]
    } else {
        spec_digits(n / 10).push(spec_digit_char(n % 10))
    }
}

fn digit_str(d: u64) -> (r: &'static str)
    requires
        d < 10,
    ensures
        r@ == seq![spec_digit_char(d as int)],
{
    if d == 0 {
        let s = "0";
        proof {
            reveal_strlit("0");
            assert(s@ =~= seq![spec_digit_char(d as int)]);
        }
        s
    } else if d == 1 {
        let s = "1";
        proof {
            reveal_strlit("1");
            assert(s@ =~= seq![spec_digit_char(d as int)]);
        }
        s
    } else if d == 2 {
        let s = "2";
        proof {
            reveal_strlit("2");
            assert(s@ =~= seq![spec_digit_char(d as int)]);
        }
        s
    } else if d == 3 {
        let s = "3";
        proof {
            reveal_strlit("3");
            assert(s@ =~= seq![spec_digit_char(d as int)]);
        }
        s
    } else if d == 4 {
        let s = "4";
        proof {
            reveal_strlit("4");
            assert(s@ =~= seq![spec_digit_char(d as int)]);
        }
        s
    } else if d == 5 {
        let s = "5";
        proof {
            reveal_strlit("5");
            assert(s@ =~= seq![spec_digit_char(d as int)]);
        }
        s
    } else if d == 6 {
        let s = "6";
        proof {
            reveal_strlit("6");
            assert(s@ =~= seq![spec_digit_char(d as int)]);
        }
        s
    } else if d == 7 {
        let s = "7";
        proof {
            reveal_strlit("7");
            assert(s@ =~= seq![spec_digit_char(d as int)]);
        }
        s
    } else if d == 8 {
        let s = "8";
        proof {
            reveal_strlit("8");
            assert(s@ =~= seq![spec_digit_char(d as int)]);
        }
        s
    } else {
        let s = "9";
        proof {
            reveal_strlit("9");
            assert(s@ =~= seq![spec_digit_char(d as int)]);
        }
        s
    }
}

/// Render a non-negative integer in decimal.
pub fn fmt_u64(n: u64) -> (r: String)
    ensures
        r@ == spec_digits(n as int),
    decreases n,
{
    if n < 10 {
        digit_str(n).to_owned()
    } else {
        let prefix = fmt_u64(n / 10);
        let r = prefix.concat(digit_str(n % 10));
        proof {
            assert(r@ =~= spec_digits(n as int));
        }
        r
    }
}

/// Render a non-negative integer in decimal, for quantities summed beyond
/// the range of one value.
pub fn fmt_u128(n: u128) -> (r: String)
    ensures
        r@ == spec_digits(n as int),
    decreases n,
{
    if n < 10 {
        digit_str(n as u64).to_owned()
    } else {
        let prefix = fmt_u128(n / 10);
        let r = prefix.concat(digit_str((n % 10) as u64));
        proof {
            assert(r@ =~= spec_digits(n as int));
        }
        r
    }
}

/// Digits of an integer in [0, 1000), zero-padded on the left to width 3.
pub open spec fn spec_pad3(n: int) -> Seq<char> {
    if n < 10 {
        seq!['0', '0'] + spec_digits(n)
    } else if n < 100 {
        seq!['0'] + spec_digits(n)
    } else {
        spec_digits(n)
    }
}

fn fmt_pad3(n: u64) -> (r: String)
    requires
        n < 1000,
    ensures
        r@ == spec_pad3(n as int),
{
    if n < 10 {
        let zz = "00";
        let r = zz.to_owned().concat(digit_str(n));
        proof {
            reveal_strlit("00");
            assert(zz@ =~= seq!['0', '0']);
            assert(r@ =~= spec_pad3(n as int));
        }
        r
    } else if n < 100 {
        let z = "0";
        let r = z.to_owned().concat(fmt_u64(n).as_str());
        proof {
            reveal_strlit("0");
            assert(z@ =~= seq!['0']);
            assert(r@ =~= spec_pad3(n as int));
        }
        r
    } else {
        fmt_u64(n)
    }
}

/// Decimal digits of a non-negative integer, grouped in threes by commas.
pub open spec fn spec_grouped(n: int) -> Seq<char>
    decreases n,
{
    if n < 1000 {
        spec_digits(n)
    } else {
        spec_grouped(n / 1000) + seq![','] + spec_pad3(n % 1000)
    }
}

fn fmt_grouped(n: u64) -> (r: String)
    ensures
        r@ == spec_grouped(n as int),
    decreases n,
{
    if n < 1000 {
        fmt_u64(n)
    } else {
        let prefix = fmt_grouped(n / 1000);
        let comma = ",";
        let r = prefix.concat(comma).concat(fmt_pad3(n % 1000).as_str());
        proof {
            reveal_strlit(",");
            assert(comma@ =~= seq![',']);
            assert(r@ =~= spec_grouped(n as int));
        }
        r
    }
}

/// A signed count with thousand separators: a leading '-' for negatives,
/// then the digits grouped in threes by commas.
pub open spec fn spec_thousands(n: int) -> Seq<char> {
    if n < 0 {
        seq!['-'] + spec_grouped(-n)
    } else {
        spec_grouped(n)
    }
}

/// Format a number with thousand separators (e.g., 12,345 or -1,024).
pub fn fmt_thousands(n: isize) -> (r: String)
    ensures
        r@ == spec_thousands(n as int),
{
    fmt_thousands_i64(n as i64)
}

/// Format a signed difference with thousand separators.
pub fn fmt_thousands_i64(n: i64) -> (r: String)
    ensures
        r@ == spec_thousands(n as int),
{
    let wide: i128 = n as i128;
    if wide < 0 {
        let mag: u64 = (-wide) as u64;
        let minus = "-";
        let r = minus.to_owned().concat(fmt_grouped(mag).as_str());
        proof {
            reveal_strlit("-");
            assert(minus@ =~= seq!['-']);
            assert(r@ =~= spec_thousands(n as int));
        }
        r
    } else {
        fmt_grouped(n as u64)
    }
}

/// Grouped digits of a non-negative integer beyond the range of one value.
pub fn fmt_grouped_u128(n: u128) -> (r: String)
    ensures
        r@ == spec_grouped(n as int),
    decreases n,
{
    if n < 1000 {
        fmt_u128(n)
    } else {
        let prefix = fmt_grouped_u128(n / 1000);
        let comma = ",";
        let r = prefix.concat(comma).concat(fmt_pad3((n % 1000) as u64).as_str());
        proof {
            reveal_strlit(",");
            assert(comma@ =~= seq![',']);
            assert(r@ =~= spec_grouped(n as int));
        }
        r
    }
}

/// A quantity scaled by `div`, shown with one decimal digit, rounding half
/// away from zero. A fraction that rounds to ten carries into the whole part.
pub open spec fn spec_one_decimal(n: int, div: int) -> Seq<char>
    recommends
        div >= 2,
        n >= 0,
{
    let whole = n / div;
    let frac10 = ((n % div) * 10 + div / 2) / div;
    if frac10 == 10 {
        spec_digits(whole + 1) + seq!['.', '0']
    } else {
        spec_digits(whole) + seq!['.', spec_digit_char(frac10)]
    }
}

fn fmt_one_decimal(n: u64, div: u64) -> (r: String)
    requires
        2 <= div <= 0x10000000000u64,
    ensures
        r@ == spec_one_decimal(n as int, div as int),
{
    let whole = n / div;
    let rem = n % div;
    let frac10 = (rem * 10 + div / 2) / div;
    let dot = ".";
    proof {
        reveal_strlit(".");
        assert(dot@ =~= seq!['.']);
        let d = div as int;
        let rr = rem as int;
        assert((rr * 10 + d / 2) / d <= 10) by (nonlinear_arith)
            requires
                2 <= d,
                0 <= rr < d,
        ;
        assert(n as int / d <= n as int / 2) by (nonlinear_arith)
            requires
                2 <= d,
                0 <= n as int,
        ;
    }
    if frac10 == 10 {
        let r = fmt_u64(whole + 1).concat(dot).concat(digit_str(0));
        proof {
            assert(r@ =~= spec_one_decimal(n as int, div as int));
        }
        r
    } else {
        let r = fmt_u64(whole).concat(dot).concat(digit_str(frac10));
        proof {
            assert(r@ =~= spec_one_decimal(n as int, div as int));
        }
        r
    }
}

/// A byte count rendered in binary units: plain bytes below 1024, otherwise
/// the largest unit of KB, MB, GB, TB that leaves a value of at least one,
/// with one decimal digit.
pub open spec fn spec_format_bytes(n: int) -> Seq<char> {
    if n < 1024 {
        spec_digits(n) + seq![' ', 'B']
    } else if n < 0x100000 {
        spec_one_decimal(n, 1024) + seq![' ', 'K', 'B']
    } else if n < 0x40000000 {
        spec_one_decimal(n, 0x100000) + seq![' ', 'M', 'B']
    } else if n < 0x10000000000 {
        spec_one_decimal(n, 0x40000000) + seq![' ', 'G', 'B']
    } else {
        spec_one_decimal(n, 0x10000000000) + seq![' ', 'T', 'B']
    }
}

/// Format a byte count into a human-readable string (e.g., 1.2 MB).
pub fn format_bytes(bytes: u64) -> (r: String)
    ensures
        r@ == spec_format_bytes(bytes as int),
{
    if bytes < 1024 {
        let unit = " B";
        let r = fmt_u64(bytes).concat(unit);
        proof {
            reveal_strlit(" B");
            assert(unit@ =~= seq![' ', 'B']);
            assert(r@ =~= spec_format_bytes(bytes as int));
        }
        r
    } else if bytes < 0x100000 {
        let unit = " KB";
        let r = fmt_one_decimal(bytes, 1024).concat(unit);
        proof {
            reveal_strlit(" KB");
            assert(unit@ =~= seq![' ', 'K', 'B']);
            assert(r@ =~= spec_format_bytes(bytes as int));
        }
        r
    } else if bytes < 0x40000000 {
        let unit = " MB";
        let r = fmt_one_decimal(bytes, 0x100000).concat(unit);
        proof {
            reveal_strlit(" MB");
            assert(unit@ =~= seq![' ', 'M', 'B']);
            assert(r@ =~= spec_format_bytes(bytes as int));
        }
        r
    } else if bytes < 0x10000000000 {
        let unit = " GB";
        let r = fmt_one_decimal(bytes, 0x40000000).concat(unit);
        proof {
            reveal_strlit(" GB");
            assert(unit@ =~= seq![' ', 'G', 'B']);
            assert(r@ =~= spec_format_bytes(bytes as int));
        }
        r
    } else {
        let unit = " TB";
        let r = fmt_one_decimal(bytes, 0x10000000000).concat(unit);
        proof {
            reveal_strlit(" TB");
            assert(unit@ =~= seq![' ', 'T', 'B']);
            assert(r@ =~= spec_format_bytes(bytes as int));
        }
        r
    }
}

/// A byte count beyond the range of one value, rendered in binary units.
pub fn format_bytes_u128(bytes: u128) -> (r: String)
    ensures
        r@ == spec_format_bytes(bytes as int),
{
    if bytes < 1024 {
        let unit = " B";
        let r = fmt_u128(bytes).concat(unit);
        proof {
            reveal_strlit(" B");
            assert(unit@ =~= seq![' ', 'B']);
            assert(r@ =~= spec_format_bytes(bytes as int));
        }
        r
    } else if bytes < 0x100000 {
        let unit = " KB";
        let r = fmt_one_decimal_u128(bytes, 1024).concat(unit);
        proof {
            reveal_strlit(" KB");
            assert(unit@ =~= seq![' ', 'K', 'B']);
            assert(r@ =~= spec_format_bytes(bytes as int));
        }
        r
    } else if bytes < 0x40000000 {
        let unit = " MB";
        let r = fmt_one_decimal_u128(bytes, 0x100000).concat(unit);
        proof {
            reveal_strlit(" MB");
            assert(unit@ =~= seq![' ', 'M', 'B']);
            assert(r@ =~= spec_format_bytes(bytes as int));
        }
        r
    } else if bytes < 0x10000000000 {
        let unit = " GB";
        let r = fmt_one_decimal_u128(bytes, 0x40000000).concat(unit);
        proof {
            reveal_strlit(" GB");
            assert(unit@ =~= seq![' ', 'G', 'B']);
            assert(r@ =~= spec_format_bytes(bytes as int));
        }
        r
    } else {
        let unit = " TB";
        let r = fmt_one_decimal_u128(bytes, 0x10000000000).concat(unit);
        proof {
            reveal_strlit(" TB");
            assert(unit@ =~= seq![' ', 'T', 'B']);
            assert(r@ =~= spec_format_bytes(bytes as int));
        }
        r
    }
}

fn fmt_one_decimal_u128(n: u128, div: u128) -> (r: String)
    requires
        2 <= div <= 0x10000000000u128,
    ensures
        r@ == spec_one_decimal(n as int, div as int),
{
    let whole = n / div;
    let rem = n % div;
    let frac10 = (rem * 10 + div / 2) / div;
    let dot = ".";
    proof {
        reveal_strlit(".");
        assert(dot@ =~= seq!['.']);
        let d = div as int;
        let rr = rem as int;
        assert((rr * 10 + d / 2) / d <= 10) by (nonlinear_arith)
            requires
                2 <= d,
                0 <= rr < d,
        ;
        assert(n as int / d <= n as int / 2) by (nonlinear_arith)
            requires
                2 <= d,
                0 <= n as int,
        ;
    }
    if frac10 == 10 {
        let r = fmt_u128(whole + 1).concat(dot).concat(digit_str(0));
        proof {
            assert(r@ =~= spec_one_decimal(n as int, div as int));
        }
        r
    } else {
        let r = fmt_u128(whole).concat(dot).concat(digit_str(frac10 as u64));
        proof {
            assert(r@ =~= spec_one_decimal(n as int, div as int));
        }
        r
    }
}

/// The magnitude of a signed quantity, as a mathematical integer.
pub open spec fn spec_abs(n: int) -> int {
    if n < 0 {
        -n
    } else {
        n
    }
}

/// A signed byte difference without color: "+" and the magnitude for growth,
/// "-" and the magnitude for shrinkage, "no change" for zero.
pub open spec fn spec_size_diff_md(diff: int) -> Seq<char> {
    if diff > 0 {
        seq!['+'] + spec_format_bytes(diff)
    } else if diff < 0 {
        seq!['-'] + spec_format_bytes(-diff)
    } else {
        "no change"@
    }
}

/// The magnitude of a signed difference as a byte count.
pub fn abs_u64(diff: i64) -> (r: u64)
    ensures
        r as int == spec_abs(diff as int),
{
    let wide: i128 = diff as i128;
    if wide < 0 {
        (-wide) as u64
    } else {
        diff as u64
    }
}

/// Format a size difference for markdown (no colors).
pub fn format_size_diff_md(diff: i64) -> (r: String)
    ensures
        r@ == spec_size_diff_md(diff as int),
{
    if diff > 0 {
        let plus = "+";
        let r = plus.to_owned().concat(format_bytes(abs_u64(diff)).as_str());
        proof {
            reveal_strlit("+");
            assert(plus@ =~= seq!['+']);
            assert(r@ =~= spec_size_diff_md(diff as int));
        }
        r
    } else if diff < 0 {
        let minus = "-";
        let r = minus.to_owned().concat(format_bytes(abs_u64(diff)).as_str());
        proof {
            reveal_strlit("-");
            assert(minus@ =~= seq!['-']);
            assert(r@ =~= spec_size_diff_md(diff as int));
        }
        r
    } else {
        let r = "no change".to_owned();
        r
    }
}

/// A duration given in milliseconds, rendered as seconds with two decimals
/// under a minute, minutes and seconds with one decimal under an hour, and
/// hours, minutes and whole seconds above, rounding half away from zero at
/// the displayed precision.
pub open spec fn spec_duration(ms: int) -> Seq<char> {
    if ms < 60000 {
        let cs = (ms + 5) / 10;
        spec_digits(cs / 100) + seq!['.'] + spec_pad2(cs % 100) + seq![' ', 's']
    } else if ms < 3600000 {
        let m = ms / 60000;
        let ds = (ms % 60000 + 50) / 100;
        spec_digits(m) + seq!['m', ' '] + spec_digits(ds / 10) + seq!['.', spec_digit_char(ds % 10)]
            + seq!['s']
    } else {
        let h = ms / 3600000;
        let m = (ms % 3600000) / 60000;
        let s = (ms % 60000 + 500) / 1000;
        spec_digits(h) + seq!['h', ' '] + spec_digits(m) + seq!['m', ' '] + spec_digits(s)
            + seq!['s']
    }
}

/// Digits of an integer in [0, 100), zero-padded on the left to width 2.
pub open spec fn spec_pad2(n: int) -> Seq<char> {
    if n < 10 {
        seq!['0'] + spec_digits(n)
    } else {
        spec_digits(n)
    }
}

fn fmt_pad2(n: u64) -> (r: String)
    requires
        n < 100,
    ensures
        r@ == spec_pad2(n as int),
{
    if n < 10 {
        let z = "0";
        let r = z.to_owned().concat(digit_str(n));
        proof {
            reveal_strlit("0");
            assert(z@ =~= seq!['0']);
            assert(r@ =~= spec_pad2(n as int));
        }
        r
    } else {
        fmt_u64(n)
    }
}

/// A millisecond count as seconds with two decimals, rounding half away
/// from zero, without a unit.
pub open spec fn spec_secs2(ms: int) -> Seq<char> {
    let cs = (ms + 5) / 10;
    spec_digits(cs / 100) + seq!['.'] + spec_pad2(cs % 100)
}

/// Format a millisecond count as seconds with two decimals.
pub fn fmt_secs2(ms: u64) -> (r: String)
    requires
        ms <= 0x7fff_ffff_ffff_ffffu64,
    ensures
        r@ == spec_secs2(ms as int),
{
    let cs = (ms + 5) / 10;
    let dot = ".";
    let r = fmt_u64(cs / 100).concat(dot).concat(fmt_pad2(cs % 100).as_str());
    proof {
        reveal_strlit(".");
        assert(dot@ =~= seq!['.']);
        assert(r@ =~= spec_secs2(ms as int));
    }
    r
}

/// Format a wall-clock duration, given in milliseconds.
pub fn fmt_duration_ms(ms: u64) -> (r: String)
    ensures
        r@ == spec_duration(ms as int),
{
    if ms < 60000 {
        let cs = (ms + 5) / 10;
        let dot = ".";
        let unit = " s";
        let r = fmt_u64(cs / 100).concat(dot).concat(fmt_pad2(cs % 100).as_str()).concat(unit);
        proof {
            reveal_strlit(".");
            reveal_strlit(" s");
            assert(dot@ =~= seq!['.']);
            assert(unit@ =~= seq![' ', 's']);
            assert(r@ =~= spec_duration(ms as int));
        }
        r
    } else if ms < 3600000 {
        let m = ms / 60000;
        let ds = (ms % 60000 + 50) / 100;
        let mid = "m ";
        let dot = ".";
        let unit = "s";
        proof {
            assert(ds / 10 <= 60);
            assert(ds % 10 < 10);
        }
        let r = fmt_u64(m).concat(mid).concat(fmt_u64(ds / 10).as_str()).concat(dot).concat(
            digit_str(ds % 10),
        ).concat(unit);
        proof {
            reveal_strlit("m ");
            reveal_strlit(".");
            reveal_strlit("s");
            assert(mid@ =~= seq!['m', ' ']);
            assert(dot@ =~= seq!['.']);
            assert(unit@ =~= seq!['s']);
            assert(r@ =~= spec_duration(ms as int));
        }
        r
    } else {
        let h = ms / 3600000;
        let m = (ms % 3600000) / 60000;
        let s = (ms % 60000 + 500) / 1000;
        let hm = "h ";
        let mm = "m ";
        let unit = "s";
        let r = fmt_u64(h).concat(hm).concat(fmt_u64(m).as_str()).concat(mm).concat(
            fmt_u64(s).as_str(),
        ).concat(unit);
        proof {
            reveal_strlit("h ");
            reveal_strlit("m ");
            reveal_strlit("s");
            assert(hm@ =~= seq!['h', ' ']);
            assert(mm@ =~= seq!['m', ' ']);
            assert(unit@ =~= seq!['s']);
            assert(r@ =~= spec_duration(ms as int));
        }
        r
    }
}

} // verus!
