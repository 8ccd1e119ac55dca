use limpid::colors::format_size_diff;
use limpid::numfmt::abs_u64;
use limpid::numfmt::fmt_duration_ms;
use limpid::numfmt::fmt_secs2;
use limpid::numfmt::fmt_thousands;
use limpid::numfmt::fmt_thousands_i64;
use limpid::numfmt::fmt_u64;
use limpid::numfmt::format_bytes;
use limpid::numfmt::format_bytes_u128;
use limpid::numfmt::format_size_diff_md;

#[test]
fn digits_render_in_decimal() {
    assert_eq!(fmt_u64(0), "0");
    assert_eq!(fmt_u64(7), "7");
    assert_eq!(fmt_u64(10), "10");
    assert_eq!(fmt_u64(90210), "90210");
    assert_eq!(fmt_u64(u64::MAX), "18446744073709551615");
}

#[test]
fn thousands_are_grouped_with_commas() {
    assert_eq!(fmt_thousands(0), "0");
    assert_eq!(fmt_thousands(999), "999");
    assert_eq!(fmt_thousands(1000), "1,000");
    assert_eq!(fmt_thousands(12345), "12,345");
    assert_eq!(fmt_thousands(1234567), "1,234,567");
    assert_eq!(fmt_thousands(-1024), "-1,024");
    assert_eq!(fmt_thousands_i64(-1000000), "-1,000,000");
}

#[test]
fn bytes_use_binary_units_with_one_decimal() {
    assert_eq!(format_bytes(0), "0 B");
    assert_eq!(format_bytes(1023), "1023 B");
    assert_eq!(format_bytes(1024), "1.0 KB");
    assert_eq!(format_bytes(1536), "1.5 KB");
    assert_eq!(format_bytes(10 * 1024), "10.0 KB");
    assert_eq!(format_bytes(1024 * 1024), "1.0 MB");
    assert_eq!(format_bytes(5 * 1024 * 1024 + 512 * 1024), "5.5 MB");
    assert_eq!(format_bytes(1024 * 1024 * 1024), "1.0 GB");
    assert_eq!(format_bytes(1024u64 * 1024 * 1024 * 1024), "1.0 TB");
    assert_eq!(format_bytes_u128(3 * 1024 * 1024), "3.0 MB");
}

#[test]
fn byte_rounding_is_half_away_from_zero() {
    // 1075 B = 1.0498 KB rounds down; 1127 B = 1.1006 KB rounds to 1.1
    assert_eq!(format_bytes(1075), "1.0 KB");
    assert_eq!(format_bytes(1127), "1.1 KB");
    // a fraction that rounds to ten carries into the whole part
    assert_eq!(format_bytes(1024 * 1024 - 1), "1024.0 KB");
}

#[test]
fn size_diff_markdown_signs() {
    assert_eq!(format_size_diff_md(40), "+40 B");
    assert_eq!(format_size_diff_md(-2048), "-2.0 KB");
    assert_eq!(format_size_diff_md(0), "no change");
    assert_eq!(format_size_diff_md(i64::MIN), "-8388608.0 TB");
}

#[test]
fn size_diff_terminal_is_colored() {
    assert_eq!(format_size_diff(40), "\u{1b}[31m+40 B\u{1b}[39m");
    assert_eq!(format_size_diff(-40), "\u{1b}[32m-40 B\u{1b}[39m");
    assert_eq!(format_size_diff(0), "\u{1b}[90mno change\u{1b}[39m");
}

#[test]
fn durations_scale_with_magnitude() {
    assert_eq!(fmt_duration_ms(500), "0.50 s");
    assert_eq!(fmt_duration_ms(1234), "1.23 s");
    assert_eq!(fmt_duration_ms(59994), "59.99 s");
    assert_eq!(fmt_duration_ms(65000), "1m 5.0s");
    assert_eq!(fmt_duration_ms(3900000), "1h 5m 0s");
    assert_eq!(fmt_secs2(10), "0.01");
    assert_eq!(fmt_secs2(12345), "12.35");
}

#[test]
fn magnitudes_cover_the_whole_signed_range() {
    assert_eq!(abs_u64(0), 0);
    assert_eq!(abs_u64(-5), 5);
    assert_eq!(abs_u64(i64::MIN), 1u64 << 63);
}
