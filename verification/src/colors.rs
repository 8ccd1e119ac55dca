//! ANSI coloring for the terminal report, through the `owo_colors` crate.
//!
//! Each painter wraps one foreground color or style. The contracts state the
//! exact escape sequences that `owo_colors` writes around the text: a color
//! opens with `ESC [ <code> m` and closes with `ESC [ 39 m` (the foreground
//! reset); the dim style closes with `ESC [ 0 m`.

use vstd::prelude::*;
use owo_colors::OwoColorize;

verus! {

/// The closing sequence after a foreground color.
pub open spec fn fg_close() -> Seq<char> {
    "\u{1b}[39m"@
}

/// Relies on owo_colors' `red` and `to_string`: red foreground is code 31.
#[verifier::external_body]
pub fn painted_red(s: &str) -> (r: String)
    ensures
        r@ == "\u{1b}[31m"@ + s@ + fg_close(),
{
    s.red().to_string()
}

/// Relies on owo_colors' `green` and `to_string`: green foreground is code 32.
#[verifier::external_body]
pub fn painted_green(s: &str) -> (r: String)
    ensures
        r@ == "\u{1b}[32m"@ + s@ + fg_close(),
{
    s.green().to_string()
}

/// Relies on owo_colors' `blue` and `to_string`: blue foreground is code 34.
#[verifier::external_body]
pub fn painted_blue(s: &str) -> (r: String)
    ensures
        r@ == "\u{1b}[34m"@ + s@ + fg_close(),
{
    s.blue().to_string()
}

/// Relies on owo_colors' `cyan` and `to_string`: cyan foreground is code 36.
#[verifier::external_body]
pub fn painted_cyan(s: &str) -> (r: String)
    ensures
        r@ == "\u{1b}[36m"@ + s@ + fg_close(),
{
    s.cyan().to_string()
}

/// Relies on owo_colors' `magenta` and `to_string`: magenta foreground is code 35.
#[verifier::external_body]
pub fn painted_magenta(s: &str) -> (r: String)
    ensures
        r@ == "\u{1b}[35m"@ + s@ + fg_close(),
{
    s.magenta().to_string()
}

/// Relies on owo_colors' `bright_blue` and `to_string`: bright blue foreground is code 94.
#[verifier::external_body]
pub fn painted_bright_blue(s: &str) -> (r: String)
    ensures
        r@ == "\u{1b}[94m"@ + s@ + fg_close(),
{
    s.bright_blue().to_string()
}

/// Relies on owo_colors' `bright_black` and `to_string`: bright black foreground is code 90.
#[verifier::external_body]
pub fn painted_bright_black(s: &str) -> (r: String)
    ensures
        r@ == "\u{1b}[90m"@ + s@ + fg_close(),
{
    s.bright_black().to_string()
}

/// Relies on owo_colors' `dimmed` and `to_string`: dim is style code 2,
/// closed by the full reset, code 0.
#[verifier::external_body]
pub fn painted_dimmed(s: &str) -> (r: String)
    ensures
        r@ == "\u{1b}[2m"@ + s@ + "\u{1b}[0m"@,
{
    s.dimmed().to_string()
}

/// Text painted red.
pub open spec fn red_of(s: Seq<char>) -> Seq<char> {
    "\u{1b}[31m"@ + s + fg_close()
}

/// Text painted green.
pub open spec fn green_of(s: Seq<char>) -> Seq<char> {
    "\u{1b}[32m"@ + s + fg_close()
}

/// Text painted blue.
pub open spec fn blue_of(s: Seq<char>) -> Seq<char> {
    "\u{1b}[34m"@ + s + fg_close()
}

/// Text painted cyan.
pub open spec fn cyan_of(s: Seq<char>) -> Seq<char> {
    "\u{1b}[36m"@ + s + fg_close()
}

/// Text painted magenta.
pub open spec fn magenta_of(s: Seq<char>) -> Seq<char> {
    "\u{1b}[35m"@ + s + fg_close()
}

/// Text painted bright blue.
pub open spec fn bright_blue_of(s: Seq<char>) -> Seq<char> {
    "\u{1b}[94m"@ + s + fg_close()
}

/// Text painted bright black.
pub open spec fn bright_black_of(s: Seq<char>) -> Seq<char> {
    "\u{1b}[90m"@ + s + fg_close()
}

/// Text in the dim style.
pub open spec fn dimmed_of(s: Seq<char>) -> Seq<char> {
    "\u{1b}[2m"@ + s + "\u{1b}[0m"@
}

/// A signed byte difference for the terminal: growth in red with a leading
/// "+", shrinkage in green with a leading "-", zero as a dim "no change".
pub open spec fn spec_size_diff_colored(diff: int) -> Seq<char> {
    if diff > 0 {
        "\u{1b}[31m"@ + crate::numfmt::spec_size_diff_md(diff) + fg_close()
    } else if diff < 0 {
        "\u{1b}[32m"@ + crate::numfmt::spec_size_diff_md(diff) + fg_close()
    } else {
        "\u{1b}[90m"@ + "no change"@ + fg_close()
    }
}

/// Format a size difference with appropriate color and sign.
pub fn format_size_diff(diff: i64) -> (r: String)
    ensures
        r@ == spec_size_diff_colored(diff as int),
{
    let plain = crate::numfmt::format_size_diff_md(diff);
    if diff > 0 {
        painted_red(plain.as_str())
    } else if diff < 0 {
        painted_green(plain.as_str())
    } else {
        painted_bright_black(plain.as_str())
    }
}

} // verus!
