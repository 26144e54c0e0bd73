//! Colored status glyphs through the `colored` crate. Whether color codes
//! are written depends on the terminal and the environment, so each glyph
//! is only known to be the plain glyph or the glyph between an escape
//! prefix and the reset sequence.

use vstd::prelude::*;

verus! {

/// The reset sequence that `colored` writes after a colored text.
pub open spec fn reset_sequence() -> Seq<char> {
    "\x1B[0m"@
}

/// `r` is `text` as `colored` displays it: unchanged when coloring is off,
/// else preceded by a style sequence and followed by the reset sequence.
pub open spec fn painted(text: Seq<char>, r: Seq<char>) -> bool {
    r == text || exists|style: Seq<char>| r == style + text + reset_sequence()
}

/// `"+".green()` from `colored`, displayed.
#[verifier::external_body]
pub(crate) fn green_plus() -> (r: String)
    ensures
        painted("+"@, r@),
{
    colored::Colorize::green("+").to_string()
}

/// `"-".red()` from `colored`, displayed.
#[verifier::external_body]
pub(crate) fn red_minus() -> (r: String)
    ensures
        painted("-"@, r@),
{
    colored::Colorize::red("-").to_string()
}

/// `"~".yellow()` from `colored`, displayed.
#[verifier::external_body]
pub(crate) fn yellow_tilde() -> (r: String)
    ensures
        painted("~"@, r@),
{
    colored::Colorize::yellow("~").to_string()
}

/// `"=".dimmed()` from `colored`, displayed.
#[verifier::external_body]
pub(crate) fn dimmed_equals() -> (r: String)
    ensures
        painted("="@, r@),
{
    colored::Colorize::dimmed("=").to_string()
}

/// `"*".cyan()` from `colored`, displayed.
#[verifier::external_body]
pub(crate) fn cyan_star() -> (r: String)
    ensures
        painted("*"@, r@),
{
    colored::Colorize::cyan("*").to_string()
}

/// `"!".red().bold()` from `colored`, displayed.
#[verifier::external_body]
pub(crate) fn bold_red_bang() -> (r: String)
    ensures
        painted("!"@, r@),
{
    colored::Colorize::bold(colored::Colorize::red("!")).to_string()
}

} // verus!
