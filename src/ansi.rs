//! Terminal styling text: colour escape sequences, and removing them again.
use vstd::prelude::*;
use crate::text::{decimal, decimal_of};

verus! {

/// The escape sequence that sets the foreground to a 24-bit colour.
pub open spec fn rgb_text(r: u8, g: u8, b: u8) -> Seq<char> {
    "\x1b[38;2;"@ + decimal_of(r as nat) + ";"@ + decimal_of(g as nat) + ";"@ + decimal_of(
        b as nat,
    ) + "m"@
}

/// The escape sequence that sets the foreground to the colour `(r, g, b)`.
pub fn rgb(r: u8, g: u8, b: u8) -> (s: String)
    ensures
        s@ == rgb_text(r, g, b),
{
    "\x1b[38;2;".to_owned().concat(decimal(r as usize).as_str()).concat(";").concat(
        decimal(g as usize).as_str(),
    ).concat(";").concat(decimal(b as usize).as_str()).concat("m")
}

/// The text that remains of `s` once its terminal escape sequences are removed.
pub uninterp spec fn without_escapes(s: Seq<char>) -> Seq<char>;

/// Relies on `ansi_regex::ansi_regex` and `Regex::replace_all` of the regex
/// crate: every match of the pattern `\x1b\[[\x30-\x3f]*[\x20-\x2f]*[\x40-\x7e]`
/// is replaced by nothing, so the result depends on the text alone, and a
/// text without an escape character is returned unchanged.
#[verifier::external_body]
fn erase_escapes(s: &str) -> (r: String)
    ensures
        r@ == without_escapes(s@),
        !s@.contains('\x1b') ==> r@ == s@,
{
    ansi_regex::ansi_regex().replace_all(s, "").into_owned()
}

/// `s` without its terminal escape sequences.
pub fn remove(s: &str) -> (r: String)
    ensures
        r@ == without_escapes(s@),
        !s@.contains('\x1b') ==> r@ == s@,
{
    erase_escapes(s)
}

} // verus!
