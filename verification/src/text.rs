//! Building the texts of error messages.
use vstd::prelude::*;

verus! {

pub(crate) fn text(s: &str) -> (r: String)
    ensures
        r@ == s@,
{
    s.to_owned()
}

pub(crate) fn join(a: &str, b: &str) -> (r: String)
    ensures
        r@ == a@ + b@,
{
    let mut r = a.to_owned();
    r.append(b);
    r
}

pub(crate) fn join3(a: &str, b: &str, c: &str) -> (r: String)
    ensures
        r@ == a@ + b@ + c@,
{
    let mut r = a.to_owned();
    r.append(b);
    r.append(c);
    r
}

/// What `char`'s `Debug` renders for the byte read as a character (quoted
/// and escaped); a function of the byte alone.
pub uninterp spec fn char_debug(c: u8) -> Seq<char>;

/// What `str`'s `Debug` renders for the text (quoted and escaped); a
/// function of the text alone.
pub uninterp spec fn str_debug(s: Seq<char>) -> Seq<char>;

/// Calls `char`'s `Debug` on the byte read as a character. Claimed: the
/// rendering is `char_debug` of the byte.
#[verifier::external_body]
pub(crate) fn debug_char(c: u8) -> (r: String)
    ensures
        r@ == char_debug(c),
{
    format!("{:?}", c as char)
}

/// Calls `str`'s `Debug`. Claimed: the rendering is `str_debug` of the
/// text.
#[verifier::external_body]
pub(crate) fn debug_str(s: &str) -> (r: String)
    ensures
        r@ == str_debug(s@),
{
    format!("{:?}", s)
}

/// The decimal digits of `n`, most significant first, without leading
/// zeros.
pub open spec fn decimal_text(n: nat) -> Seq<char>
    decreases n,
{
    if n < 10 {
        seq![(48 + n) as char]
    } else {
        decimal_text(n / 10).push((48 + n % 10) as char)
    }
}

/// Calls `usize`'s `Display` through `ToString::to_string`. Claimed, as the
/// documentation of integer formatting says: the decimal digits, without
/// sign or leading zeros.
#[verifier::external_body]
pub(crate) fn decimal(n: usize) -> (r: String)
    ensures
        r@ == decimal_text(n as nat),
{
    n.to_string()
}

} // verus!
