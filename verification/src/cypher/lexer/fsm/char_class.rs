use vstd::prelude::*;

verus! {

/// Whether `c` has the Unicode Alphabetic property, as `char::is_alphabetic` tells.
pub uninterp spec fn char_is_alphabetic(c: char) -> bool;

/// Whether `c` is alphabetic or numeric, as `char::is_alphanumeric` tells.
pub uninterp spec fn char_is_alphanumeric(c: char) -> bool;

/// Whether `c` has a Unicode numeric general category, as `char::is_numeric` tells.
pub uninterp spec fn char_is_numeric(c: char) -> bool;

/// The characters of the lowercase mapping of `c`, as `char::to_lowercase` yields them.
pub uninterp spec fn char_lowercase(c: char) -> Seq<char>;

/// Calls `char::is_alphabetic`; the result is believed to be the named
/// property of `c` and nothing more is claimed of it.
#[verifier::external_body]
pub(crate) fn is_alphabetic(c: char) -> (r: bool)
    ensures
        r == char_is_alphabetic(c),
{
    c.is_alphabetic()
}

/// Calls `char::is_alphanumeric`; the result is believed to be the named
/// property of `c` and nothing more is claimed of it.
#[verifier::external_body]
pub(crate) fn is_alphanumeric(c: char) -> (r: bool)
    ensures
        r == char_is_alphanumeric(c),
{
    c.is_alphanumeric()
}

/// Calls `char::is_numeric`; the result is believed to be the named
/// property of `c` and nothing more is claimed of it.
#[verifier::external_body]
pub(crate) fn is_numeric(c: char) -> (r: bool)
    ensures
        r == char_is_numeric(c),
{
    c.is_numeric()
}

/// Calls `char::to_lowercase` and collects the characters it yields; they
/// are believed to be the named lowercase mapping of `c`, of which nothing
/// more is claimed.
#[verifier::external_body]
pub(crate) fn to_lowercase(c: char) -> (r: Vec<char>)
    ensures
        r@ == char_lowercase(c),
{
    c.to_lowercase().collect()
}

} // verus!
