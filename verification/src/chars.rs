use vstd::prelude::*;
use crate::text::chars_of;

verus! {

/// What `char::is_whitespace` answers for `c`: whether it has the Unicode White_Space
/// property, which these code points have: U+0009 to U+000D, U+0020, U+0085, U+00A0,
/// U+1680, U+2000 to U+200A, U+2028, U+2029, U+202F, U+205F and U+3000.
pub open spec fn spec_char_is_whitespace(c: char) -> bool {
    let n = c as u32;
    ||| 0x9 <= n <= 0xD
    ||| n == 0x20
    ||| n == 0x85
    ||| n == 0xA0
    ||| n == 0x1680
    ||| 0x2000 <= n <= 0x200A
    ||| n == 0x2028
    ||| n == 0x2029
    ||| n == 0x202F
    ||| n == 0x205F
    ||| n == 0x3000
}

/// What `char::is_alphabetic` answers for `c`: whether it has the Unicode Alphabetic
/// property.
pub uninterp spec fn spec_char_is_alphabetic(c: char) -> bool;

/// What `char::is_numeric` answers for `c`: whether its general category is one of the
/// numeric ones (Nd, Nl, No).
pub uninterp spec fn spec_char_is_numeric(c: char) -> bool;

/// Whether `emojis::get(g)` finds `g` in the crate's table of emojis.
pub uninterp spec fn spec_is_emoji(g: Seq<char>) -> bool;

/// Whether `c` has the Unicode White_Space property (what `char::is_whitespace`
/// answers), by its code point.
pub fn char_is_whitespace(c: char) -> (r: bool)
    ensures
        r == spec_char_is_whitespace(c),
{
    let n = c as u32;
    (0x9 <= n && n <= 0xD) || n == 0x20 || n == 0x85 || n == 0xA0 || n == 0x1680 || (0x2000 <= n
        && n <= 0x200A) || n == 0x2028 || n == 0x2029 || n == 0x202F || n == 0x205F || n == 0x3000
}

/// `char::is_alphabetic`. Claimed: the answer is `spec_char_is_alphabetic(c)`.
#[verifier::external_body]
pub(crate) fn char_is_alphabetic(c: char) -> (r: bool)
    ensures
        r == spec_char_is_alphabetic(c),
{
    c.is_alphabetic()
}

/// `char::is_numeric`. Claimed: the answer is `spec_char_is_numeric(c)`.
#[verifier::external_body]
pub(crate) fn char_is_numeric(c: char) -> (r: bool)
    ensures
        r == spec_char_is_numeric(c),
{
    c.is_numeric()
}

/// `emojis::get(g).is_some()`: a lookup of `g` in the crate's table of emojis.
/// Claimed: the answer is `spec_is_emoji(g)`; which texts are in the table is left
/// unsaid.
#[verifier::external_body]
pub(crate) fn is_emoji(g: &str) -> (r: bool)
    ensures
        r == spec_is_emoji(g@),
{
    emojis::get(g).is_some()
}

/// The first character of a non-empty text.
pub fn first_char(g: &str) -> (r: char)
    requires
        g@.len() > 0,
    ensures
        r == g@[0],
{
    let cs = chars_of(g);
    cs[0]
}

} // verus!
