//! Text, as far as the standard library has to be asked for it. The first
//! two functions are not proved: each states what the standard library
//! documents. The others are proved from them and from what `vstd` says of
//! strings.

use vstd::prelude::*;
use vstd::string::*;
use vstd::utf8::{decode_utf8, valid_utf8};

verus! {

/// Calls `String::from_utf8` on a copy of `bytes`.
///
/// Trusted: the call succeeds exactly on valid UTF-8, and the text is then
/// the characters that the bytes encode.
#[verifier::external_body]
pub(crate) fn utf8_text(bytes: &[u8]) -> (text: Option<String>)
    ensures
        text is Some <==> valid_utf8(bytes@),
        text is Some ==> text->0@ == decode_utf8(bytes@),
{
    String::from_utf8(bytes.to_vec()).ok()
}

/// Calls `String::push`.
///
/// Trusted: the character is appended to the text.
#[verifier::external_body]
pub(crate) fn push_char(text: &mut String, c: char)
    ensures
        final(text)@ == old(text)@.push(c),
{
    text.push(c);
}

/// Whether two texts are the same.
pub fn text_is(a: &str, b: &str) -> (same: bool)
    ensures
        same == (a@ == b@),
{
    let n: usize = a.unicode_len();
    if b.unicode_len() != n {
        return false;
    }
    let mut i: usize = 0;
    while i < n
        invariant
            i <= n,
            n == a@.len(),
            n == b@.len(),
            forall|k: int| 0 <= k < i ==> a@[k] == b@[k],
        decreases n - i,
    {
        if a.get_char(i) != b.get_char(i) {
            return false;
        }
        i = i + 1;
    }
    assert(a@ =~= b@);
    true
}

/// The decimal digits of `value`, as text.
pub open spec fn decimal_text(value: nat) -> Seq<char>
    decreases value,
{
    if value < 10 {
        seq![(48 + value) as u8 as char]
    } else {
        decimal_text(value / 10).push((48 + value % 10) as u8 as char)
    }
}

/// Appends the decimal digits of `value` to `text`.
pub fn push_decimal_text(text: &mut String, value: u64)
    ensures
        final(text)@ == old(text)@ + decimal_text(value as nat),
    decreases value,
{
    if value < 10 {
        push_char(text, (48 + value as u8) as char);
        assert(text@ =~= old(text)@ + decimal_text(value as nat));
    } else {
        push_decimal_text(text, value / 10);
        push_char(text, (48 + (value % 10) as u8) as char);
        assert(text@ =~= old(text)@ + decimal_text(value as nat));
    }
}

} // verus!
