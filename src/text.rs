use unicode_normalization::UnicodeNormalization;
use vstd::prelude::*;

verus! {

/// The characters of `s`, in order.
pub fn chars_of(s: &str) -> (r: Vec<char>)
    ensures
        r@ == s@,
{
    let mut v: Vec<char> = Vec::new();
    for c in it: s.chars()
        invariant
            v@ == it.seq().subrange(0, it.index() as int),
    {
        v.push(c);
    }
    v
}

/// The canonical composition (Unicode normalization form C) of a text.
pub uninterp spec fn nfc_of(s: Seq<char>) -> Seq<char>;

/// Relies on `UnicodeNormalization::nfc` of unicode-normalization: the characters of the
/// text in normalization form C, a function of the text alone.
#[verifier::external_body]
pub(crate) fn nfc_chars(s: &str) -> (r: Vec<char>)
    ensures
        r@ == nfc_of(s@),
{
    s.nfc().collect()
}

} // verus!
