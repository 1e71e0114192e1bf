use crate::text::{nfc_chars, nfc_of};
use vstd::prelude::*;

verus! {

/// Text that can be laid out: a string, walked in normalization form C, or characters
/// taken as they are.
pub trait RenderableCharacters: Copy {
    /// The characters that layout walks.
    spec fn chars_spec(&self) -> Seq<char>;

    /// A guess of the number of characters, for reserving space.
    fn len_hint(&self) -> usize;

    /// The characters that layout walks.
    fn layout_chars(&self) -> (r: Vec<char>)
        ensures
            r@ == self.chars_spec(),
    ;
}

impl<'a> RenderableCharacters for &'a str {
    open spec fn chars_spec(&self) -> Seq<char> {
        nfc_of((*self)@)
    }

    fn len_hint(&self) -> usize {
        self.len()
    }

    fn layout_chars(&self) -> (r: Vec<char>) {
        nfc_chars(*self)
    }
}

impl<'a> RenderableCharacters for &'a [char] {
    open spec fn chars_spec(&self) -> Seq<char> {
        (*self)@
    }

    fn len_hint(&self) -> usize {
        self.len()
    }

    fn layout_chars(&self) -> (r: Vec<char>) {
        let mut v: Vec<char> = Vec::new();
        let mut i: usize = 0;
        while i < self.len()
            invariant
                i <= self@.len(),
                v@ == self@.subrange(0, i as int),
            decreases self@.len() - i,
        {
            v.push(self[i]);
            i = i + 1;
        }
        v
    }
}

} // verus!
