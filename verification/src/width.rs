//! Display width of option text, enough for the ASCII flag tables
//! the CLI surface builds its usage text from.

use vstd::prelude::*;

verus! {

/// Whether a character is plain ASCII, one terminal column wide.
pub open spec fn ascii_char(c: char) -> bool {
    (c as u32) < 128
}

/// Column width of a string on a terminal. Only ASCII text is
/// measured here: every character is one column wide.
pub trait UnicodeWidthStr {
    /// The characters the width is measured over.
    spec fn chars_view(&self) -> Seq<char>;

    /// The number of columns the text occupies: one per character.
    fn width(&self) -> (w: usize)
        requires
            forall|i: int|
                0 <= i < self.chars_view().len() ==> ascii_char(#[trigger] self.chars_view()[i]),
        ensures
            w == self.chars_view().len(),
    ;

}

impl UnicodeWidthStr for str {
    open spec fn chars_view(&self) -> Seq<char> {
        self@
    }

    fn width(&self) -> (w: usize) {
        self.unicode_len()
    }
}

} // verus!
