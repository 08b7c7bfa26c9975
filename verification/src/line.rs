//! A short line of ASCII text that needs no heap, for use where nothing can be
//! allocated.

use vstd::array::array_as_slice;
use vstd::prelude::*;
use vstd::slice::slice_subrange;
use vstd::string::*;
use vstd::utf8::{encode_utf8, is_ascii_chars};

verus! {

/// Number of characters that a line has room for.
pub const LINE_CAPACITY: usize = 96;

/// A line of ASCII text. Its view is its characters.
pub struct Line {
    bytes: [u8; LINE_CAPACITY],
    len: usize,
}

impl View for Line {
    type V = Seq<char>;

    closed spec fn view(&self) -> Seq<char> {
        Seq::new(self.len as nat, |i: int| self.bytes@[i] as char)
    }
}

impl Line {
    #[verifier::type_invariant]
    spec fn is_text(self) -> bool {
        &&& self.len <= LINE_CAPACITY
        &&& forall|i: int| 0 <= i < self.len ==> #[trigger] self.bytes@[i] < 0x80
    }

    /// A line without characters.
    pub(crate) fn new() -> (line: Line)
        ensures
            line@ == Seq::<char>::empty(),
    {
        let line = Line { bytes: [0; LINE_CAPACITY], len: 0 };
        assert(line@ =~= Seq::<char>::empty());
        line
    }

    /// The line with one more character.
    pub(crate) fn with_char(self, ascii: u8) -> (line: Line)
        requires
            ascii < 0x80,
            self@.len() < LINE_CAPACITY,
        ensures
            line@ == self@.push(ascii as char),
    {
        proof {
            use_type_invariant(&self);
        }
        let mut bytes = self.bytes;
        bytes[self.len] = ascii;
        let line = Line { bytes, len: self.len + 1 };
        assert(line@ =~= self@.push(ascii as char));
        line
    }

    /// The line with more text.
    pub(crate) fn with_text(self, text: &str) -> (line: Line)
        requires
            is_ascii_chars(text@),
            self@.len() + text@.len() <= LINE_CAPACITY,
        ensures
            line@ == self@ + text@,
    {
        broadcast use is_ascii_spec_bytes;

        let more = text.as_bytes();
        assert(text.is_ascii());
        let mut line = self;
        let mut i: usize = 0;
        assert(text@.take(0) =~= Seq::<char>::empty());
        while i < more.len()
            invariant
                i <= more@.len(),
                more@ =~= Seq::new(text@.len(), |k: int| text@[k] as u8),
                is_ascii_chars(text@),
                self@.len() + text@.len() <= LINE_CAPACITY,
                line@ =~= self@ + text@.take(i as int),
            decreases more.len() - i,
        {
            let ghost ch = text@[i as int];
            assert((ch as u8) as char == ch && (ch as u8) < 0x80);
            line = line.with_char(more[i]);
            assert(text@.take(i + 1) =~= text@.take(i as int).push(ch));
            i += 1;
        }
        assert(text@.take(i as int) =~= text@);
        line
    }

    /// The line as it is sent: in UTF-8, one byte for each character.
    pub fn as_bytes(&self) -> (bytes: &[u8])
        ensures
            bytes@ == encode_utf8(self@),
            is_ascii_chars(self@),
    {
        proof {
            use_type_invariant(self);
            assert(is_ascii_chars(self@));
            vstd::utf8::is_ascii_chars_encode_utf8(self@);
        }
        let bytes = slice_subrange(array_as_slice(&self.bytes), 0, self.len);
        assert(bytes@ =~= encode_utf8(self@));
        bytes
    }
}

} // verus!
