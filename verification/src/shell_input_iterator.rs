//! A backtrackable byte reader over one line of input.
//!
//! Every parser reads its input through [`ShellInputIterator`]. A reader never
//! changes the line it holds; it only moves its position forward, or back to a
//! [`ShellInputCheckpoint`] taken earlier.

use crate::byte_classes::{is_blank, is_universal_stop, contains_byte};
use vstd::prelude::*;

verus! {

/// Whether a word ends at `pos` in `s`: the input is exhausted, or the byte
/// at `pos` is a universal stop byte or one of `extra_stops`.
pub open spec fn word_ends_at(s: Seq<u8>, pos: int, extra_stops: Seq<u8>) -> bool {
    pos >= s.len() || is_universal_stop(s[pos]) || extra_stops.contains(s[pos])
}

/// Whether the bytes of `s` from `pos` on begin with `literal`.
pub open spec fn literal_at(s: Seq<u8>, pos: int, literal: Seq<u8>) -> bool {
    &&& pos + literal.len() <= s.len()
    &&& forall|k: int| 0 <= k < literal.len() ==> s[pos + k] == #[trigger] literal[k]
}

/// The first position at or after `pos` that holds no space or tab.
pub open spec fn blanks_end(s: Seq<u8>, pos: int) -> int
    decreases s.len() - pos,
{
    if 0 <= pos < s.len() && is_blank(s[pos]) {
        blanks_end(s, pos + 1)
    } else {
        pos
    }
}

/// `blanks_end` never moves backwards, stays within the input, and stops at
/// a byte that is no blank.
pub proof fn lemma_blanks_end(s: Seq<u8>, pos: int)
    requires
        0 <= pos <= s.len(),
    ensures
        pos <= blanks_end(s, pos) <= s.len(),
        blanks_end(s, pos) < s.len() ==> !is_blank(s[blanks_end(s, pos)]),
        forall|k: int| pos <= k < blanks_end(s, pos) ==> is_blank(#[trigger] s[k]),
    decreases s.len() - pos,
{
    if pos < s.len() && is_blank(s[pos]) {
        lemma_blanks_end(s, pos + 1);
    }
}

/// A position of a reader to which it can be moved back.
#[derive(Clone, Copy, Debug)]
pub struct ShellInputCheckpoint {
    index: usize,
}

impl ShellInputCheckpoint {
    /// The position that the checkpoint recorded.
    pub closed spec fn position(&self) -> int {
        self.index as int
    }
}

/// The reader: a line of bytes and the position of the next unread byte.
#[derive(Debug)]
pub struct ShellInputIterator {
    bytes: Vec<u8>,
    current_index: usize,
}

/// The grammar-level operations of the reader. An operation that reports
/// failure leaves the reader where it was.
pub trait ShellInputIteratorExt: Sized {
    /// The whole line that the reader holds.
    spec fn input(&self) -> Seq<u8>;

    /// The offset of the next unread byte in `input()`.
    spec fn position(&self) -> int;

    /// Consumes `to_compare` if the unread input begins with it and, where
    /// `whole_word` is set, a word ends right behind it.
    fn try_consume_string(&mut self, to_compare: &[u8], whole_word: bool) -> (consumed: bool)
        ensures
            final(self).input() == old(self).input(),
            consumed == (literal_at(old(self).input(), old(self).position(), to_compare@) && (
            whole_word ==> word_ends_at(
                old(self).input(),
                old(self).position() + to_compare@.len(),
                Seq::<u8>::empty(),
            ))),
            final(self).position() == old(self).position() + (if consumed {
                to_compare@.len() as int
            } else {
                0
            }),
    ;

    /// The next unread byte, which stays unread.
    fn peek(&self) -> (next: Option<u8>)
        ensures
            0 <= self.position() <= self.input().len(),
            next == (if self.position() < self.input().len() {
                Some(self.input()[self.position()])
            } else {
                None
            }),
    ;

    /// Consumes the next byte if there is one and `func` accepts it.
    fn next_if<F: FnOnce(&u8) -> bool>(&mut self, func: F) -> (taken: Option<u8>)
        requires
            old(self).position() < old(self).input().len() ==> call_requires(
                func,
                (&old(self).input()[old(self).position()],),
            ),
        ensures
            final(self).input() == old(self).input(),
            0 <= old(self).position() <= old(self).input().len(),
            match taken {
                Some(b) => {
                    &&& old(self).position() < old(self).input().len()
                    &&& b == old(self).input()[old(self).position()]
                    &&& call_ensures(func, (&b,), true)
                    &&& final(self).position() == old(self).position() + 1
                },
                None => {
                    &&& final(self).position() == old(self).position()
                    &&& old(self).position() < old(self).input().len() ==> call_ensures(
                        func,
                        (&old(self).input()[old(self).position()],),
                        false,
                    )
                },
            },
    ;

    /// Consumes the next byte unless a word ends here.
    fn next_in_word(&mut self, additional_characters: &[u8]) -> (taken: Option<u8>)
        ensures
            final(self).input() == old(self).input(),
            0 <= old(self).position() <= old(self).input().len(),
            word_ends_at(old(self).input(), old(self).position(), additional_characters@) ==> taken
                is None && final(self).position() == old(self).position(),
            !word_ends_at(old(self).input(), old(self).position(), additional_characters@)
                ==> taken == Some(old(self).input()[old(self).position()]) && final(self).position() == old(self).position() + 1,
    ;

    /// Whether a word ends at the reader's position.
    fn check_word_end(&self, additional_characters: &[u8]) -> (at_end: bool)
        ensures
            0 <= self.position() <= self.input().len(),
            at_end == word_ends_at(self.input(), self.position(), additional_characters@),
    ;

    /// Consumes the spaces and tabs at the reader's position. A newline stays.
    fn skip_whitespace(&mut self)
        ensures
            final(self).input() == old(self).input(),
            final(self).position() == blanks_end(old(self).input(), old(self).position()),
            old(self).position() <= final(self).position() <= final(self).input().len(),
    ;
}

impl ShellInputIterator {
    #[verifier::type_invariant]
    spec fn in_bounds(&self) -> bool {
        self.current_index <= self.bytes@.len()
    }

    /// The position of a reader lies within its line or right behind it.
    pub proof fn lemma_position_in_bounds(&self)
        ensures
            0 <= self.position() <= self.input().len(),
    {
    }

    /// A reader at the start of `input`.
    pub fn new(input: Vec<u8>) -> (reader: Self)
        ensures
            reader.input() == input@,
            reader.position() == 0,
    {
        Self { bytes: input, current_index: 0 }
    }

    /// The offset of the next unread byte.
    pub fn get_current_index(&self) -> (index: usize)
        ensures
            index == self.position(),
            index <= self.input().len(),
    {
        proof {
            use_type_invariant(self);
        }
        self.current_index
    }

    /// The number of bytes in the line.
    pub fn input_len(&self) -> (len: usize)
        ensures
            len == self.input().len(),
    {
        self.bytes.len()
    }

    /// Consumes the next byte. At the end of the input nothing changes.
    pub fn next(&mut self) -> (taken: Option<u8>)
        ensures
            final(self).input() == old(self).input(),
            0 <= old(self).position() <= old(self).input().len(),
            old(self).position() < old(self).input().len() ==> taken == Some(
                old(self).input()[old(self).position()],
            ) && final(self).position() == old(self).position() + 1,
            old(self).position() >= old(self).input().len() ==> taken is None && final(self).position() == old(self).position(),
    {
        proof {
            use_type_invariant(&*self);
        }
        if self.current_index < self.bytes.len() {
            let b = self.bytes[self.current_index];
            self.current_index += 1;
            Some(b)
        } else {
            None
        }
    }

    /// Records the reader's position.
    pub fn checkpoint(&self) -> (mark: ShellInputCheckpoint)
        ensures
            mark.position() == self.position(),
            0 <= mark.position() <= self.input().len(),
    {
        proof {
            use_type_invariant(self);
        }
        ShellInputCheckpoint { index: self.current_index }
    }

    /// Moves the reader back (or forward) to a recorded position. A mark that
    /// lies beyond the line, as one taken on a longer line would, moves
    /// nothing.
    pub fn restore(&mut self, mark: ShellInputCheckpoint)
        ensures
            final(self).input() == old(self).input(),
            final(self).position() == (if mark.position() <= old(self).input().len() {
                mark.position()
            } else {
                old(self).position()
            }),
    {
        if mark.index <= self.bytes.len() {
            self.current_index = mark.index;
        }
    }
}

impl Clone for ShellInputIterator {
    /// A second reader over the same line, at the same position.
    fn clone(&self) -> (copy: Self)
        ensures
            copy.input() == self.input(),
            copy.position() == self.position(),
    {
        proof {
            use_type_invariant(self);
        }
        let bytes = self.bytes.clone();
        assert(bytes@ =~= self.bytes@);
        Self { bytes, current_index: self.current_index }
    }
}

impl ShellInputIteratorExt for ShellInputIterator {
    closed spec fn input(&self) -> Seq<u8> {
        self.bytes@
    }

    closed spec fn position(&self) -> int {
        if self.current_index <= self.bytes@.len() {
            self.current_index as int
        } else {
            self.bytes@.len() as int
        }
    }

    fn try_consume_string(&mut self, to_compare: &[u8], whole_word: bool) -> (consumed: bool) {
        proof {
            use_type_invariant(&*self);
        }
        let start: usize = self.current_index;
        let n: usize = to_compare.len();
        if n > self.bytes.len() - start {
            return false;
        }
        let mut k: usize = 0;
        while k < n
            invariant
                k <= n,
                n == to_compare@.len(),
                start + n <= self.bytes.len(),
                start == old(self).current_index,
                *self == *old(self),
                forall|j: int| 0 <= j < k ==> self.bytes@[start + j] == #[trigger] to_compare@[j],
            decreases n - k,
        {
            if self.bytes[start + k] != to_compare[k] {
                return false;
            }
            k += 1;
        }
        if whole_word && start + n < self.bytes.len() && !is_universal_stop(self.bytes[start + n]) {
            return false;
        }
        self.current_index = start + n;
        true
    }

    fn peek(&self) -> (next: Option<u8>) {
        proof {
            use_type_invariant(self);
        }
        if self.current_index < self.bytes.len() {
            Some(self.bytes[self.current_index])
        } else {
            None
        }
    }

    fn next_if<F: FnOnce(&u8) -> bool>(&mut self, func: F) -> (taken: Option<u8>) {
        proof {
            use_type_invariant(&*self);
        }
        if self.current_index < self.bytes.len() {
            let b = self.bytes[self.current_index];
            if func(&b) {
                self.current_index += 1;
                Some(b)
            } else {
                None
            }
        } else {
            None
        }
    }

    fn next_in_word(&mut self, additional_characters: &[u8]) -> (taken: Option<u8>) {
        if self.check_word_end(additional_characters) {
            None
        } else {
            self.next()
        }
    }

    fn check_word_end(&self, additional_characters: &[u8]) -> (at_end: bool) {
        match self.peek() {
            None => true,
            Some(b) => is_universal_stop(b) || contains_byte(additional_characters, b),
        }
    }

    fn skip_whitespace(&mut self) {
        proof {
            use_type_invariant(&*self);
            lemma_blanks_end(self.bytes@, self.current_index as int);
        }
        while self.current_index < self.bytes.len() && is_blank(self.bytes[self.current_index])
            invariant
                self.bytes@ == old(self).bytes@,
                old(self).current_index <= self.current_index <= self.bytes@.len(),
                blanks_end(self.bytes@, self.current_index as int) == blanks_end(
                    old(self).bytes@,
                    old(self).current_index as int,
                ),
            decreases self.bytes@.len() - self.current_index,
        {
            self.current_index += 1;
        }
    }
}

} // verus!
