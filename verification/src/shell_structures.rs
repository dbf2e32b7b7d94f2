//! The trees that the parsers build, and how each is written back as text.

use vstd::prelude::*;

pub mod shell_command;
pub mod shell_variable_assignment;
pub mod shell_word;

verus! {

/// A node of a parsed tree, which can be written back as shell text.
pub trait ShellToken {
    /// The text that the node is written back as.
    spec fn original(&self) -> Seq<u8>;

    /// Writes the node back as shell text.
    fn restore_original(&self) -> (bytes: Vec<u8>)
        ensures
            bytes@ == self.original(),
    ;
}

/// The pieces one after the other.
pub open spec fn concat(pieces: Seq<Seq<u8>>) -> Seq<u8>
    decreases pieces.len(),
{
    if pieces.len() == 0 {
        Seq::empty()
    } else {
        concat(pieces.drop_last()) + pieces.last()
    }
}

/// Joining with one more piece at the end appends that piece.
pub proof fn lemma_concat_push(pieces: Seq<Seq<u8>>, piece: Seq<u8>)
    ensures
        concat(pieces.push(piece)) == concat(pieces) + piece,
{
    assert(pieces.push(piece).drop_last() =~= pieces);
}

/// Joining with one more piece at the front prepends that piece.
pub proof fn lemma_concat_front(piece: Seq<u8>, pieces: Seq<Seq<u8>>)
    ensures
        concat(seq![piece] + pieces) == piece + concat(pieces),
    decreases pieces.len(),
{
    let whole = seq![piece] + pieces;
    if pieces.len() == 0 {
        assert(whole.drop_last() =~= Seq::<Seq<u8>>::empty());
        assert(whole.last() == piece);
        assert(concat(whole.drop_last()) =~= Seq::<u8>::empty());
        assert(concat(pieces) =~= Seq::<u8>::empty());
        assert(concat(whole) =~= piece + concat(pieces));
    } else {
        lemma_concat_front(piece, pieces.drop_last());
        assert(whole.drop_last() =~= seq![piece] + pieces.drop_last());
        assert(whole.last() == pieces.last());
        assert(concat(whole) =~= piece + concat(pieces));
    }
}

} // verus!
