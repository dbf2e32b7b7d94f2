//! Brace lists, `{a,b,c}`.

use crate::byte_classes::{CLOSE_BRACE, COMMA, OPEN_BRACE};
use crate::shell_structures::shell_word::{clone_word, restore_word, word_text, word_view,
    ShellWord, ShellWordView};
use crate::shell_structures::ShellToken;
use vstd::prelude::*;

verus! {

/// The elements of a brace list, in order.
#[derive(Debug, PartialEq, Eq)]
pub struct ShellBraceList {
    pub words: Vec<ShellWord>,
}

/// What `list` holds.
pub open spec fn list_view(list: ShellBraceList) -> Seq<ShellWordView>
    decreases list,
{
    Seq::new(
        list.words.len() as nat,
        |i: int|
            if 0 <= i < list.words.len() {
                word_view(list.words[i])
            } else {
                Seq::empty()
            },
    )
}

impl View for ShellBraceList {
    type V = Seq<ShellWordView>;

    open spec fn view(&self) -> Seq<ShellWordView> {
        list_view(*self)
    }
}

/// The first `n` texts with a comma between each two.
pub open spec fn joined(texts: Seq<Seq<u8>>, n: int) -> Seq<u8>
    decreases n,
{
    if n <= 0 {
        Seq::empty()
    } else if n == 1 {
        texts[0]
    } else {
        joined(texts, n - 1) + seq![COMMA] + texts[n - 1]
    }
}

/// The texts of the elements of a list, in order.
pub open spec fn element_texts(words: Seq<ShellWordView>) -> Seq<Seq<u8>>
    decreases words, 0nat,
{
    Seq::new(
        words.len(),
        |i: int|
            if 0 <= i < words.len() {
                word_text(words[i])
            } else {
                Seq::empty()
            },
    )
}

/// The text of a list: its elements between braces, with commas between
/// them.
pub open spec fn list_text(words: Seq<ShellWordView>) -> Seq<u8>
    decreases words, 1nat,
{
    seq![OPEN_BRACE] + joined(element_texts(words), words.len() as int) + seq![CLOSE_BRACE]
}

/// Writes a brace list back as text.
pub fn restore_brace_list(list: &ShellBraceList) -> (bytes: Vec<u8>)
    ensures
        bytes@ == list_text(list@),
    decreases list,
{
    let mut bytes: Vec<u8> = Vec::new();
    bytes.push(OPEN_BRACE);
    let ghost texts = element_texts(list@);
    let mut i: usize = 0;
    while i < list.words.len()
        invariant
            i <= list.words.len(),
            texts == element_texts(list@),
            bytes@ == seq![OPEN_BRACE] + joined(texts, i as int),
        decreases list.words.len() - i,
    {
        if i > 0 {
            bytes.push(COMMA);
        }
        let mut text = restore_word(&list.words[i]);
        bytes.append(&mut text);
        assert(bytes@ =~= seq![OPEN_BRACE] + joined(texts, i + 1));
        i += 1;
    }
    bytes.push(CLOSE_BRACE);
    bytes
}

/// A copy of a brace list.
pub fn clone_brace_list(list: &ShellBraceList) -> (copy: ShellBraceList)
    ensures
        copy@ == list@,
    decreases list,
{
    let mut words: Vec<ShellWord> = Vec::new();
    let mut i: usize = 0;
    while i < list.words.len()
        invariant
            i <= list.words.len(),
            words@.len() == i,
            forall|k: int| 0 <= k < i ==> (#[trigger] words@[k])@ == list.words@[k]@,
        decreases list.words.len() - i,
    {
        words.push(clone_word(&list.words[i]));
        i += 1;
    }
    let copy = ShellBraceList { words };
    assert(copy@ =~= list@);
    copy
}

impl Clone for ShellBraceList {
    fn clone(&self) -> (copy: Self)
        ensures
            copy@ == self@,
    {
        clone_brace_list(self)
    }
}

impl ShellToken for ShellBraceList {
    open spec fn original(&self) -> Seq<u8> {
        list_text(self@)
    }

    fn restore_original(&self) -> (bytes: Vec<u8>) {
        restore_brace_list(self)
    }
}

} // verus!
