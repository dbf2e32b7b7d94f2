//! Filename patterns. The kind is reserved: no parser builds one.

use std::collections::HashSet;
use vstd::prelude::*;

verus! {

#[derive(Debug)]
pub enum GlobbingPattern {
    /// A run of `*`. A run matches as one `*` does; its length is kept so
    /// that the text can be written back when nothing matches.
    AnyString(usize),
    /// `?`
    AnySingleCharacter,
    /// `[...]`
    SpecificCharacter(HashSet<u8>),
}

} // verus!
