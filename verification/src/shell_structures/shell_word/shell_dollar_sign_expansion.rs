//! Expansions introduced by `$`.

use crate::byte_classes::DOLLAR;
use crate::shell_structures::ShellToken;
use vstd::prelude::*;

verus! {

/// A `$` expansion. The kind is reserved: the grammar of parameter, command
/// and arithmetic substitution is not provided, and no parser builds one.
#[derive(Clone, Copy, Debug, PartialEq, Eq, Structural)]
pub enum DollarSignExpansion {
    /// An expansion of which only the `$` is known.
    Unresolved,
}

impl View for DollarSignExpansion {
    type V = DollarSignExpansion;

    open spec fn view(&self) -> DollarSignExpansion {
        *self
    }
}

impl ShellToken for DollarSignExpansion {
    open spec fn original(&self) -> Seq<u8> {
        seq![DOLLAR]
    }

    fn restore_original(&self) -> (bytes: Vec<u8>) {
        let mut bytes: Vec<u8> = Vec::new();
        bytes.push(DOLLAR);
        assert(bytes@ =~= seq![DOLLAR]);
        bytes
    }
}

} // verus!
