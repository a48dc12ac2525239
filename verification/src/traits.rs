//! Traits shared across the crate.

use vstd::prelude::*;

verus! {

/// Values that have a fixed, human-readable rendering.
pub trait PrettyPrint {
    /// The text that `pretty_print` produces.
    spec fn pretty(&self) -> Seq<char>;

    /// Pretty prints the given instance.
    fn pretty_print(&self) -> (s: String)
        ensures
            s@ == self.pretty(),
    ;
}

} // verus!
