//! The keywords of the rule language.

use crate::traits::PrettyPrint;
use vstd::prelude::*;

verus! {

/// The list of keywords.
#[derive(Clone, Copy, Debug, PartialEq, Eq, Structural)]
pub enum Keyword {
    Do,
    End,
    Mode,
}

impl PrettyPrint for Keyword {
    open spec fn pretty(&self) -> Seq<char> {
        match self {
            Keyword::Do => "do"@,
            Keyword::End => "end"@,
            Keyword::Mode => "mode"@,
        }
    }

    fn pretty_print(&self) -> (s: String) {
        match self {
            Keyword::Do => "do".to_owned(),
            Keyword::End => "end".to_owned(),
            Keyword::Mode => "mode".to_owned(),
        }
    }
}

} // verus!
