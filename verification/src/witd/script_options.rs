//! The substitution tokens of a command template.

use crate::traits::PrettyPrint;
use vstd::prelude::*;

verus! {

/// A substitution token: the part of a file's description that replaces it.
#[derive(Copy, Clone, Debug, PartialEq, Eq, Structural)]
pub enum ScriptOptions {
    Directory,
    Ext,
    Name,
    Path,
}

impl ScriptOptions {
    /// Every substitution token, in the order in which a template is
    /// rendered.
    pub open spec fn all() -> Seq<ScriptOptions> {
        seq![
            ScriptOptions::Directory,
            ScriptOptions::Ext,
            ScriptOptions::Name,
            ScriptOptions::Path,
        ]
    }

    /// Returns the values for the script options.
    pub fn values() -> (r: [Self; 4])
        ensures
            r@ == Self::all(),
    {
        let r = [Self::Directory, Self::Ext, Self::Name, Self::Path];
        assert(r@ =~= Self::all());
        r
    }
}

impl PrettyPrint for ScriptOptions {
    open spec fn pretty(&self) -> Seq<char> {
        match self {
            ScriptOptions::Directory => "DIR"@,
            ScriptOptions::Ext => "EXT"@,
            ScriptOptions::Name => "NAME"@,
            ScriptOptions::Path => "PATH"@,
        }
    }

    fn pretty_print(&self) -> (s: String) {
        match self {
            ScriptOptions::Directory => "DIR".to_owned(),
            ScriptOptions::Ext => "EXT".to_owned(),
            ScriptOptions::Name => "NAME".to_owned(),
            ScriptOptions::Path => "PATH".to_owned(),
        }
    }
}

} // verus!
