//! The two granularities at which a rule runs its command.

use super::script_options::ScriptOptions;
use crate::traits::PrettyPrint;
use vstd::prelude::*;

verus! {

/// The list of run modes.
#[derive(Clone, Copy, Debug, PartialEq, Eq, Structural)]
pub enum RunMode {
    /// One run per poll cycle in which anything changed.
    Directory,
    /// One run per changed file.
    File,
}

impl RunMode {
    /// The substitution tokens that are meaningful in a template of this
    /// mode.
    pub open spec fn options(self) -> Seq<ScriptOptions> {
        match self {
            RunMode::Directory => seq![ScriptOptions::Directory],
            RunMode::File => ScriptOptions::all(),
        }
    }

    /// Both run modes, in declaration order.
    pub open spec fn all() -> Seq<RunMode> {
        seq![RunMode::Directory, RunMode::File]
    }

    /// Returns the allowed script options for the run mode.
    pub fn allowed_options(&self) -> (r: Vec<ScriptOptions>)
        ensures
            r@ == self.options(),
    {
        let mut r: Vec<ScriptOptions> = Vec::new();
        r.push(ScriptOptions::Directory);
        match self {
            RunMode::Directory => {},
            RunMode::File => {
                r.push(ScriptOptions::Ext);
                r.push(ScriptOptions::Name);
                r.push(ScriptOptions::Path);
            },
        }
        assert(r@ =~= self.options());
        r
    }

    /// The allowed string values for the run mode.
    pub fn values() -> (r: [Self; 2])
        ensures
            r@ == Self::all(),
    {
        let r = [Self::Directory, Self::File];
        assert(r@ =~= Self::all());
        r
    }
}

impl PrettyPrint for RunMode {
    open spec fn pretty(&self) -> Seq<char> {
        match self {
            RunMode::Directory => "directory"@,
            RunMode::File => "file"@,
        }
    }

    fn pretty_print(&self) -> (s: String) {
        match self {
            RunMode::Directory => "directory".to_owned(),
            RunMode::File => "file".to_owned(),
        }
    }
}

} // verus!
