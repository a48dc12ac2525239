//! The ways in which a rule can fail to parse.

use super::keywords::Keyword;
use super::run_mode::RunMode;
use crate::text::{join, joined};
use crate::traits::PrettyPrint;
use vstd::prelude::*;
use vstd::string::StringExecFns;

verus! {

/// An error that may occur for a command.
#[derive(Clone, Copy, Debug, PartialEq, Eq, Structural)]
pub enum CommandErr {
    /// The text is empty or holds whitespace only.
    EmptyInput,
    /// No `do` follows the path.
    MissingKeywordDo,
    /// No `end` closes the command template.
    MissingKeywordEnd,
    /// The text begins with neither run mode.
    MissingRunMode,
    /// Nothing follows the run mode.
    MissingPathSpecification,
}

/// The names of the run modes, in declaration order.
pub open spec fn run_mode_names() -> Seq<Seq<char>> {
    RunMode::all().map_values(|m: RunMode| m.pretty())
}

/// The message that a keyword is missing.
pub open spec fn missing_keyword(keyword: Keyword) -> Seq<char> {
    "Missing '"@ + keyword.pretty() + "'!"@
}

impl PrettyPrint for CommandErr {
    open spec fn pretty(&self) -> Seq<char> {
        match self {
            CommandErr::EmptyInput => "Empty input provided!"@,
            CommandErr::MissingKeywordDo => missing_keyword(Keyword::Do),
            CommandErr::MissingKeywordEnd => missing_keyword(Keyword::End),
            CommandErr::MissingRunMode => "Missing '"@ + Keyword::Mode.pretty()
                + "'; options are ["@ + joined(run_mode_names(), ", "@) + "]."@,
            CommandErr::MissingPathSpecification => "Missing path specification!"@,
        }
    }

    fn pretty_print(&self) -> (s: String) {
        match self {
            CommandErr::EmptyInput => "Empty input provided!".to_owned(),
            CommandErr::MissingKeywordDo => missing(Keyword::Do),
            CommandErr::MissingKeywordEnd => missing(Keyword::End),
            CommandErr::MissingRunMode => {
                let modes = RunMode::values();
                let mut names: Vec<String> = Vec::new();
                let mut i: usize = 0;
                while i < modes.len()
                    invariant
                        i <= modes.len(),
                        modes@ == RunMode::all(),
                        names.deep_view() == run_mode_names().take(i as int),
                    decreases modes.len() - i,
                {
                    let ghost before = names.deep_view();
                    let name = modes[i].pretty_print();
                    names.push(name);
                    assert(names.deep_view() =~= before.push(name@));
                    assert(run_mode_names().take(i + 1) =~= run_mode_names().take(i as int).push(
                        name@,
                    ));
                    i += 1;
                }
                assert(run_mode_names().take(i as int) =~= run_mode_names());
                let mut s = "Missing '".to_owned();
                s.append(Keyword::Mode.pretty_print().as_str());
                s.append("'; options are [");
                s.append(join(&names, ", ").as_str());
                s.append("].");
                s
            },
            CommandErr::MissingPathSpecification => "Missing path specification!".to_owned(),
        }
    }
}

/// The messages for a missing keyword and for a missing run mode, letter
/// for letter.
pub proof fn lemma_messages()
    ensures
        CommandErr::MissingKeywordDo.pretty() == "Missing 'do'!"@,
        CommandErr::MissingKeywordEnd.pretty() == "Missing 'end'!"@,
        CommandErr::MissingRunMode.pretty() == "Missing 'mode'; options are [directory, file]."@,
{
    reveal_strlit("Missing '");
    reveal_strlit("'!");
    reveal_strlit("do");
    reveal_strlit("end");
    reveal_strlit("mode");
    reveal_strlit("Missing 'do'!");
    reveal_strlit("Missing 'end'!");
    assert("Missing '"@ + "do"@ + "'!"@ =~= "Missing 'do'!"@);
    assert("Missing '"@ + "end"@ + "'!"@ =~= "Missing 'end'!"@);
    reveal_strlit("'; options are [");
    reveal_strlit(", ");
    reveal_strlit("].");
    reveal_strlit("directory");
    reveal_strlit("file");
    reveal_strlit("directory, file");
    reveal_strlit("Missing 'mode'; options are [directory, file].");
    let names = run_mode_names();
    assert(names.len() == 2);
    assert(names[0] == "directory"@);
    assert(names[1] == "file"@);
    assert(names.drop_last().len() == 1);
    assert(names.drop_last()[0] == "directory"@);
    assert(joined(names.drop_last(), ", "@) == "directory"@);
    assert(joined(names, ", "@) =~= "directory, file"@) by {
        assert(joined(names, ", "@) == joined(names.drop_last(), ", "@) + ", "@ + names.last());
    }
    assert("Missing '"@ + "mode"@ + "'; options are ["@ + "directory, file"@ + "]."@
        =~= "Missing 'mode'; options are [directory, file]."@);
}

/// Builds the message that a keyword is missing.
fn missing(keyword: Keyword) -> (s: String)
    ensures
        s@ == missing_keyword(keyword),
{
    let mut s = "Missing '".to_owned();
    s.append(keyword.pretty_print().as_str());
    s.append("'!");
    s
}

} // verus!
