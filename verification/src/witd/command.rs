//! A parsed rule: its parser, its renderer and its accessors.

use super::command_err::CommandErr;
use super::grammar::{
    find_template_end, lemma_mode_prefixes, lemma_rule_of_well_formed,
    lemma_written_rule_is_read, mode_prefix, plain_template, rule_of, run_mode_prefix, written,
    Rule,
};
use super::keywords::Keyword;
use super::run_mode::RunMode;
use super::script_options::ScriptOptions;
use super::template::{rendered, replaced_tokens, token_names, token_values};
use crate::text::{
    chars_of, holds_at, is_whitespace, join, joined, lemma_blank_iff_skipped,
    skip_whitespace_from, starts_at, substitute, token_end_from,
};
use crate::traits::PrettyPrint;
use crate::types::{File, FileView};
use vstd::prelude::*;
use vstd::string::{StrSliceExecFns, StringExecFns};

verus! {

/// A command that may be executed.
#[derive(Debug, PartialEq)]
pub struct Command {
    command: String,
    root_path: String,
    run_mode: RunMode,
}

impl View for Command {
    type V = Rule;

    closed spec fn view(&self) -> Rule {
        Rule {
            root_path: self.root_path@,
            run_mode: self.run_mode,
            command_template: self.command@,
        }
    }
}

/// What a file, where there is one, says of itself.
pub open spec fn described(file: Option<&File>) -> Option<FileView> {
    match file {
        Some(f) => Some(f@),
        None => None,
    }
}

/// The names of the tokens that are meaningful in a template of the given
/// mode.
pub open spec fn option_names(mode: RunMode) -> Seq<Seq<char>> {
    mode.options().map_values(|o: ScriptOptions| o.pretty())
}

/// The canonical example of a rule of the given mode: it watches `./src` and
/// echoes the tokens of its mode, joined by `|`.
pub open spec fn example(mode: RunMode) -> Seq<char> {
    mode_prefix(mode) + " ./src "@ + Keyword::Do.pretty() + " echo "@ + joined(
        option_names(mode),
        "|"@,
    ) + " "@ + Keyword::End.pretty()
}

/// The canonical examples, one for each run mode, in declaration order.
pub open spec fn all_examples() -> Seq<Seq<char>> {
    RunMode::all().map_values(|m: RunMode| example(m))
}

/// The rule that the example of a mode stands for.
pub open spec fn example_rule(mode: RunMode) -> Rule {
    Rule {
        root_path: "./src"@,
        run_mode: mode,
        command_template: "echo "@ + joined(option_names(mode), "|"@),
    }
}

impl Clone for Command {
    fn clone(&self) -> (r: Self)
        ensures
            r@ == self@,
    {
        proof {
            use_type_invariant(self);
        }
        Command {
            command: self.command.clone(),
            root_path: self.root_path.clone(),
            run_mode: self.run_mode,
        }
    }
}

impl Command {
    #[verifier::type_invariant]
    spec fn valid(self) -> bool {
        self@.well_formed()
    }

    /// Parses the given command.
    pub fn parse(s: &str) -> (r: Result<Self, CommandErr>)
        ensures
            match r {
                Ok(command) => rule_of(s@) == Ok::<Rule, CommandErr>(command@),
                Err(e) => rule_of(s@) == Err::<Rule, CommandErr>(e),
            },
            r matches Ok(command) ==> command@.well_formed(),
    {
        let text = chars_of(s);
        let n: usize = text.len();
        proof {
            lemma_blank_iff_skipped(text@);
        }
        if skip_whitespace_from(&text, 0) == n {
            return Err(CommandErr::EmptyInput);
        }
        let directory_prefix = chars_of(run_mode_prefix(RunMode::Directory).as_str());
        let file_prefix = chars_of(run_mode_prefix(RunMode::File).as_str());
        let (run_mode, prefix_len) = if starts_at(&text, 0, &directory_prefix) {
            (RunMode::Directory, directory_prefix.len())
        } else if starts_at(&text, 0, &file_prefix) {
            (RunMode::File, file_prefix.len())
        } else {
            return Err(CommandErr::MissingRunMode);
        };
        let path_start: usize = skip_whitespace_from(&text, prefix_len);
        if path_start == n {
            return Err(CommandErr::MissingPathSpecification);
        }
        let path_end: usize = token_end_from(&text, path_start);
        let do_start: usize = skip_whitespace_from(&text, path_end);
        let keyword_do = chars_of(Keyword::Do.pretty_print().as_str());
        if !starts_at(&text, do_start, &keyword_do) {
            return Err(CommandErr::MissingKeywordDo);
        }
        let body_start: usize = skip_whitespace_from(&text, do_start + keyword_do.len());
        let keyword_end = chars_of(Keyword::End.pretty_print().as_str());
        match find_template_end(&text, body_start, &keyword_end) {
            None => Err(CommandErr::MissingKeywordEnd),
            Some(body_end) => {
                proof {
                    lemma_rule_of_well_formed(s@);
                }
                Ok(
                    Command {
                        command: s.substring_char(body_start, body_end).to_owned(),
                        root_path: s.substring_char(path_start, path_end).to_owned(),
                        run_mode,
                    },
                )
            },
        }
    }

    /// Returns an example command.
    pub fn examples() -> (r: Vec<String>)
        ensures
            r.deep_view() == all_examples(),
    {
        let modes = RunMode::values();
        let mut out: Vec<String> = Vec::new();
        let mut i: usize = 0;
        while i < modes.len()
            invariant
                i <= modes.len(),
                modes@ == RunMode::all(),
                out.deep_view() == all_examples().take(i as int),
            decreases modes.len() - i,
        {
            let mode = modes[i];
            let options = mode.allowed_options();
            let mut names: Vec<String> = Vec::new();
            let mut j: usize = 0;
            while j < options.len()
                invariant
                    j <= options.len(),
                    options@ == mode.options(),
                    names.deep_view() == option_names(mode).take(j as int),
                decreases options.len() - j,
            {
                let ghost before = names.deep_view();
                let name = options[j].pretty_print();
                names.push(name);
                assert(names.deep_view() =~= before.push(name@));
                assert(option_names(mode).take(j + 1) =~= option_names(mode).take(j as int).push(
                    name@,
                ));
                j += 1;
            }
            assert(option_names(mode).take(j as int) =~= option_names(mode));
            let mut text = run_mode_prefix(mode);
            text.append(" ./src ");
            text.append(Keyword::Do.pretty_print().as_str());
            text.append(" echo ");
            text.append(join(&names, "|").as_str());
            text.append(" ");
            text.append(Keyword::End.pretty_print().as_str());
            let ghost before = out.deep_view();
            out.push(text);
            assert(out.deep_view() =~= before.push(example(mode)));
            assert(all_examples().take(i + 1) =~= all_examples().take(i as int).push(
                example(mode),
            ));
            i += 1;
        }
        assert(all_examples().take(i as int) =~= all_examples());
        out
    }

    /// Returns a stringified version of the command to execute.
    pub fn execution(&self, file: Option<&File>) -> (r: String)
        ensures
            r@ == rendered(self@, described(file)),
    {
        let options = match file {
            Some(_) => RunMode::File.allowed_options(),
            None => RunMode::Directory.allowed_options(),
        };
        let ghost names_wanted = token_names(described(file));
        let ghost values_wanted = token_values(described(file), self@.root_path);
        let mut names: Vec<String> = Vec::new();
        let mut values: Vec<String> = Vec::new();
        let mut i: usize = 0;
        assert(names.deep_view() =~= names_wanted.take(0));
        assert(values.deep_view() =~= values_wanted.take(0));
        while i < options.len()
            invariant
                i <= options.len(),
                options@ == replaced_tokens(described(file)),
                names_wanted == token_names(described(file)),
                values_wanted == token_values(described(file), self@.root_path),
                names.deep_view() == names_wanted.take(i as int),
                values.deep_view() == values_wanted.take(i as int),
            decreases options.len() - i,
        {
            let option = options[i];
            let name = option.pretty_print();
            let value = match file {
                Some(file) => match option {
                    ScriptOptions::Directory => file.directory.clone(),
                    ScriptOptions::Ext => file.extension.clone(),
                    ScriptOptions::Name => file.name.clone(),
                    ScriptOptions::Path => file.path.clone(),
                },
                None => self.root_path.clone(),
            };
            let ghost names_before = names.deep_view();
            let ghost values_before = values.deep_view();
            proof {
                assert(names_wanted.take(i + 1) =~= names_wanted.take(i as int).push(name@));
                assert(values_wanted.take(i + 1) =~= values_wanted.take(i as int).push(value@));
            }
            names.push(name);
            values.push(value);
            assert(names.deep_view() =~= names_before.push(name@));
            assert(values.deep_view() =~= values_before.push(value@));
            i += 1;
        }
        assert(names_wanted.take(i as int) =~= names_wanted);
        assert(values_wanted.take(i as int) =~= values_wanted);
        substitute(self.command.as_str(), &names, &values)
    }

    /// The command template, verbatim.
    pub fn command(&self) -> (r: &String)
        ensures
            r@ == self@.command_template,
    {
        &self.command
    }

    /// Returns the root path for the command: a single token, not empty and
    /// free of whitespace.
    pub fn root_path(&self) -> (r: &String)
        ensures
            r@ == self@.root_path,
            r@.len() > 0,
            forall|i: int| 0 <= i < r@.len() ==> !is_whitespace(#[trigger] r@[i]),
    {
        proof {
            use_type_invariant(self);
        }
        &self.root_path
    }

    /// Returns the run mode for the command.
    pub fn run_mode(&self) -> (r: RunMode)
        ensures
            r == self@.run_mode,
    {
        self.run_mode
    }
}

/// The two examples, letter for letter.
pub proof fn lemma_examples()
    ensures
        example(RunMode::Directory) == "directory ./src do echo DIR end"@,
        example(RunMode::File) == "foreach file in ./src do echo DIR|EXT|NAME|PATH end"@,
        joined(option_names(RunMode::Directory), "|"@) == "DIR"@,
        joined(option_names(RunMode::File), "|"@) == "DIR|EXT|NAME|PATH"@,
{
    lemma_mode_prefixes();
    reveal_strlit("directory");
    reveal_strlit("foreach file in");
    reveal_strlit(" ./src ");
    reveal_strlit("do");
    reveal_strlit(" echo ");
    reveal_strlit(" ");
    reveal_strlit("end");
    reveal_strlit("|");
    reveal_strlit("DIR");
    reveal_strlit("EXT");
    reveal_strlit("NAME");
    reveal_strlit("PATH");
    reveal_strlit("DIR|EXT|NAME|PATH");
    reveal_strlit("directory ./src do echo DIR end");
    reveal_strlit("foreach file in ./src do echo DIR|EXT|NAME|PATH end");
    let one = option_names(RunMode::Directory);
    assert(one.len() == 1 && one[0] == "DIR"@);
    assert(joined(one, "|"@) == "DIR"@);
    let four = option_names(RunMode::File);
    let three = four.drop_last();
    let two = three.drop_last();
    assert(four.len() == 4 && four[0] == "DIR"@ && four[1] == "EXT"@ && four[2] == "NAME"@
        && four[3] == "PATH"@);
    assert(two.drop_last().len() == 1 && two.drop_last()[0] == "DIR"@);
    assert(joined(two.drop_last(), "|"@) == "DIR"@);
    assert(two.last() == "EXT"@);
    assert(joined(two, "|"@) == "DIR"@ + "|"@ + "EXT"@);
    assert(three.last() == "NAME"@);
    assert(joined(three, "|"@) == "DIR"@ + "|"@ + "EXT"@ + "|"@ + "NAME"@);
    assert(joined(four, "|"@) =~= "DIR|EXT|NAME|PATH"@);
    assert(example(RunMode::Directory) =~= "directory ./src do echo DIR end"@);
    assert(example(RunMode::File) =~= "foreach file in ./src do echo DIR|EXT|NAME|PATH end"@);
}

/// Every example denotes a rule of its mode: one that watches `./src` and
/// echoes the tokens of the mode.
pub proof fn lemma_examples_are_rules(mode: RunMode)
    ensures
        rule_of(example(mode)) == Ok::<Rule, CommandErr>(example_rule(mode)),
        example_rule(mode).well_formed(),
{
    let rule = example_rule(mode);
    let template = rule.command_template;
    let closed = template + " "@ + Keyword::End.pretty();
    lemma_examples();
    reveal_strlit("./src");
    reveal_strlit(" ./src ");
    reveal_strlit("echo ");
    reveal_strlit(" echo ");
    reveal_strlit(" ");
    reveal_strlit("do");
    reveal_strlit("end");
    reveal_strlit("DIR");
    reveal_strlit("DIR|EXT|NAME|PATH");
    assert(written(rule) =~= example(mode));
    assert(rule.well_formed());
    assert(template.len() >= 8);
    assert(template[1] == 'c');
    assert(closed.subrange(0, 3)[1] == closed[1]);
    assert(!holds_at(closed, 0, Keyword::End.pretty()));
    assert forall|i: int| 0 <= i < template.len() implies !(is_whitespace(#[trigger] template[i])
        && holds_at(closed, i + 1, Keyword::End.pretty())) by {
        if i == 4 {
            assert(closed.subrange(5, 8)[0] == closed[5]);
            assert(closed[5] == 'D');
        } else {
            assert(!is_whitespace(template[i]));
        }
    }
    assert(plain_template(template));
    lemma_written_rule_is_read(rule);
}

} // verus!
