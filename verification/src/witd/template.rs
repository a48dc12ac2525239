//! What a command template becomes when it is rendered into a command line.
//!
//! The template is read once, from left to right. Where the name of a
//! token stands, the token's value is put in and the reading goes on behind
//! the name; every other character is kept. So the tokens are replaced
//! independently of each other, and a value that was put in is never read
//! as template text. Substitution is literal all the same: a token is
//! found wherever its letters stand, also inside a longer word, and there
//! is no way to escape one.

use super::grammar::Rule;
use super::run_mode::RunMode;
use super::script_options::ScriptOptions;
use crate::text::{
    holds_at, lemma_opening_pattern_is_first, lemma_substituted_without_occurrence, occurs_in,
    substituted,
};
use crate::traits::PrettyPrint;
use crate::types::FileView;
use vstd::prelude::*;

verus! {

/// The part of a file's description that a token stands for.
pub open spec fn value_of(option: ScriptOptions, file: FileView) -> Seq<char> {
    match option {
        ScriptOptions::Directory => file.directory,
        ScriptOptions::Ext => file.extension,
        ScriptOptions::Name => file.name,
        ScriptOptions::Path => file.path,
    }
}

/// The tokens that are replaced in a run: with a file those of a rule per
/// file, all four; without one those of a rule per directory, `DIR` alone.
pub open spec fn replaced_tokens(file: Option<FileView>) -> Seq<ScriptOptions> {
    match file {
        Some(_) => RunMode::File.options(),
        None => RunMode::Directory.options(),
    }
}

/// What is put in the place of a token: with a file the file's value for
/// it, without one the root path.
pub open spec fn value_for(
    option: ScriptOptions,
    file: Option<FileView>,
    root_path: Seq<char>,
) -> Seq<char> {
    match file {
        Some(f) => value_of(option, f),
        None => root_path,
    }
}

/// The names of the tokens that are replaced in a run.
pub open spec fn token_names(file: Option<FileView>) -> Seq<Seq<char>> {
    replaced_tokens(file).map_values(|o: ScriptOptions| o.pretty())
}

/// The values of the tokens that are replaced in a run, in the order of
/// their names.
pub open spec fn token_values(file: Option<FileView>, root_path: Seq<char>) -> Seq<Seq<char>> {
    replaced_tokens(file).map_values(|o: ScriptOptions| value_for(o, file, root_path))
}

/// The command line that a rule runs for a file, or for the watched
/// directory as a whole where there is no file.
///
/// With a file, `DIR`, `EXT`, `NAME` and `PATH` give way to the file's
/// directory, extension, name and path. Without a file `DIR` gives way to
/// the rule's root path, and `EXT`, `NAME` and `PATH` stay as they are.
pub open spec fn rendered(rule: Rule, file: Option<FileView>) -> Seq<char> {
    substituted(rule.command_template, token_names(file), token_values(file, rule.root_path))
}

/// Whether any of the four tokens stands in the text.
pub open spec fn mentions_token(text: Seq<char>) -> bool {
    exists|option: ScriptOptions| occurs_in(text, #[trigger] option.pretty())
}

/// A template without `DIR` is run for the directory exactly as it was
/// written: the other tokens are not expanded.
pub proof fn lemma_rendered_for_directory_without_dir(rule: Rule)
    requires
        !occurs_in(rule.command_template, ScriptOptions::Directory.pretty()),
    ensures
        rendered(rule, None) == rule.command_template,
{
    lemma_substituted_without_occurrence(
        rule.command_template,
        token_names(None),
        token_values(None, rule.root_path),
    );
}

/// A template that mentions no token is run exactly as it was written,
/// whatever the file.
pub proof fn lemma_rendered_without_tokens(rule: Rule, file: Option<FileView>)
    requires
        !mentions_token(rule.command_template),
    ensures
        rendered(rule, file) == rule.command_template,
{
    let names = token_names(file);
    assert forall|k: int| 0 <= k < names.len() implies !occurs_in(
        rule.command_template,
        #[trigger] names[k],
    ) by {
        assert(names[k] == replaced_tokens(file)[k].pretty());
    }
    lemma_substituted_without_occurrence(
        rule.command_template,
        names,
        token_values(file, rule.root_path),
    );
}

/// A template that is the name of a token and nothing else is rendered as
/// the token's value and nothing else, whatever the value holds.
pub proof fn lemma_rendered_token(rule: Rule, option: ScriptOptions, file: FileView)
    requires
        rule.command_template == option.pretty(),
    ensures
        rendered(rule, Some(file)) == value_of(option, file),
{
    let text = rule.command_template;
    let names = token_names(Some(file));
    let values = token_values(Some(file), rule.root_path);
    reveal_strlit("DIR");
    reveal_strlit("EXT");
    reveal_strlit("NAME");
    reveal_strlit("PATH");
    let k: int = match option {
        ScriptOptions::Directory => 0,
        ScriptOptions::Ext => 1,
        ScriptOptions::Name => 2,
        ScriptOptions::Path => 3,
    };
    assert(names[k] == text);
    assert(values[k] == value_of(option, file));
    assert(text.subrange(0, text.len() as int) =~= text);
    assert forall|j: int| 0 <= j < k implies !holds_at(text, 0, names[j]) by {
        if holds_at(text, 0, names[j]) {
            assert(text.subrange(0, names[j].len() as int)[0] == text[0]);
        }
    }
    lemma_opening_pattern_is_first(text, names, 0, k);
    let behind = text.skip(text.len() as int);
    assert(behind.len() == 0);
    assert(substituted(behind, names, values) =~= Seq::<char>::empty());
    assert(values[k] + substituted(behind, names, values) =~= values[k]);
}

} // verus!
