//! A template seen as a row of parts, plain text and tokens in turn, and
//! what rendering does to each part.
//!
//! Rendering finds a token wherever its letters stand. So a token may be
//! found where none was meant: inside a text, or where the end of one text
//! and the start of the next come together. Neither can happen where the
//! texts hold none of the letters that the tokens are made of. Then every
//! token gives way to its own value, whatever that value holds, and every
//! text stays as it is.

use super::grammar::Rule;
use super::script_options::ScriptOptions;
use super::template::{
    rendered, replaced_tokens, token_names, token_values, value_for, value_of,
};
use crate::text::{
    holds_at, lemma_opening_pattern, lemma_opening_pattern_is_first, lemma_substituted_behind,
    opening_pattern, substituted,
};
use crate::traits::PrettyPrint;
use crate::types::FileView;
use vstd::prelude::*;

verus! {

/// One part of a template.
pub enum Part {
    /// Text that stands for itself.
    Text(Seq<char>),
    /// A token, to be replaced.
    Token(ScriptOptions),
}

/// Whether a character is one of the letters that the tokens are made of.
pub open spec fn is_token_letter(c: char) -> bool {
    ||| c == 'D'
    ||| c == 'I'
    ||| c == 'R'
    ||| c == 'E'
    ||| c == 'X'
    ||| c == 'T'
    ||| c == 'N'
    ||| c == 'A'
    ||| c == 'M'
    ||| c == 'P'
    ||| c == 'H'
}

/// Whether a text holds no letter that the tokens are made of.
pub open spec fn inert(s: Seq<char>) -> bool {
    forall|i: int| 0 <= i < s.len() ==> !is_token_letter(#[trigger] s[i])
}

/// Whether every text among the parts is inert.
pub open spec fn inert_texts(parts: Seq<Part>) -> bool {
    forall|i: int| 0 <= i < parts.len() ==> (#[trigger] parts[i] matches Part::Text(x) ==> inert(x))
}

/// How a part is written in a template: a token by its name.
pub open spec fn spelled(part: Part) -> Seq<char> {
    match part {
        Part::Text(x) => x,
        Part::Token(option) => option.pretty(),
    }
}

/// The template that the parts make up.
pub open spec fn template_of(parts: Seq<Part>) -> Seq<char>
    decreases parts.len(),
{
    if parts.len() == 0 {
        Seq::empty()
    } else {
        spelled(parts[0]) + template_of(parts.drop_first())
    }
}

/// What a part becomes in a command line: with a file, a token becomes the
/// file's value for it; without one, `DIR` becomes the root path and the
/// other tokens stay as they are written.
pub open spec fn put_in(part: Part, file: Option<FileView>, root_path: Seq<char>) -> Seq<char> {
    match part {
        Part::Text(x) => x,
        Part::Token(option) => match file {
            Some(f) => value_of(option, f),
            None => if option == ScriptOptions::Directory {
                root_path
            } else {
                option.pretty()
            },
        },
    }
}

/// The command line that the parts make up, each put in by itself.
pub open spec fn assembled(parts: Seq<Part>, file: Option<FileView>, root_path: Seq<char>) -> Seq<
    char,
>
    decreases parts.len(),
{
    if parts.len() == 0 {
        Seq::empty()
    } else {
        put_in(parts[0], file, root_path) + assembled(parts.drop_first(), file, root_path)
    }
}

/// Where the texts of a template are inert, every part is rendered by
/// itself. With a file every token gives way to the file's value for it,
/// whatever the value holds and whatever stands around the token. Without a
/// file every `DIR` gives way to the root path and the other tokens stay as
/// they are written. The texts stay as they are.
pub proof fn lemma_rendered_part_by_part(rule: Rule, parts: Seq<Part>, file: Option<FileView>)
    requires
        rule.command_template == template_of(parts),
        inert_texts(parts),
    ensures
        rendered(rule, file) == assembled(parts, file, rule.root_path),
{
    lemma_substituted_part_by_part(parts, file, rule.root_path);
}

/// The names of the four tokens, letter by letter.
proof fn lemma_token_names()
    ensures
        ScriptOptions::Directory.pretty() == seq!['D', 'I', 'R'],
        ScriptOptions::Ext.pretty() == seq!['E', 'X', 'T'],
        ScriptOptions::Name.pretty() == seq!['N', 'A', 'M', 'E'],
        ScriptOptions::Path.pretty() == seq!['P', 'A', 'T', 'H'],
{
    reveal_strlit("DIR");
    reveal_strlit("EXT");
    reveal_strlit("NAME");
    reveal_strlit("PATH");
    assert("DIR"@ =~= seq!['D', 'I', 'R']);
    assert("EXT"@ =~= seq!['E', 'X', 'T']);
    assert("NAME"@ =~= seq!['N', 'A', 'M', 'E']);
    assert("PATH"@ =~= seq!['P', 'A', 'T', 'H']);
}

/// No token that is replaced opens a text whose first character is not
/// the first letter of its name.
proof fn lemma_no_token_opens(text: Seq<char>, file: Option<FileView>)
    requires
        text.len() > 0,
        forall|k: int|
            0 <= k < replaced_tokens(file).len() ==> text[0] != (#[trigger] replaced_tokens(
                file,
            )[k]).pretty()[0],
    ensures
        opening_pattern(text, token_names(file), 0) is None,
{
    let names = token_names(file);
    lemma_opening_pattern(text, names, 0);
    if let Some(k) = opening_pattern(text, names, 0) {
        assert(names[k] == replaced_tokens(file)[k].pretty());
        assert(text.subrange(0, names[k].len() as int)[0] == text[0]);
    }
}

proof fn lemma_substituted_part_by_part(
    parts: Seq<Part>,
    file: Option<FileView>,
    root_path: Seq<char>,
)
    requires
        inert_texts(parts),
    ensures
        substituted(template_of(parts), token_names(file), token_values(file, root_path))
            == assembled(parts, file, root_path),
    decreases parts.len(),
{
    let names = token_names(file);
    let values = token_values(file, root_path);
    let tokens = replaced_tokens(file);
    lemma_token_names();
    if parts.len() > 0 {
        let head = parts[0];
        let rest = parts.drop_first();
        let tail = template_of(rest);
        let s = template_of(parts);
        assert forall|i: int| 0 <= i < rest.len() implies (#[trigger] rest[i] matches Part::Text(x)
            ==> inert(x)) by {
            assert(rest[i] == parts[i + 1]);
        }
        lemma_substituted_part_by_part(rest, file, root_path);
        let replaced_here = match head {
            Part::Text(_) => false,
            Part::Token(option) => file is Some || option == ScriptOptions::Directory,
        };
        if replaced_here {
            let option = head->Token_0;
            let k: int = match file {
                Some(_) => match option {
                    ScriptOptions::Directory => 0,
                    ScriptOptions::Ext => 1,
                    ScriptOptions::Name => 2,
                    ScriptOptions::Path => 3,
                },
                None => 0,
            };
            assert(tokens[k] == option);
            assert(names[k] == option.pretty());
            assert(values[k] == value_for(option, file, root_path));
            assert(s.subrange(0, names[k].len() as int) =~= names[k]);
            assert forall|j: int| 0 <= j < k implies !holds_at(s, 0, names[j]) by {
                assert(names[j] == tokens[j].pretty());
                if holds_at(s, 0, names[j]) {
                    assert(s.subrange(0, names[j].len() as int)[0] == s[0]);
                }
            }
            lemma_opening_pattern_is_first(s, names, 0, k);
            assert(s.skip(names[k].len() as int) =~= tail);
        } else {
            let x = spelled(head);
            assert forall|i: int| 0 <= i < x.len() implies opening_pattern(
                #[trigger] (x + tail).skip(i),
                names,
                0,
            ) is None by {
                let t = (x + tail).skip(i);
                assert(t[0] == x[i]);
                assert forall|k: int| 0 <= k < tokens.len() implies t[0] != (
                #[trigger] tokens[k]).pretty()[0] by {
                    match head {
                        Part::Text(text) => {
                            assert(!is_token_letter(text[i]));
                        },
                        Part::Token(other) => {},
                    }
                }
                lemma_no_token_opens(t, file);
            }
            lemma_substituted_behind(x, tail, names, values);
        }
    }
}

} // verus!
