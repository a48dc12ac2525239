//! The grammar of a rule, as a function from text to a rule or an error.
//!
//! A rule reads `directory <path> do <template> end` or
//! `foreach file in <path> do <template> end`. It is scanned once, left to
//! right, in five steps; each step either moves on or ends the scan with its
//! own error.

use super::command_err::CommandErr;
use super::keywords::Keyword;
use super::run_mode::RunMode;
use crate::text::{
    char_is_whitespace, holds_at, is_blank, is_whitespace, lemma_holds_at_shifted,
    lemma_skip_whitespace, lemma_skip_whitespace_over, lemma_token_end, skip_whitespace,
    starts_at, token_end,
};
use crate::traits::PrettyPrint;
use vstd::prelude::*;
use vstd::string::StringExecFns;

verus! {

/// What a rule says: where to watch, how to group changes, what to run.
pub struct Rule {
    pub root_path: Seq<char>,
    pub run_mode: RunMode,
    pub command_template: Seq<char>,
}

impl Rule {
    /// Whether the root path is a single token: not empty and free of
    /// whitespace.
    pub open spec fn well_formed(self) -> bool {
        &&& self.root_path.len() > 0
        &&& forall|i: int|
            0 <= i < self.root_path.len() ==> !is_whitespace(#[trigger] self.root_path[i])
    }
}

/// The text with which a rule of the given mode begins.
pub open spec fn mode_prefix(mode: RunMode) -> Seq<char> {
    match mode {
        RunMode::Directory => RunMode::Directory.pretty(),
        RunMode::File => "foreach "@ + RunMode::File.pretty() + " in"@,
    }
}

/// The run mode whose prefix opens the text, if any.
pub open spec fn leading_mode(s: Seq<char>) -> Option<RunMode> {
    if holds_at(s, 0, mode_prefix(RunMode::Directory)) {
        Some(RunMode::Directory)
    } else if holds_at(s, 0, mode_prefix(RunMode::File)) {
        Some(RunMode::File)
    } else {
        None
    }
}

/// The first whitespace character at or after `from` that `end` directly
/// follows.
pub open spec fn closing_whitespace(s: Seq<char>, from: int) -> Option<int>
    decreases s.len() - from,
{
    if from < 0 || from >= s.len() {
        None
    } else if is_whitespace(s[from]) && holds_at(s, from + 1, Keyword::End.pretty()) {
        Some(from)
    } else {
        closing_whitespace(s, from + 1)
    }
}

/// Where the command template that starts at `from` ends: at `from` itself
/// when `end` stands right there, otherwise at the first whitespace
/// character that `end` directly follows.
pub open spec fn template_end(s: Seq<char>, from: int) -> Option<int> {
    if holds_at(s, from, Keyword::End.pretty()) {
        Some(from)
    } else {
        closing_whitespace(s, from)
    }
}

/// The rule that a text denotes, or the reason why it denotes none.
///
/// 1. A blank text is `EmptyInput`.
/// 2. The text must open with a run-mode prefix, else `MissingRunMode`.
/// 3. After optional whitespace comes the path, up to the next whitespace;
///    where the text ends instead, `MissingPathSpecification`.
/// 4. After optional whitespace `do` must stand, else `MissingKeywordDo`.
/// 5. After optional whitespace comes the template, verbatim, up to its end
///    as `template_end` finds it; where there is none, `MissingKeywordEnd`.
///
/// Whatever follows the closing `end` is ignored.
pub open spec fn rule_of(s: Seq<char>) -> Result<Rule, CommandErr> {
    if is_blank(s) {
        Err(CommandErr::EmptyInput)
    } else {
        match leading_mode(s) {
            None => Err(CommandErr::MissingRunMode),
            Some(mode) => {
                let path_start = skip_whitespace(s, mode_prefix(mode).len() as int);
                let path_end = token_end(s, path_start);
                let do_start = skip_whitespace(s, path_end);
                let body_start = skip_whitespace(s, do_start + Keyword::Do.pretty().len());
                if path_start == s.len() {
                    Err(CommandErr::MissingPathSpecification)
                } else if !holds_at(s, do_start, Keyword::Do.pretty()) {
                    Err(CommandErr::MissingKeywordDo)
                } else {
                    match template_end(s, body_start) {
                        None => Err(CommandErr::MissingKeywordEnd),
                        Some(body_end) => Ok(
                            Rule {
                                root_path: s.subrange(path_start, path_end),
                                run_mode: mode,
                                command_template: s.subrange(body_start, body_end),
                            },
                        ),
                    }
                }
            },
        }
    }
}

/// The text that writes a rule down: prefix, path, `do`, template and
/// `end`, with one space between each two. An empty template is left out
/// together with its space.
pub open spec fn written(rule: Rule) -> Seq<char> {
    let body = if rule.command_template.len() > 0 {
        " "@ + rule.command_template
    } else {
        Seq::empty()
    };
    mode_prefix(rule.run_mode) + " "@ + rule.root_path + " "@ + Keyword::Do.pretty() + body + " "@
        + Keyword::End.pretty()
}

/// Whether a text spells a rule with the given stretches of whitespace
/// `a`, `b` and `c` between its parts and the given remainder behind the
/// template: the remainder begins with `end` if the template is empty,
/// and else with one whitespace character and `end`.
pub open spec fn spells(
    s: Seq<char>,
    rule: Rule,
    a: Seq<char>,
    b: Seq<char>,
    c: Seq<char>,
    remainder: Seq<char>,
) -> bool {
    &&& is_blank(a)
    &&& is_blank(b)
    &&& is_blank(c)
    &&& s == mode_prefix(rule.run_mode) + a + rule.root_path + b + Keyword::Do.pretty() + c
        + rule.command_template + remainder
    &&& if rule.command_template.len() == 0 {
        holds_at(remainder, 0, Keyword::End.pretty())
    } else {
        remainder.len() > 0 && is_whitespace(remainder[0]) && holds_at(
            remainder,
            1,
            Keyword::End.pretty(),
        )
    }
}

/// Whether a template comes back unchanged when it is written down and
/// read again: it does not begin with whitespace or with `end`, and `end`
/// follows none of its whitespace characters, once a closing ` end` has
/// been put behind it.
pub open spec fn plain_template(template: Seq<char>) -> bool {
    let closed = template + " "@ + Keyword::End.pretty();
    &&& template.len() > 0 ==> !is_whitespace(template[0])
    &&& template.len() > 0 ==> !holds_at(closed, 0, Keyword::End.pretty())
    &&& forall|i: int|
        0 <= i < template.len() ==> !(is_whitespace(#[trigger] template[i]) && holds_at(
            closed,
            i + 1,
            Keyword::End.pretty(),
        ))
}

/// The two prefixes, letter for letter.
pub proof fn lemma_mode_prefixes()
    ensures
        mode_prefix(RunMode::Directory) == "directory"@,
        mode_prefix(RunMode::File) == "foreach file in"@,
{
    reveal_strlit("foreach ");
    reveal_strlit("file");
    reveal_strlit(" in");
    reveal_strlit("foreach file in");
    assert("foreach "@ + "file"@ + " in"@ =~= "foreach file in"@);
}

/// A well-formed rule with a plain template, written down and read again,
/// is the same rule.
pub proof fn lemma_written_rule_is_read(rule: Rule)
    requires
        rule.well_formed(),
        plain_template(rule.command_template),
    ensures
        rule_of(written(rule)) == Ok::<Rule, CommandErr>(rule),
{
    let s = written(rule);
    let prefix = mode_prefix(rule.run_mode);
    let path = rule.root_path;
    let template = rule.command_template;
    let kw_do = Keyword::Do.pretty();
    let kw_end = Keyword::End.pretty();
    let closed = template + " "@ + kw_end;
    lemma_mode_prefixes();
    reveal_strlit("directory");
    reveal_strlit("foreach file in");
    reveal_strlit(" ");
    reveal_strlit("do");
    reveal_strlit("end");
    let p: int = prefix.len() as int;
    let path_start: int = p + 1;
    let path_end: int = path_start + path.len();
    let do_start: int = path_end + 1;
    let after_do: int = do_start + 2;
    assert(s.subrange(0, p) =~= prefix);
    assert(s[p] == ' ');
    assert(s.subrange(path_start, path_end) =~= path);
    assert(s[path_end] == ' ');
    assert(s.subrange(do_start, after_do) =~= kw_do);
    assert(s[after_do] == ' ');
    assert(is_whitespace(' '));
    assert(!is_whitespace('d') && !is_whitespace('f') && !is_whitespace('e'));

    // The text is no blank, and opens with the prefix of its mode only.
    assert(s[0] == prefix[0]);
    assert(!is_whitespace(s[0]));
    assert(!is_blank(s));
    match rule.run_mode {
        RunMode::Directory => {
            assert(holds_at(s, 0, mode_prefix(RunMode::Directory)));
        },
        RunMode::File => {
            assert(holds_at(s, 0, mode_prefix(RunMode::File)));
            if holds_at(s, 0, mode_prefix(RunMode::Directory)) {
                assert(s.subrange(0, 9)[0] == s[0]);
            }
        },
    }
    assert(leading_mode(s) == Some(rule.run_mode));

    // The path stands between two single spaces.
    assert(s[path_start] == path[0]);
    lemma_skip_whitespace_stops(s, p, path_start);
    assert forall|i: int| path_start <= i < path_end implies !is_whitespace(#[trigger] s[i]) by {
        assert(s[i] == path[i - path_start]);
    }
    lemma_token_end_stops(s, path_start, path_end);
    assert(s[do_start] == 'd');
    lemma_skip_whitespace_stops(s, path_end, do_start);
    assert(holds_at(s, do_start, kw_do));

    // The template starts behind the space that follows `do`; an empty one
    // ends where it starts, at the closing keyword.
    let template_start: int = after_do + 1;
    let template_stop: int = template_start + template.len();
    if template.len() == 0 {
        assert(s.len() == template_start + 3);
        assert(s.subrange(template_start, template_start + 3) =~= kw_end);
        assert(s[template_start] == 'e');
        lemma_skip_whitespace_stops(s, after_do, template_start);
        assert(s.subrange(template_start, template_start) =~= template);
    } else {
        assert(s.len() == template_stop + 4);
        assert(s.subrange(template_start, template_stop) =~= template);
        assert(s.skip(template_start) =~= closed);
        assert(s[template_stop] == ' ');
        assert(s.subrange(template_stop + 1, template_stop + 4) =~= kw_end);
        assert(s[template_start] == template[0]);
        lemma_skip_whitespace_stops(s, after_do, template_start);
        lemma_holds_at_shifted(s, template_start, 0, kw_end);
        assert(!holds_at(s, template_start, kw_end));
        assert forall|i: int| template_start <= i < template_stop implies !(is_whitespace(s[i])
            && holds_at(s, i + 1, kw_end)) by {
            assert(s[i] == template[i - template_start]);
            lemma_holds_at_shifted(s, template_start, i - template_start + 1, kw_end);
        }
        assert(holds_at(s, template_stop + 1, kw_end));
        lemma_closing_whitespace_stops(s, template_start, template_stop);
    }
}

/// A text that denotes a rule spells it: it is the prefix of the rule's
/// mode, the root path, `do`, the template and a remainder that begins with
/// the closing `end`, with nothing but whitespace between them.
pub proof fn lemma_read_rule_is_spelled(s: Seq<char>)
    ensures
        rule_of(s) matches Ok(rule) ==> exists|
            a: Seq<char>,
            b: Seq<char>,
            c: Seq<char>,
            remainder: Seq<char>,
        | #[trigger] spells(s, rule, a, b, c, remainder),
{
    if let Ok(rule) = rule_of(s) {
        let prefix = mode_prefix(rule.run_mode);
        let kw_do = Keyword::Do.pretty();
        let p: int = prefix.len() as int;
        let path_start: int = skip_whitespace(s, p);
        let path_end: int = token_end(s, path_start);
        let do_start: int = skip_whitespace(s, path_end);
        let after_do: int = do_start + kw_do.len();
        let body_start: int = skip_whitespace(s, after_do);
        let body_end: int = template_end(s, body_start).unwrap();
        assert(holds_at(s, 0, prefix));
        lemma_skip_whitespace(s, p);
        lemma_token_end(s, path_start);
        lemma_skip_whitespace(s, path_end);
        lemma_skip_whitespace(s, after_do);
        lemma_template_end_bounds(s, body_start);
        lemma_closing_whitespace(s, body_start);
        let a = s.subrange(p, path_start);
        let b = s.subrange(path_end, do_start);
        let c = s.subrange(after_do, body_start);
        let remainder = s.skip(body_end);
        assert(is_blank(a)) by {
            assert forall|i: int| 0 <= i < a.len() implies is_whitespace(#[trigger] a[i]) by {
                assert(a[i] == s[p + i]);
            }
        }
        assert(is_blank(b)) by {
            assert forall|i: int| 0 <= i < b.len() implies is_whitespace(#[trigger] b[i]) by {
                assert(b[i] == s[path_end + i]);
            }
        }
        assert(is_blank(c)) by {
            assert forall|i: int| 0 <= i < c.len() implies is_whitespace(#[trigger] c[i]) by {
                assert(c[i] == s[after_do + i]);
            }
        }
        assert(s =~= s.subrange(0, p) + a + rule.root_path + b + s.subrange(do_start, after_do)
            + c + rule.command_template + remainder);
        lemma_holds_at_shifted(s, body_end, 0, Keyword::End.pretty());
        lemma_holds_at_shifted(s, body_end, 1, Keyword::End.pretty());
        assert(spells(s, rule, a, b, c, remainder));
    }
}

/// Skipping whitespace stops at the end of a run of whitespace.
proof fn lemma_skip_whitespace_stops(s: Seq<char>, from: int, to: int)
    requires
        0 <= from <= to <= s.len(),
        forall|i: int| from <= i < to ==> is_whitespace(#[trigger] s[i]),
        to < s.len() ==> !is_whitespace(s[to]),
    ensures
        skip_whitespace(s, from) == to,
{
    lemma_skip_whitespace_over(s, from, to);
}

/// A token ends at the end of a run of characters that are no whitespace.
proof fn lemma_token_end_stops(s: Seq<char>, from: int, to: int)
    requires
        0 <= from <= to <= s.len(),
        forall|i: int| from <= i < to ==> !is_whitespace(#[trigger] s[i]),
        to < s.len() ==> is_whitespace(s[to]),
    ensures
        token_end(s, from) == to,
    decreases to - from,
{
    if from < to {
        lemma_token_end_stops(s, from + 1, to);
    }
}

/// The closing whitespace is the first whitespace character that `end`
/// directly follows.
proof fn lemma_closing_whitespace_stops(s: Seq<char>, from: int, at: int)
    requires
        0 <= from <= at < s.len(),
        is_whitespace(s[at]),
        holds_at(s, at + 1, Keyword::End.pretty()),
        forall|i: int|
            from <= i < at ==> !(is_whitespace(s[i]) && holds_at(s, i + 1, Keyword::End.pretty())),
    ensures
        closing_whitespace(s, from) == Some(at),
    decreases at - from,
{
    if from < at {
        lemma_closing_whitespace_stops(s, from + 1, at);
    }
}

/// A template end, where there is one, lies between the start of the
/// template and the end of the text.
pub proof fn lemma_template_end_bounds(s: Seq<char>, from: int)
    requires
        0 <= from <= s.len(),
    ensures
        template_end(s, from) matches Some(e) ==> from <= e <= s.len(),
{
    lemma_closing_whitespace(s, from);
}

/// The closing whitespace, where there is one, lies inside the text at or
/// after the start of the search, and is a whitespace character that `end`
/// directly follows.
proof fn lemma_closing_whitespace(s: Seq<char>, from: int)
    requires
        0 <= from <= s.len(),
    ensures
        closing_whitespace(s, from) matches Some(at) ==> from <= at < s.len() && is_whitespace(
            s[at],
        ) && holds_at(s, at + 1, Keyword::End.pretty()),
    decreases s.len() - from,
{
    if from < s.len() && !(is_whitespace(s[from]) && holds_at(
        s,
        from + 1,
        Keyword::End.pretty(),
    )) {
        lemma_closing_whitespace(s, from + 1);
    }
}

/// Every rule that a text denotes is well formed.
pub proof fn lemma_rule_of_well_formed(s: Seq<char>)
    ensures
        rule_of(s) matches Ok(rule) ==> rule.well_formed(),
{
    if let Ok(rule) = rule_of(s) {
        let mode = leading_mode(s).unwrap();
        let path_start: int = skip_whitespace(s, mode_prefix(mode).len() as int);
        let path_end: int = token_end(s, path_start);
        lemma_skip_whitespace(s, mode_prefix(mode).len() as int);
        lemma_token_end(s, path_start);
        assert(!is_whitespace(s[path_start]));
        assert(path_end > path_start);
        assert forall|i: int| 0 <= i < rule.root_path.len() implies !is_whitespace(
            #[trigger] rule.root_path[i],
        ) by {
            assert(rule.root_path[i] == s[path_start + i]);
        }
    }
}

/// Builds the text with which a rule of the given mode begins.
pub fn run_mode_prefix(mode: RunMode) -> (s: String)
    ensures
        s@ == mode_prefix(mode),
{
    match mode {
        RunMode::Directory => RunMode::Directory.pretty_print(),
        RunMode::File => {
            let mut s = "foreach ".to_owned();
            s.append(RunMode::File.pretty_print().as_str());
            s.append(" in");
            s
        },
    }
}

/// Finds the end of the command template that starts at `from`, given the
/// characters of the closing keyword.
pub(crate) fn find_template_end(s: &Vec<char>, from: usize, end: &Vec<char>) -> (r: Option<usize>)
    requires
        from <= s.len(),
        end@ == Keyword::End.pretty(),
    ensures
        match r {
            Some(e) => template_end(s@, from as int) == Some(e as int) && from <= e <= s.len(),
            None => template_end(s@, from as int) is None,
        },
{
    if starts_at(s, from, end) {
        return Some(from);
    }
    let mut i: usize = from;
    while i < s.len()
        invariant
            from <= i <= s.len(),
            end@ == Keyword::End.pretty(),
            !holds_at(s@, from as int, end@),
            closing_whitespace(s@, from as int) == closing_whitespace(s@, i as int),
        decreases s.len() - i,
    {
        if char_is_whitespace(s[i]) && starts_at(s, i + 1, end) {
            return Some(i);
        }
        i += 1;
    }
    None
}

} // verus!
