//! From the text given at start-up to the rules that are watched: the text
//! is cut into rules at `;;`, and each rule gets a tracker of its own.

use crate::text::{
    chars_of, holds_at, lemma_holds_at_shifted, lemma_occurrence_from,
    lemma_occurrence_is_first, occurrence_from, occurs_in, split, starts_at, trimmed,
    trimmed_range,
};
use crate::types::FileView;
use crate::witd::grammar::rule_of;
use crate::witd::{Command, CommandErr, Witd, WitdErr};
use vstd::prelude::*;
use vstd::string::StrSliceExecFns;

verus! {

/// A simple structure containing information related to each Witd instance.
pub struct Context {
    /// The directory to scan.
    pub path: String,
    /// The rule and what it remembers.
    pub witd: Witd,
}

/// What stands between two rules.
pub open spec fn separator() -> Seq<char> {
    ";;"@
}

/// The rule texts that an input holds.
///
/// Where the separator occurs, the input is cut at each separator and
/// every piece is trimmed. An input without separator is one rule text,
/// left exactly as it is.
pub open spec fn commands_of(input: Seq<char>) -> Seq<Seq<char>> {
    if occurs_in(input, separator()) {
        trimmed_each(split(input, separator()))
    } else {
        seq![input]
    }
}

/// Every piece, trimmed.
pub open spec fn trimmed_each(pieces: Seq<Seq<char>>) -> Seq<Seq<char>> {
    pieces.map_values(|p: Seq<char>| trimmed(p))
}

/// The error of the first text that denotes no rule, if there is one.
pub open spec fn first_error(inputs: Seq<Seq<char>>) -> Option<CommandErr>
    decreases inputs.len(),
{
    if inputs.len() == 0 {
        None
    } else {
        match first_error(inputs.drop_last()) {
            Some(e) => Some(e),
            None => match rule_of(inputs.last()) {
                Err(e) => Some(e),
                Ok(_) => None,
            },
        }
    }
}

/// Whether a context is the fresh one for a rule text: it holds the rule
/// that the text denotes, scans that rule's root path, and remembers no
/// file.
pub open spec fn fresh_for(context: Context, input: Seq<char>) -> bool {
    &&& rule_of(input) == Ok::<_, CommandErr>(context.witd@.rule)
    &&& context.path@ == context.witd@.rule.root_path
    &&& context.witd@.known == Map::<Seq<char>, FileView>::empty()
}

/// Given some input, split it into a collection of different inputs.
pub fn split_commands(input: String) -> (r: Vec<String>)
    ensures
        r.deep_view() == commands_of(input@),
{
    let text = chars_of(input.as_str());
    let sep = chars_of(";;");
    let n: usize = text.len();
    let m: usize = sep.len();
    proof {
        reveal_strlit(";;");
    }
    let mut out: Vec<String> = Vec::new();
    let mut start: usize = 0;
    let mut i: usize = 0;
    assert(input@.skip(0) =~= input@);
    assert(out.deep_view() =~= Seq::<Seq<char>>::empty());
    while i < n
        invariant
            start <= i <= n,
            n == text.len(),
            m == sep.len(),
            m == 2,
            text@ == input@,
            sep@ == separator(),
            trimmed_each(split(input@, separator())) == out.deep_view() + trimmed_each(
                split(input@.skip(start as int), separator()),
            ),
            forall|j: int| start <= j < i ==> !holds_at(input@, j, separator()),
            start == 0 ==> out@.len() == 0,
            start > 0 ==> occurs_in(input@, separator()),
        decreases n - i,
    {
        if starts_at(&text, i, &sep) {
            let ghost rest = input@.skip(start as int);
            let ghost before = out.deep_view();
            let (from, to) = trimmed_range(&text, start, i);
            let piece = input.as_str().substring_char(from, to).to_owned();
            out.push(piece);
            proof {
                assert forall|j: int| 0 <= j < i - start implies !holds_at(
                    rest,
                    j,
                    separator(),
                ) by {
                    lemma_holds_at_shifted(input@, start as int, j, separator());
                }
                lemma_holds_at_shifted(input@, start as int, i - start, separator());
                lemma_occurrence_is_first(rest, separator(), 0, i - start);
                assert(rest.take(i - start) =~= input@.subrange(start as int, i as int));
                assert(rest.skip(i - start + m) =~= input@.skip(i + m));
                assert(out.deep_view() =~= before.push(piece@));
                assert(trimmed_each(split(rest, separator())) =~= seq![piece@] + trimmed_each(
                    split(input@.skip(i + m), separator()),
                ));
                assert(before.push(piece@) + trimmed_each(
                    split(input@.skip(i + m), separator()),
                ) =~= before + (seq![piece@] + trimmed_each(
                    split(input@.skip(i + m), separator()),
                )));
                assert(holds_at(input@, i as int, separator()));
            }
            i += m;
            start = i;
        } else {
            i += 1;
        }
    }
    if start == 0 {
        assert(!occurs_in(input@, separator()));
        out.push(input);
        assert(out.deep_view() =~= seq![input@]);
        return out;
    }
    let ghost rest = input@.skip(start as int);
    let ghost before = out.deep_view();
    let (from, to) = trimmed_range(&text, start, n);
    let piece = input.as_str().substring_char(from, to).to_owned();
    out.push(piece);
    proof {
        lemma_occurrence_from(rest, separator(), 0);
        assert forall|j: int| 0 <= j implies !holds_at(rest, j, separator()) by {
            lemma_holds_at_shifted(input@, start as int, j, separator());
        }
        assert(occurrence_from(rest, separator(), 0) is None);
        assert(rest =~= input@.subrange(start as int, n as int));
        assert(out.deep_view() =~= before.push(piece@));
        assert(trimmed_each(split(rest, separator())) =~= seq![piece@]);
    }
    out
}

/// Builds out a collection of Contexts from a collection of inputs.
///
/// The first text that denotes no rule ends the work with its error.
pub fn build_contexts(inputs: Vec<String>) -> (r: Result<Vec<Context>, WitdErr>)
    ensures
        match r {
            Ok(contexts) => {
                &&& first_error(inputs.deep_view()) is None
                &&& contexts@.len() == inputs@.len()
                &&& forall|i: int|
                    0 <= i < contexts@.len() ==> fresh_for(#[trigger] contexts@[i], inputs@[i]@)
            },
            Err(e) => first_error(inputs.deep_view()) matches Some(cause) && e
                == WitdErr::CommandErr(cause),
        },
{
    let mut contexts: Vec<Context> = Vec::new();
    let mut i: usize = 0;
    assert(inputs.deep_view().take(0) =~= Seq::<Seq<char>>::empty());
    while i < inputs.len()
        invariant
            i <= inputs.len(),
            contexts@.len() == i,
            first_error(inputs.deep_view().take(i as int)) is None,
            forall|k: int| 0 <= k < i ==> fresh_for(#[trigger] contexts@[k], inputs@[k]@),
        decreases inputs.len() - i,
    {
        proof {
            let next = inputs.deep_view().take(i + 1);
            assert(next.drop_last() =~= inputs.deep_view().take(i as int));
            assert(next.last() == inputs@[i as int]@);
        }
        match Command::parse(inputs[i].as_str()) {
            Ok(command) => {
                let path = command.root_path().clone();
                contexts.push(Context { path, witd: Witd::new(command) });
            },
            Err(e) => {
                proof {
                    lemma_first_error_stays(inputs.deep_view(), i + 1);
                }
                return Err(WitdErr::from(e));
            },
        }
        i += 1;
    }
    assert(inputs.deep_view().take(i as int) =~= inputs.deep_view());
    Ok(contexts)
}

/// An error among the first texts is the first error of all the texts.
proof fn lemma_first_error_stays(inputs: Seq<Seq<char>>, count: int)
    requires
        0 <= count <= inputs.len(),
        first_error(inputs.take(count)) is Some,
    ensures
        first_error(inputs) == first_error(inputs.take(count)),
    decreases inputs.len() - count,
{
    if count < inputs.len() {
        assert(inputs.take(count + 1).drop_last() =~= inputs.take(count));
        lemma_first_error_stays(inputs, count + 1);
    } else {
        assert(inputs.take(count) =~= inputs);
    }
}

} // verus!
