//! Character-level text utilities shared by the rule parser, the template
//! renderer and the command-line splitter.
//!
//! Every string is modelled by its sequence of characters. Positions are
//! character positions, never byte offsets.

use vstd::prelude::*;
use vstd::string::{StrSliceExecFns, StringExecFns};

verus! {

/// Whether `c` carries the Unicode `White_Space` property.
pub open spec fn is_whitespace(c: char) -> bool {
    let u = c as u32;
    ||| 0x09 <= u <= 0x0D
    ||| u == 0x20
    ||| u == 0x85
    ||| u == 0xA0
    ||| u == 0x1680
    ||| 0x2000 <= u <= 0x200A
    ||| u == 0x2028
    ||| u == 0x2029
    ||| u == 0x202F
    ||| u == 0x205F
    ||| u == 0x3000
}

/// Whether `c` is one of the five ASCII whitespace characters: space, tab,
/// line feed, form feed or carriage return.
pub open spec fn is_ascii_whitespace(c: char) -> bool {
    let u = c as u32;
    u == 0x20 || u == 0x09 || u == 0x0A || u == 0x0C || u == 0x0D
}

/// Whether `pat` stands in `s` at position `at`.
pub open spec fn holds_at(s: Seq<char>, at: int, pat: Seq<char>) -> bool {
    &&& 0 <= at
    &&& at + pat.len() <= s.len()
    &&& s.subrange(at, at + pat.len()) == pat
}

/// The first position at or after `from` that holds no whitespace, or the
/// length of `s` when only whitespace follows.
pub open spec fn skip_whitespace(s: Seq<char>, from: int) -> int
    decreases s.len() - from,
{
    if 0 <= from < s.len() && is_whitespace(s[from]) {
        skip_whitespace(s, from + 1)
    } else {
        from
    }
}

/// The first position at or after `from` that holds whitespace, or the
/// length of `s` when none follows.
pub open spec fn token_end(s: Seq<char>, from: int) -> int
    decreases s.len() - from,
{
    if 0 <= from < s.len() && !is_whitespace(s[from]) {
        token_end(s, from + 1)
    } else {
        from
    }
}

/// Whether every character of `s` is whitespace. The empty sequence is blank.
pub open spec fn is_blank(s: Seq<char>) -> bool {
    forall|i: int| 0 <= i < s.len() ==> is_whitespace(#[trigger] s[i])
}

/// The first of the patterns, counted from `from`, that is not empty and
/// opens the text.
pub open spec fn opening_pattern(text: Seq<char>, patterns: Seq<Seq<char>>, from: int) -> Option<
    int,
>
    decreases patterns.len() - from,
{
    if from < 0 || from >= patterns.len() {
        None
    } else if patterns[from].len() > 0 && holds_at(text, 0, patterns[from]) {
        Some(from)
    } else {
        opening_pattern(text, patterns, from + 1)
    }
}

/// The text with the patterns replaced by their values, in one pass from
/// left to right.
///
/// Where a pattern opens what is left of the text, its value is put in and
/// the pass goes on behind the pattern; where several do, the first of them
/// counts. Otherwise the character is kept and the pass goes on behind it.
/// A value that was put in is never searched. An empty pattern, and one
/// that has no value, is never found.
pub open spec fn substituted(
    text: Seq<char>,
    patterns: Seq<Seq<char>>,
    values: Seq<Seq<char>>,
) -> Seq<char>
    decreases text.len(),
    via substituted_decreases
{
    if text.len() == 0 {
        text
    } else {
        match opening_pattern(text, patterns, 0) {
            Some(k) if k < values.len() => values[k] + substituted(
                text.skip(patterns[k].len() as int),
                patterns,
                values,
            ),
            _ => seq![text[0]] + substituted(text.skip(1), patterns, values),
        }
    }
}

#[via_fn]
proof fn substituted_decreases(text: Seq<char>, patterns: Seq<Seq<char>>, values: Seq<Seq<char>>) {
    lemma_opening_pattern(text, patterns, 0);
}

/// Whether `pat` stands anywhere in `s`.
pub open spec fn occurs_in(s: Seq<char>, pat: Seq<char>) -> bool {
    exists|i: int| holds_at(s, i, pat)
}

/// The position of the first occurrence of `pat` in `s` at or after `from`.
pub open spec fn occurrence_from(s: Seq<char>, pat: Seq<char>, from: int) -> Option<int>
    decreases s.len() - from,
{
    if holds_at(s, from, pat) {
        Some(from)
    } else if from < 0 || from >= s.len() {
        None
    } else {
        occurrence_from(s, pat, from + 1)
    }
}

/// The pieces into which the separator cuts the text.
///
/// The separators are found from left to right and do not overlap. A text
/// without the separator is one piece, and so is any text for the empty
/// separator. Two separators in a row, or one at either end, give an empty
/// piece.
pub open spec fn split(s: Seq<char>, sep: Seq<char>) -> Seq<Seq<char>>
    decreases s.len(),
    via split_decreases
{
    match occurrence_from(s, sep, 0) {
        Some(at) if sep.len() > 0 => seq![s.take(at)] + split(s.skip(at + sep.len()), sep),
        _ => seq![s],
    }
}

#[via_fn]
proof fn split_decreases(s: Seq<char>, sep: Seq<char>) {
    lemma_occurrence_from(s, sep, 0);
}

/// The text without the whitespace at its end.
pub open spec fn without_trailing_whitespace(s: Seq<char>) -> Seq<char>
    decreases s.len(),
{
    if s.len() > 0 && is_whitespace(s.last()) {
        without_trailing_whitespace(s.drop_last())
    } else {
        s
    }
}

/// The text without the whitespace at its start and at its end.
pub open spec fn trimmed(s: Seq<char>) -> Seq<char> {
    let t = without_trailing_whitespace(s);
    t.skip(skip_whitespace(t, 0))
}

/// The parts in a row, with the separator between each two neighbours.
pub open spec fn joined(parts: Seq<Seq<char>>, sep: Seq<char>) -> Seq<char>
    decreases parts.len(),
{
    if parts.len() == 0 {
        Seq::empty()
    } else if parts.len() == 1 {
        parts[0]
    } else {
        joined(parts.drop_last(), sep) + sep + parts.last()
    }
}

/// The first position at or after `from` that holds ASCII whitespace, or
/// the length of `s` when none follows.
pub open spec fn ascii_token_end(s: Seq<char>, from: int) -> int
    decreases s.len() - from,
{
    if 0 <= from < s.len() && !is_ascii_whitespace(s[from]) {
        ascii_token_end(s, from + 1)
    } else {
        from
    }
}

/// The tokens of a text: its longest runs of characters that are no ASCII
/// whitespace, from left to right.
pub open spec fn ascii_tokens(s: Seq<char>) -> Seq<Seq<char>>
    decreases s.len(),
    via ascii_tokens_decreases
{
    if s.len() == 0 {
        Seq::empty()
    } else if is_ascii_whitespace(s[0]) {
        ascii_tokens(s.skip(1))
    } else {
        seq![s.take(ascii_token_end(s, 0))] + ascii_tokens(s.skip(ascii_token_end(s, 0)))
    }
}

#[via_fn]
proof fn ascii_tokens_decreases(s: Seq<char>) {
    if s.len() > 0 {
        lemma_ascii_token_end(s, 0);
        lemma_ascii_token_end(s, 1);
    }
}

/// `ascii_token_end` stops inside the text, past characters that are no
/// ASCII whitespace, and at such a character unless it reaches the end.
pub proof fn lemma_ascii_token_end(s: Seq<char>, from: int)
    requires
        0 <= from <= s.len(),
    ensures
        from <= ascii_token_end(s, from) <= s.len(),
        forall|i: int|
            from <= i < ascii_token_end(s, from) ==> !is_ascii_whitespace(#[trigger] s[i]),
        ascii_token_end(s, from) < s.len() ==> is_ascii_whitespace(s[ascii_token_end(s, from)]),
    decreases s.len() - from,
{
    if from < s.len() && !is_ascii_whitespace(s[from]) {
        lemma_ascii_token_end(s, from + 1);
    }
}

/// An occurrence that is found lies at or after the start of the search,
/// the pattern stands there, and it stands nowhere between the two. Where
/// none is found the pattern stands nowhere from the start of the search on.
pub proof fn lemma_occurrence_from(s: Seq<char>, pat: Seq<char>, from: int)
    requires
        0 <= from,
    ensures
        match occurrence_from(s, pat, from) {
            Some(at) => from <= at && holds_at(s, at, pat) && forall|i: int|
                from <= i < at ==> !holds_at(s, i, pat),
            None => forall|i: int| from <= i ==> !holds_at(s, i, pat),
        },
    decreases s.len() - from,
{
    if !holds_at(s, from, pat) && from < s.len() {
        lemma_occurrence_from(s, pat, from + 1);
    }
}

/// `skip_whitespace` stops inside the text, past whitespace only, and at a
/// character that is no whitespace unless it reaches the end.
pub proof fn lemma_skip_whitespace(s: Seq<char>, from: int)
    requires
        0 <= from <= s.len(),
    ensures
        from <= skip_whitespace(s, from) <= s.len(),
        forall|i: int| from <= i < skip_whitespace(s, from) ==> is_whitespace(#[trigger] s[i]),
        skip_whitespace(s, from) < s.len() ==> !is_whitespace(s[skip_whitespace(s, from)]),
    decreases s.len() - from,
{
    if from < s.len() && is_whitespace(s[from]) {
        lemma_skip_whitespace(s, from + 1);
    }
}

/// `token_end` stops inside the text, past characters that are no whitespace,
/// and at a whitespace character unless it reaches the end.
pub proof fn lemma_token_end(s: Seq<char>, from: int)
    requires
        0 <= from <= s.len(),
    ensures
        from <= token_end(s, from) <= s.len(),
        forall|i: int| from <= i < token_end(s, from) ==> !is_whitespace(#[trigger] s[i]),
        token_end(s, from) < s.len() ==> is_whitespace(s[token_end(s, from)]),
    decreases s.len() - from,
{
    if from < s.len() && !is_whitespace(s[from]) {
        lemma_token_end(s, from + 1);
    }
}

/// A text is blank exactly when skipping whitespace from its start reaches
/// its end.
pub proof fn lemma_blank_iff_skipped(s: Seq<char>)
    ensures
        is_blank(s) <==> skip_whitespace(s, 0) == s.len(),
{
    lemma_skip_whitespace(s, 0);
    if is_blank(s) {
        lemma_skip_whitespace_over(s, 0, s.len() as int);
    }
}

/// Skipping whitespace from `from` passes every position up to `to` when
/// all the characters between them are whitespace.
pub proof fn lemma_skip_whitespace_over(s: Seq<char>, from: int, to: int)
    requires
        0 <= from <= to <= s.len(),
        forall|i: int| from <= i < to ==> is_whitespace(#[trigger] s[i]),
    ensures
        skip_whitespace(s, from) == skip_whitespace(s, to),
    decreases to - from,
{
    if from < to {
        lemma_skip_whitespace_over(s, from + 1, to);
    }
}

/// A pattern stands at a position behind a cut exactly when it stands at
/// the same place of the whole text.
pub proof fn lemma_holds_at_shifted(s: Seq<char>, cut: int, at: int, pat: Seq<char>)
    requires
        0 <= cut <= s.len(),
        0 <= at,
    ensures
        holds_at(s.skip(cut), at, pat) <==> holds_at(s, cut + at, pat),
{
    if cut + at + pat.len() <= s.len() {
        assert(s.skip(cut).subrange(at, at + pat.len()) =~= s.subrange(
            cut + at,
            cut + at + pat.len(),
        ));
    }
}

/// A pattern occurs in a text exactly when a first occurrence is found.
pub proof fn lemma_occurs_iff_found(s: Seq<char>, pat: Seq<char>)
    ensures
        occurs_in(s, pat) <==> occurrence_from(s, pat, 0) is Some,
{
    lemma_occurrence_from(s, pat, 0);
    if occurs_in(s, pat) {
        let i = choose|i: int| holds_at(s, i, pat);
        assert(holds_at(s, i, pat));
    }
}

/// The first occurrence is the position where the pattern stands and before
/// which, from the start of the search on, it does not.
pub proof fn lemma_occurrence_is_first(s: Seq<char>, pat: Seq<char>, from: int, at: int)
    requires
        0 <= from <= at,
        holds_at(s, at, pat),
        forall|i: int| from <= i < at ==> !holds_at(s, i, pat),
    ensures
        occurrence_from(s, pat, from) == Some(at),
    decreases at - from,
{
    if from < at {
        lemma_occurrence_is_first(s, pat, from + 1, at);
    }
}

/// Behind a cut, a token ends where it ends in the whole text.
pub proof fn lemma_ascii_token_end_shifted(s: Seq<char>, cut: int, from: int)
    requires
        0 <= cut <= s.len(),
        0 <= from <= s.len() - cut,
    ensures
        ascii_token_end(s.skip(cut), from) + cut == ascii_token_end(s, cut + from),
    decreases s.len() - cut - from,
{
    if from < s.len() - cut && !is_ascii_whitespace(s[cut + from]) {
        lemma_ascii_token_end_shifted(s, cut, from + 1);
    }
}

/// The opening pattern, where there is one, is not empty and opens the
/// text, and no pattern between the start of the search and it does; where
/// there is none, no pattern from the start of the search on does.
pub proof fn lemma_opening_pattern(text: Seq<char>, patterns: Seq<Seq<char>>, from: int)
    requires
        0 <= from,
    ensures
        match opening_pattern(text, patterns, from) {
            Some(k) => {
                &&& from <= k < patterns.len()
                &&& patterns[k].len() > 0
                &&& holds_at(text, 0, patterns[k])
                &&& forall|j: int|
                    from <= j < k ==> !(patterns[j].len() > 0 && holds_at(text, 0, patterns[j]))
            },
            None => forall|j: int|
                from <= j < patterns.len() ==> !(patterns[j].len() > 0 && holds_at(
                    text,
                    0,
                    patterns[j],
                )),
        },
    decreases patterns.len() - from,
{
    if from < patterns.len() && !(patterns[from].len() > 0 && holds_at(text, 0, patterns[from])) {
        lemma_opening_pattern(text, patterns, from + 1);
    }
}

/// The opening pattern is the first that is not empty and opens the text.
pub proof fn lemma_opening_pattern_is_first(
    text: Seq<char>,
    patterns: Seq<Seq<char>>,
    from: int,
    k: int,
)
    requires
        0 <= from <= k < patterns.len(),
        patterns[k].len() > 0,
        holds_at(text, 0, patterns[k]),
        forall|j: int| from <= j < k ==> !holds_at(text, 0, patterns[j]),
    ensures
        opening_pattern(text, patterns, from) == Some(k),
    decreases k - from,
{
    if from < k {
        lemma_opening_pattern_is_first(text, patterns, from + 1, k);
    }
}

/// A stretch of text inside which no pattern opens is kept, and the pass
/// goes on behind it.
pub proof fn lemma_substituted_behind(
    kept: Seq<char>,
    rest: Seq<char>,
    patterns: Seq<Seq<char>>,
    values: Seq<Seq<char>>,
)
    requires
        forall|i: int|
            0 <= i < kept.len() ==> opening_pattern(#[trigger] (kept + rest).skip(i), patterns, 0)
                is None,
    ensures
        substituted(kept + rest, patterns, values) == kept + substituted(rest, patterns, values),
    decreases kept.len(),
{
    if kept.len() == 0 {
        assert(kept + rest =~= rest);
        assert(kept + substituted(rest, patterns, values) =~= substituted(rest, patterns, values));
    } else {
        let s = kept + rest;
        assert(s.skip(0) =~= s);
        assert(s.skip(1) =~= kept.skip(1) + rest);
        assert forall|i: int| 0 <= i < kept.skip(1).len() implies opening_pattern(
            #[trigger] (kept.skip(1) + rest).skip(i),
            patterns,
            0,
        ) is None by {
            assert((kept.skip(1) + rest).skip(i) =~= s.skip(i + 1));
        }
        lemma_substituted_behind(kept.skip(1), rest, patterns, values);
        assert(seq![s[0]] + (kept.skip(1) + substituted(rest, patterns, values)) =~= kept
            + substituted(rest, patterns, values));
    }
}

/// A text in which none of the patterns stands anywhere is left as it is.
pub proof fn lemma_substituted_without_occurrence(
    text: Seq<char>,
    patterns: Seq<Seq<char>>,
    values: Seq<Seq<char>>,
)
    requires
        forall|k: int| 0 <= k < patterns.len() ==> !occurs_in(text, #[trigger] patterns[k]),
    ensures
        substituted(text, patterns, values) == text,
{
    let none = Seq::<char>::empty();
    assert(text + none =~= text);
    assert forall|i: int| 0 <= i < text.len() implies opening_pattern(
        #[trigger] (text + none).skip(i),
        patterns,
        0,
    ) is None by {
        lemma_opening_pattern(text.skip(i), patterns, 0);
        if let Some(k) = opening_pattern(text.skip(i), patterns, 0) {
            lemma_holds_at_shifted(text, i, 0, patterns[k]);
            assert(holds_at(text, i, patterns[k]));
        }
    }
    lemma_substituted_behind(text, none, patterns, values);
    assert(text + substituted(none, patterns, values) =~= text);
}

/// Tests a character for the Unicode `White_Space` property.
pub fn char_is_whitespace(c: char) -> (b: bool)
    ensures
        b == is_whitespace(c),
{
    let u: u32 = c as u32;
    (0x09 <= u && u <= 0x0D) || u == 0x20 || u == 0x85 || u == 0xA0 || u == 0x1680 || (0x2000 <= u
        && u <= 0x200A) || u == 0x2028 || u == 0x2029 || u == 0x202F || u == 0x205F || u == 0x3000
}

/// Tests a character for ASCII whitespace.
pub fn char_is_ascii_whitespace(c: char) -> (b: bool)
    ensures
        b == is_ascii_whitespace(c),
{
    let u: u32 = c as u32;
    u == 0x20 || u == 0x09 || u == 0x0A || u == 0x0C || u == 0x0D
}

/// The characters of a string slice, collected into a vector.
pub fn chars_of(s: &str) -> (v: Vec<char>)
    ensures
        v@ == s@,
{
    let mut v: Vec<char> = Vec::new();
    for c in it: s.chars()
        invariant
            it.seq() == s@,
            v@ == it.seq().take(it.index() as int),
    {
        v.push(c);
    }
    v
}

/// Tests whether `pat` stands in `s` at position `at`.
pub fn starts_at(s: &Vec<char>, at: usize, pat: &Vec<char>) -> (b: bool)
    ensures
        b == holds_at(s@, at as int, pat@),
{
    if pat.len() > s.len() || at > s.len() - pat.len() {
        return false;
    }
    let mut j: usize = 0;
    while j < pat.len()
        invariant
            j <= pat.len(),
            at + pat.len() <= s.len(),
            forall|k: int| 0 <= k < j ==> s@[at + k] == pat@[k],
        decreases pat.len() - j,
    {
        if s[at + j] != pat[j] {
            assert(s@.subrange(at as int, at + pat.len())[j as int] == s@[at + j]);
            return false;
        }
        j += 1;
    }
    assert(s@.subrange(at as int, at + pat.len()) =~= pat@);
    true
}

/// Finds the first position at or after `from` that holds no whitespace.
pub fn skip_whitespace_from(s: &Vec<char>, from: usize) -> (to: usize)
    ensures
        to == skip_whitespace(s@, from as int),
        from <= to,
        from <= s.len() ==> to <= s.len(),
{
    let mut i: usize = from;
    while i < s.len() && char_is_whitespace(s[i])
        invariant
            from <= i,
            i <= s.len() || i == from,
            skip_whitespace(s@, from as int) == skip_whitespace(s@, i as int),
        decreases s.len() - i,
    {
        i += 1;
    }
    i
}

/// Finds the first position at or after `from` that holds whitespace.
pub fn token_end_from(s: &Vec<char>, from: usize) -> (to: usize)
    ensures
        to == token_end(s@, from as int),
        from <= to,
        from <= s.len() ==> to <= s.len(),
{
    let mut i: usize = from;
    while i < s.len() && !char_is_whitespace(s[i])
        invariant
            from <= i,
            i <= s.len() || i == from,
            token_end(s@, from as int) == token_end(s@, i as int),
        decreases s.len() - i,
    {
        i += 1;
    }
    i
}

/// Finds the first position at or after `from` that holds ASCII whitespace.
pub fn ascii_token_end_from(s: &Vec<char>, from: usize) -> (to: usize)
    ensures
        to == ascii_token_end(s@, from as int),
        from <= to,
        from <= s.len() ==> to <= s.len(),
{
    let mut i: usize = from;
    while i < s.len() && !char_is_ascii_whitespace(s[i])
        invariant
            from <= i,
            i <= s.len() || i == from,
            ascii_token_end(s@, from as int) == ascii_token_end(s@, i as int),
        decreases s.len() - i,
    {
        i += 1;
    }
    i
}

/// Finds where the text between `from` and `to` begins and ends once the
/// whitespace at its two ends is left out.
pub(crate) fn trimmed_range(s: &Vec<char>, from: usize, to: usize) -> (r: (usize, usize))
    requires
        from <= to <= s.len(),
    ensures
        from <= r.0 <= r.1 <= to,
        s@.subrange(r.0 as int, r.1 as int) == trimmed(s@.subrange(from as int, to as int)),
{
    let mut end: usize = to;
    while end > from && char_is_whitespace(s[end - 1])
        invariant
            from <= end <= to <= s.len(),
            without_trailing_whitespace(s@.subrange(from as int, to as int))
                == without_trailing_whitespace(s@.subrange(from as int, end as int)),
        decreases end,
    {
        assert(s@.subrange(from as int, end as int).drop_last() =~= s@.subrange(
            from as int,
            end - 1,
        ));
        end -= 1;
    }
    let ghost kept = s@.subrange(from as int, end as int);
    assert(without_trailing_whitespace(kept) == kept);
    let mut start: usize = from;
    while start < end && char_is_whitespace(s[start])
        invariant
            from <= start <= end <= s.len(),
            kept == s@.subrange(from as int, end as int),
            skip_whitespace(kept, 0) == skip_whitespace(kept, start - from),
        decreases end - start,
    {
        start += 1;
    }
    assert(kept.skip(start - from) =~= s@.subrange(start as int, end as int));
    (start, end)
}

/// Joins the parts, with the separator between each two neighbours.
pub fn join(parts: &Vec<String>, sep: &str) -> (r: String)
    ensures
        r@ == joined(parts.deep_view(), sep@),
{
    let mut out = String::new();
    let mut i: usize = 0;
    assert(parts.deep_view().take(0) =~= Seq::<Seq<char>>::empty());
    while i < parts.len()
        invariant
            i <= parts.len(),
            out@ == joined(parts.deep_view().take(i as int), sep@),
        decreases parts.len() - i,
    {
        let ghost before = out@;
        if i > 0 {
            out.append(sep);
        }
        out.append(parts[i].as_str());
        proof {
            let next = parts.deep_view().take(i + 1);
            assert(next.drop_last() =~= parts.deep_view().take(i as int));
            assert(next.last() == parts[i as int]@);
            if i == 0 {
                assert(out@ =~= parts[0]@);
            }
        }
        i += 1;
    }
    assert(parts.deep_view().take(i as int) =~= parts.deep_view());
    out
}

/// Splits a text into its tokens: the longest runs of characters that are
/// no ASCII whitespace.
pub fn split_ascii_whitespace(s: &str) -> (r: Vec<String>)
    ensures
        r.deep_view() == ascii_tokens(s@),
{
    let text = chars_of(s);
    let n: usize = text.len();
    let mut out: Vec<String> = Vec::new();
    let mut i: usize = 0;
    assert(s@.skip(0) =~= s@);
    assert(out.deep_view() =~= Seq::<Seq<char>>::empty());
    while i < n
        invariant
            i <= n,
            n == text.len(),
            text@ == s@,
            ascii_tokens(s@) == out.deep_view() + ascii_tokens(s@.skip(i as int)),
        decreases n - i,
    {
        let ghost rest = s@.skip(i as int);
        if char_is_ascii_whitespace(text[i]) {
            assert(rest.skip(1) =~= s@.skip(i + 1));
            i += 1;
        } else {
            let end: usize = ascii_token_end_from(&text, i);
            let ghost before = out.deep_view();
            let token = s.substring_char(i, end).to_owned();
            out.push(token);
            proof {
                lemma_ascii_token_end_shifted(s@, i as int, 0);
                assert(rest.take(end - i) =~= s@.subrange(i as int, end as int));
                assert(rest.skip(end - i) =~= s@.skip(end as int));
                assert(out.deep_view() =~= before.push(token@));
                assert(before.push(token@) + ascii_tokens(s@.skip(end as int)) =~= before + (
                seq![token@] + ascii_tokens(s@.skip(end as int))));
            }
            i = end;
        }
    }
    assert(ascii_tokens(s@.skip(n as int)) =~= Seq::<Seq<char>>::empty());
    out
}

/// The texts that vectors of characters hold.
spec fn texts(spelled: Seq<Vec<char>>) -> Seq<Seq<char>> {
    spelled.map_values(|v: Vec<char>| v@)
}

/// Finds the first of the patterns that is not empty and stands in the
/// text at position `at`.
fn opening_pattern_at(text: &Vec<char>, at: usize, patterns: &Vec<Vec<char>>) -> (r: Option<usize>)
    requires
        at <= text.len(),
    ensures
        match r {
            Some(k) => opening_pattern(text@.skip(at as int), texts(patterns@), 0) == Some(
                k as int,
            ) && k < patterns.len(),
            None => opening_pattern(text@.skip(at as int), texts(patterns@), 0) is None,
        },
{
    let mut k: usize = 0;
    while k < patterns.len()
        invariant
            k <= patterns.len(),
            at <= text.len(),
            opening_pattern(text@.skip(at as int), texts(patterns@), 0) == opening_pattern(
                text@.skip(at as int),
                texts(patterns@),
                k as int,
            ),
        decreases patterns.len() - k,
    {
        proof {
            lemma_holds_at_shifted(text@, at as int, 0, patterns@[k as int]@);
        }
        if patterns[k].len() > 0 && starts_at(text, at, &patterns[k]) {
            return Some(k);
        }
        k += 1;
    }
    None
}

/// Replaces the patterns by their values, in one pass from left to right.
pub fn substitute(text: &str, patterns: &Vec<String>, values: &Vec<String>) -> (r: String)
    ensures
        r@ == substituted(text@, patterns.deep_view(), values.deep_view()),
{
    let s = chars_of(text);
    let n: usize = s.len();
    let mut spelled: Vec<Vec<char>> = Vec::new();
    let mut j: usize = 0;
    assert(texts(spelled@) =~= patterns.deep_view().take(0));
    while j < patterns.len()
        invariant
            j <= patterns.len(),
            texts(spelled@) == patterns.deep_view().take(j as int),
        decreases patterns.len() - j,
    {
        let ghost before = texts(spelled@);
        let pattern = chars_of(patterns[j].as_str());
        spelled.push(pattern);
        assert(texts(spelled@) =~= before.push(pattern@));
        assert(patterns.deep_view().take(j + 1) =~= patterns.deep_view().take(j as int).push(
            patterns@[j as int]@,
        ));
        j += 1;
    }
    assert(patterns.deep_view().take(j as int) =~= patterns.deep_view());
    let ghost all = substituted(text@, patterns.deep_view(), values.deep_view());
    let mut out = String::new();
    let mut start: usize = 0;
    let mut i: usize = 0;
    assert(text@.skip(0) =~= text@);
    while i < n
        invariant
            start <= i <= n,
            n == s.len(),
            s@ == text@,
            texts(spelled@) == patterns.deep_view(),
            all == substituted(text@, patterns.deep_view(), values.deep_view()),
            all == out@ + text@.subrange(start as int, i as int) + substituted(
                text@.skip(i as int),
                patterns.deep_view(),
                values.deep_view(),
            ),
        decreases n - i,
    {
        let ghost rest = text@.skip(i as int);
        let ghost tail = substituted(text@.skip(i + 1), patterns.deep_view(), values.deep_view());
        proof {
            lemma_opening_pattern(rest, patterns.deep_view(), 0);
            assert(rest.skip(1) =~= text@.skip(i + 1));
            assert(text@.subrange(start as int, i + 1) =~= text@.subrange(start as int, i as int)
                + seq![text@[i as int]]);
            assert(out@ + text@.subrange(start as int, i + 1) + tail =~= out@ + text@.subrange(
                start as int,
                i as int,
            ) + (seq![text@[i as int]] + tail));
        }
        match opening_pattern_at(&s, i, &spelled) {
            Some(k) => {
                if k < values.len() {
                    let m: usize = spelled[k].len();
                    let ghost before = out@;
                    proof {
                        assert(values.deep_view()[k as int] == values@[k as int]@);
                    }
                    out.append(text.substring_char(start, i));
                    out.append(values[k].as_str());
                    proof {
                        let behind = substituted(
                            text@.skip(i + m),
                            patterns.deep_view(),
                            values.deep_view(),
                        );
                        assert(rest.skip(m as int) =~= text@.skip(i + m));
                        assert(text@.subrange(i + m, i + m) =~= Seq::<char>::empty());
                        assert(out@ + text@.subrange(i + m, i + m) + behind =~= before
                            + text@.subrange(start as int, i as int) + (values@[k as int]@
                            + behind));
                    }
                    i += m;
                    start = i;
                } else {
                    i += 1;
                }
            },
            None => {
                i += 1;
            },
        }
    }
    out.append(text.substring_char(start, n));
    proof {
        assert(substituted(text@.skip(n as int), patterns.deep_view(), values.deep_view())
            =~= Seq::<char>::empty());
    }
    out
}

} // verus!
