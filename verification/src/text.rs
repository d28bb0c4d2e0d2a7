//! Searching, trimming and printing text, character by character.
use vstd::prelude::*;

verus! {

/// Whether `pattern` stands in `text` from position `at` on.
pub open spec fn occurs_at(text: Seq<char>, pattern: Seq<char>, at: int) -> bool {
    &&& 0 <= at <= text.len() - pattern.len()
    &&& text.subrange(at, at + pattern.len()) == pattern
}

/// Whether `pattern` stands anywhere in `text`.
pub open spec fn contains_text(text: Seq<char>, pattern: Seq<char>) -> bool {
    exists|at: int| occurs_at(text, pattern, at)
}

/// `text` without the run of `mark` at its end.
pub open spec fn trim_end(text: Seq<char>, mark: char) -> Seq<char>
    decreases text.len(),
{
    if text.len() > 0 && text.last() == mark {
        trim_end(text.drop_last(), mark)
    } else {
        text
    }
}

/// The decimal digit `d`, for `d` below ten.
pub open spec fn digit(d: nat) -> char {
    if d == 0 {
        '0'
    } else if d == 1 {
        '1'
    } else if d == 2 {
        '2'
    } else if d == 3 {
        '3'
    } else if d == 4 {
        '4'
    } else if d == 5 {
        '5'
    } else if d == 6 {
        '6'
    } else if d == 7 {
        '7'
    } else if d == 8 {
        '8'
    } else {
        '9'
    }
}

/// `n` in decimal, without leading zeros.
pub open spec fn decimal(n: nat) -> Seq<char>
    decreases n,
{
    if n < 10 {
        seq![digit(n)]
    } else {
        decimal(n / 10).push(digit(n % 10))
    }
}

/// `text` where there is one, `fallback` where not.
pub open spec fn text_or_else(text: Option<Seq<char>>, fallback: Seq<char>) -> Seq<char> {
    match text {
        Some(t) => t,
        None => fallback,
    }
}

/// A text result by what its two sides hold.
pub open spec fn outcome<T: DeepView>(result: Result<T, String>) -> Result<T::V, Seq<char>> {
    match result {
        Ok(value) => Ok(value.deep_view()),
        Err(message) => Err(message@),
    }
}

/// [`outcome`] of a result that holds nothing.
pub open spec fn unit_outcome(result: Result<(), String>) -> Result<(), Seq<char>> {
    match result {
        Ok(_) => Ok(()),
        Err(message) => Err(message@),
    }
}

/// A text contains another exactly where it is made of something, the other, and something more.
pub proof fn contained_text_can_be_cut_out(text: Seq<char>, pattern: Seq<char>)
    ensures
        contains_text(text, pattern) <==> exists|before: Seq<char>, after: Seq<char>|
            text == #[trigger] (before + pattern + after),
{
    if contains_text(text, pattern) {
        let at = choose|at: int| occurs_at(text, pattern, at);
        let before = text.take(at);
        let after = text.skip(at + pattern.len());
        assert(text =~= before + pattern + after);
    }
    if exists|before: Seq<char>, after: Seq<char>| text == #[trigger] (before + pattern + after) {
        let (before, after) = choose|before: Seq<char>, after: Seq<char>|
            text == #[trigger] (before + pattern + after);
        assert(text.subrange(before.len() as int, (before.len() + pattern.len()) as int)
            =~= pattern);
        assert(occurs_at(text, pattern, before.len() as int));
    }
}

/// A text begins with another exactly where it is the other and something more.
pub proof fn beginning_can_be_cut_off(text: Seq<char>, pattern: Seq<char>)
    ensures
        occurs_at(text, pattern, 0) <==> exists|rest: Seq<char>| text == #[trigger] (pattern + rest),
{
    if occurs_at(text, pattern, 0) {
        assert(text =~= pattern + text.skip(pattern.len() as int));
    }
    if exists|rest: Seq<char>| text == #[trigger] (pattern + rest) {
        assert(text.subrange(0, pattern.len() as int) =~= pattern);
    }
}

/// Trimming takes marks from the end and nothing else, and takes them all.
pub proof fn trimming_takes_the_marks_at_the_end(text: Seq<char>, mark: char)
    ensures
        trim_end(text, mark).len() <= text.len(),
        forall|i: int| 0 <= i < trim_end(text, mark).len() ==> trim_end(text, mark)[i] == text[i],
        forall|i: int| trim_end(text, mark).len() <= i < text.len() ==> text[i] == mark,
        trim_end(text, mark).len() > 0 ==> trim_end(text, mark).last() != mark,
    decreases text.len(),
{
    if text.len() > 0 && text.last() == mark {
        trimming_takes_the_marks_at_the_end(text.drop_last(), mark);
        let trimmed = trim_end(text, mark);
        assert forall|i: int| trimmed.len() <= i < text.len() implies text[i] == mark by {
            if i < text.len() - 1 {
                assert(text[i] == text.drop_last()[i]);
            }
        }
        assert forall|i: int| 0 <= i < trimmed.len() implies trimmed[i] == text[i] by {
            assert(text[i] == text.drop_last()[i]);
        }
    }
}

/// A number below ten is written as the character that many places after `0`; ten times a number
/// and that many more as the number's digits and then that character.
pub proof fn digits_follow_each_other(n: nat, d: nat)
    requires
        d < 10,
    ensures
        decimal(d) == seq![('0' as u32 + d) as char],
        n > 0 ==> decimal(10 * n + d) == decimal(n).push(('0' as u32 + d) as char),
{
    assert((10 * n + d) / 10 == n);
    assert((10 * n + d) % 10 == d);
}

/// A text that is there is taken as it is, whatever the fallback; where there is none the fallback
/// is.
pub proof fn fallback_is_for_what_is_missing(text: Seq<char>, fallback: Seq<char>)
    ensures
        text_or_else(Some(text), fallback) == text,
        text_or_else(None, fallback) == fallback,
{
}

/// A result is seen as it is, on either side.
pub proof fn results_are_seen_whole<T: DeepView>(value: T, message: String)
    ensures
        outcome::<T>(Ok(value)) == Ok::<T::V, Seq<char>>(value.deep_view()),
        outcome::<T>(Err(message)) == Err::<T::V, Seq<char>>(message@),
        unit_outcome(Ok(())) == Ok::<(), Seq<char>>(()),
        unit_outcome(Err(message)) == Err::<(), Seq<char>>(message@),
{
}

/// The characters of `text`.
pub(crate) fn chars_of(text: &str) -> (chars: Vec<char>)
    ensures
        chars@ == text@,
{
    let mut chars: Vec<char> = Vec::new();
    for c in it: text.chars()
        invariant
            it.seq() == text@,
            chars@ == text@.take(it.index() as int),
    {
        chars.push(c);
    }
    assert(text@.take(text@.len() as int) == text@);
    chars
}

fn chars_occur_at(text: &Vec<char>, pattern: &Vec<char>, at: usize) -> (found: bool)
    requires
        at + pattern.len() <= text.len(),
    ensures
        found == occurs_at(text@, pattern@, at as int),
{
    let mut k: usize = 0;
    while k < pattern.len()
        invariant
            k <= pattern.len(),
            at + pattern.len() <= text.len(),
            forall|i: int| 0 <= i < k ==> text@[at + i] == pattern@[i],
        decreases pattern.len() - k,
    {
        if text[at + k] != pattern[k] {
            assert(text@.subrange(at as int, at + pattern.len())[k as int] != pattern@[k as int]);
            return false;
        }
        k = k + 1;
    }
    assert(text@.subrange(at as int, at + pattern.len()) =~= pattern@);
    true
}

/// Whether `pattern` occurs in `text`.
pub(crate) fn text_contains(text: &str, pattern: &str) -> (found: bool)
    ensures
        found == contains_text(text@, pattern@),
{
    let text_chars = chars_of(text);
    let pattern_chars = chars_of(pattern);
    if pattern_chars.len() > text_chars.len() {
        return false;
    }
    let last: usize = text_chars.len() - pattern_chars.len();
    let mut at: usize = 0;
    while at < last
        invariant
            text_chars@ == text@,
            pattern_chars@ == pattern@,
            last == text@.len() - pattern@.len(),
            at <= last,
            forall|i: int| 0 <= i < at ==> !occurs_at(text@, pattern@, i),
        decreases last - at,
    {
        if chars_occur_at(&text_chars, &pattern_chars, at) {
            return true;
        }
        at = at + 1;
    }
    let found = chars_occur_at(&text_chars, &pattern_chars, last);
    proof {
        if contains_text(text@, pattern@) {
            let i = choose|i: int| occurs_at(text@, pattern@, i);
            assert(i == last);
        }
    }
    found
}

/// Whether `text` begins with `pattern`.
pub(crate) fn text_starts_with(text: &str, pattern: &str) -> (found: bool)
    ensures
        found == occurs_at(text@, pattern@, 0),
{
    let text_chars = chars_of(text);
    let pattern_chars = chars_of(pattern);
    if pattern_chars.len() > text_chars.len() {
        return false;
    }
    chars_occur_at(&text_chars, &pattern_chars, 0)
}

proof fn lemma_trim_end_skips(text: Seq<char>, mark: char, kept: int)
    requires
        0 <= kept <= text.len(),
        forall|i: int| kept <= i < text.len() ==> text[i] == mark,
    ensures
        trim_end(text, mark) == trim_end(text.take(kept), mark),
    decreases text.len(),
{
    if kept < text.len() {
        lemma_trim_end_skips(text.drop_last(), mark, kept);
        assert(text.drop_last().take(kept) == text.take(kept));
    } else {
        assert(text.take(kept) == text);
    }
}

/// What is left after trimming does not end in the mark.
pub proof fn lemma_trim_end_leaves_no_mark(text: Seq<char>, mark: char)
    ensures
        trim_end(text, mark).len() > 0 ==> trim_end(text, mark).last() != mark,
    decreases text.len(),
{
    if text.len() > 0 && text.last() == mark {
        lemma_trim_end_leaves_no_mark(text.drop_last(), mark);
    }
}

/// `text` without the run of `mark` at its end.
pub(crate) fn text_trim_end(text: &str, mark: char) -> (trimmed: String)
    ensures
        trimmed@ == trim_end(text@, mark),
{
    let chars = chars_of(text);
    let mut kept: usize = chars.len();
    while kept > 0 && chars[kept - 1] == mark
        invariant
            chars@ == text@,
            kept <= chars.len(),
            forall|i: int| kept <= i < chars.len() ==> text@[i] == mark,
        decreases kept,
    {
        kept = kept - 1;
    }
    proof {
        lemma_trim_end_skips(text@, mark, kept as int);
        assert(text@.take(kept as int) == text@.subrange(0, kept as int));
    }
    text.substring_char(0, kept).to_string()
}

fn digit_text(d: usize) -> (text: &'static str)
    requires
        d < 10,
    ensures
        text@ == seq![digit(d as nat)],
{
    proof {
        reveal_strlit("0");
        reveal_strlit("1");
        reveal_strlit("2");
        reveal_strlit("3");
        reveal_strlit("4");
        reveal_strlit("5");
        reveal_strlit("6");
        reveal_strlit("7");
        reveal_strlit("8");
        reveal_strlit("9");
    }
    match d {
        0 => "0",
        1 => "1",
        2 => "2",
        3 => "3",
        4 => "4",
        5 => "5",
        6 => "6",
        7 => "7",
        8 => "8",
        _ => "9",
    }
}

/// `n` in decimal.
pub(crate) fn decimal_text(n: usize) -> (text: String)
    ensures
        text@ == decimal(n as nat),
    decreases n,
{
    if n < 10 {
        digit_text(n).to_string()
    } else {
        let mut text = decimal_text(n / 10);
        text.append(digit_text(n % 10));
        assert(text@ == decimal(n as nat / 10) + seq![digit(n as nat % 10)]);
        text
    }
}

/// `first` followed by `second`.
pub(crate) fn joined(first: &str, second: &str) -> (text: String)
    ensures
        text@ == first@ + second@,
{
    first.to_string().concat(second)
}

/// `text` where there is one, `fallback` where not.
pub(crate) fn text_or(text: Option<String>, fallback: &str) -> (chosen: String)
    ensures
        chosen@ == text_or_else(text.deep_view(), fallback@),
{
    match text {
        Some(t) => t,
        None => fallback.to_string(),
    }
}

/// Copies of `texts`, in order.
pub(crate) fn copied_texts(texts: &[String]) -> (copies: Vec<String>)
    ensures
        copies.deep_view() == texts.deep_view(),
{
    let mut copies: Vec<String> = Vec::new();
    for i in 0..texts.len()
        invariant
            copies.len() == i,
            forall|k: int| 0 <= k < i ==> copies@[k] == texts@[k],
    {
        copies.push(texts[i].clone());
    }
    assert(copies.deep_view() =~= texts.deep_view());
    copies
}

} // verus!
