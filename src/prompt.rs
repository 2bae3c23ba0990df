use vstd::prelude::*;
use vstd::string::*;
use crate::partition::{PartitionError, Range};

verus! {

/// What `str::trim` returns: the text without leading and trailing white space.
pub uninterp spec fn trimmed_of(s: Seq<char>) -> Seq<char>;

/// What `str::to_lowercase` returns: the lowercase mapping of each character.
pub uninterp spec fn lower_of(s: Seq<char>) -> Seq<char>;

/// Relies on `str::trim`: the result depends on the characters alone.
#[verifier::external_body]
fn trim_text(s: &str) -> (r: &str)
    ensures
        r@ == trimmed_of(s@),
{
    s.trim()
}

/// Relies on `str::to_lowercase`: the result depends on the characters alone.
#[verifier::external_body]
fn lowercase(s: &str) -> (r: String)
    ensures
        r@ == lower_of(s@),
{
    s.to_lowercase()
}

/// All characters are ASCII decimal digits.
pub open spec fn all_digits(s: Seq<char>) -> bool {
    forall|i: int| 0 <= i < s.len() ==> '0' <= #[trigger] s[i] <= '9'
}

/// Value of a string of decimal digits.
pub open spec fn digits_value(s: Seq<char>) -> nat
    decreases s.len(),
{
    if s.len() == 0 {
        0
    } else {
        digits_value(s.drop_last()) * 10 + (s.last() as nat - '0' as nat) as nat
    }
}

/// How an unsigned decimal is read: an optional `+`, then one or more ASCII
/// digits, whose value must fit in a `usize`.
pub open spec fn parsed_usize(s: Seq<char>) -> Option<usize> {
    let d = if s.len() > 0 && s[0] == '+' {
        s.drop_first()
    } else {
        s
    };
    if d.len() > 0 && all_digits(d) && digits_value(d) <= usize::MAX {
        Some(digits_value(d) as usize)
    } else {
        None
    }
}

/// Relies on `str::parse::<usize>` (`usize::from_str`): an optional `+` and
/// at least one decimal digit, no other character, and a value in range.
#[verifier::external_body]
fn parse_usize(s: &str) -> (r: Option<usize>)
    ensures
        r == parsed_usize(s@),
{
    s.parse::<usize>().ok()
}

/// The result of a prompt that waits a bounded time for one line.
#[derive(Debug, PartialEq, Eq)]
pub enum PromptOutcome {
    /// A line arrived in time; it holds the line trimmed.
    Received(String),
    /// No line arrived before the deadline.
    TimedOut,
}

/// The outcome for a line that arrived before the deadline.
pub fn received(line: &str) -> (r: PromptOutcome)
    ensures
        r matches PromptOutcome::Received(t) && t@ == trimmed_of(line@),
{
    let t = trim_text(line);
    PromptOutcome::Received(String::from_str(t))
}

/// The text a caller acts on: the line received, or `default` on a timeout.
/// An empty line stays empty.
pub open spec fn answer_text(o: PromptOutcome, default: Seq<char>) -> Seq<char> {
    match o {
        PromptOutcome::Received(t) => t@,
        PromptOutcome::TimedOut => default,
    }
}

/// The line received, or `default` when the prompt timed out.
pub fn answer_or(outcome: &PromptOutcome, default: &str) -> (r: String)
    ensures
        r@ == answer_text(*outcome, default@),
{
    match outcome {
        PromptOutcome::Received(t) => t.clone(),
        PromptOutcome::TimedOut => String::from_str(default),
    }
}

/// Whether `s` is exactly the one character `c`.
pub fn is_single_char(s: &str, c: char) -> (r: bool)
    ensures
        r == (s@ == seq![c]),
{
    let n = s.unicode_len();
    if n != 1 {
        proof {
            assert(s@.len() != seq![c].len());
        }
        return false;
    }
    let first = s.get_char(0);
    proof {
        if first == c {
            assert(s@ =~= seq![c]);
        }
    }
    first == c
}

/// An answer counts as yes when, trimmed and lowercased, it is `y`; anything
/// else, the empty answer included, is no.
pub fn to_boolean(input: &str) -> (r: bool)
    ensures
        r == (lower_of(trimmed_of(input@)) == seq!['y']),
{
    let t = trim_text(input);
    let folded = lowercase(t);
    is_single_char(folded.as_str(), 'y')
}

/// A yes/no question whose default is yes: a timeout counts as `y`, and the
/// answer is lowercased before it is read as by `to_boolean`.
pub fn affirmative(answer: &PromptOutcome) -> (r: bool)
    ensures
        r == (lower_of(trimmed_of(lower_of(answer_text(*answer, seq!['y'])))) == seq!['y']),
{
    let yes = String::from_str("y");
    proof {
        reveal_strlit("y");
        assert(yes@ =~= seq!['y']);
    }
    let text = answer_or(answer, yes.as_str());
    let folded = lowercase(text.as_str());
    to_boolean(folded.as_str())
}

/// Whether to list the available formats before choosing one: yes by default.
pub fn ask_if_format(answer: &PromptOutcome) -> (r: bool)
    ensures
        r == (lower_of(trimmed_of(lower_of(answer_text(*answer, seq!['y'])))) == seq!['y']),
{
    affirmative(answer)
}

/// The format code used when none is entered.
pub open spec fn default_format() -> Seq<char> {
    seq!['1', '8']
}

/// The format code chosen: the answer, or the default format on a timeout or
/// an empty answer.
pub fn chosen_format(answer: &PromptOutcome) -> (r: String)
    ensures
        r@ == (if answer_text(*answer, default_format()).len() == 0 {
            default_format()
        } else {
            answer_text(*answer, default_format())
        }),
{
    let fallback = String::from_str("18");
    proof {
        reveal_strlit("18");
        assert(fallback@ =~= default_format());
    }
    let text = answer_or(answer, fallback.as_str());
    if text.unicode_len() == 0 {
        fallback
    } else {
        text
    }
}

/// Whether the chosen format is confirmed: only an answer that lowercases to
/// `n` rejects it; a timeout confirms.
pub fn format_confirmed(answer: &PromptOutcome) -> (r: bool)
    ensures
        r == (lower_of(answer_text(*answer, seq!['y'])) != seq!['n']),
{
    let yes = String::from_str("y");
    proof {
        reveal_strlit("y");
        assert(yes@ =~= seq!['y']);
    }
    let text = answer_or(answer, yes.as_str());
    let folded = lowercase(text.as_str());
    !is_single_char(folded.as_str(), 'n')
}

/// A number read from a line, or `default` when the line, trimmed, is not an
/// unsigned decimal.
pub open spec fn number_or(line: Seq<char>, default: usize) -> usize {
    match parsed_usize(trimmed_of(line)) {
        Some(n) => n,
        None => default,
    }
}

/// Reads a count of items from a line of output; output that is not a
/// number counts as no items.
pub fn count_from_output(output: &str) -> (r: usize)
    ensures
        r == number_or(output@, 0),
{
    number_from_line(output, 0)
}

/// Reads a number from a line, falling back to `default`.
pub fn number_from_line(line: &str, default: usize) -> (r: usize)
    ensures
        r == number_or(line@, default),
{
    let t = trim_text(line);
    match parse_usize(t) {
        Some(n) => n,
        None => default,
    }
}

/// The range to fetch out of a collection of `total` items: the start index
/// entered (default `0`) through the end index entered (default
/// `total - 1`). An empty collection or an inverted range is refused.
pub fn download_range(total: usize, start_line: &str, end_line: &str) -> (r: Result<
    Range,
    PartitionError,
>)
    ensures
        total == 0 ==> r == Err::<Range, PartitionError>(PartitionError::InvalidRange),
        total > 0 ==> ({
            let s = number_or(start_line@, 0);
            let e = number_or(end_line@, (total - 1) as usize);
            &&& r is Ok <==> s <= e
            &&& r is Err ==> r == Err::<Range, PartitionError>(PartitionError::InvalidRange)
            &&& r matches Ok(range) ==> range.start == s && range.end == e
        }),
{
    if total == 0 {
        return Err(PartitionError::InvalidRange);
    }
    let start = number_from_line(start_line, 0);
    let end = number_from_line(end_line, total - 1);
    if start > end {
        return Err(PartitionError::InvalidRange);
    }
    Ok(Range { start, end })
}

/// The number of workers: the number entered, else half the item count,
/// and at least one.
pub fn worker_count(line: &str, total: usize) -> (r: usize)
    ensures
        r == vstd::math::max(1, number_or(line@, total / 2) as int),
        r >= 1,
{
    let n = number_from_line(line, total / 2);
    if n == 0 {
        1
    } else {
        n
    }
}

} // verus!
