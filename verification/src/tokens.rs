//! Tokenizing primitives: the character classes of the quest grammar, the
//! prefixes they span, and the matchers that cut those prefixes off a string
//! slice.
//!
//! The matchers that read from the front are `nom`'s. Each is called through a
//! small function whose contract is taken on trust; everything else here, and
//! everything built on top, is verified.

use nom::bytes::complete::tag;
use nom::character::complete::{alphanumeric1, newline, not_line_ending, space0};
use nom::error::Error;
use vstd::prelude::*;

verus! {

/// A blank inside a line: a space or a tab. Line breaks are not blanks.
pub open spec fn is_blank(c: char) -> bool {
    c == ' ' || c == '\t'
}

/// An ASCII letter or digit.
pub open spec fn is_alphanumeric(c: char) -> bool {
    ('a' <= c && c <= 'z') || ('A' <= c && c <= 'Z') || ('0' <= c && c <= '9')
}

/// A character that ends the text of a line: carriage return or line feed.
pub open spec fn is_line_break(c: char) -> bool {
    c == '\r' || c == '\n'
}

/// The number of blanks that `s` starts with.
pub open spec fn blank_len(s: Seq<char>) -> nat
    decreases s.len(),
{
    if s.len() > 0 && is_blank(s[0]) {
        1 + blank_len(s.skip(1))
    } else {
        0
    }
}

/// The number of ASCII letters and digits that `s` starts with.
pub open spec fn alphanumeric_len(s: Seq<char>) -> nat
    decreases s.len(),
{
    if s.len() > 0 && is_alphanumeric(s[0]) {
        1 + alphanumeric_len(s.skip(1))
    } else {
        0
    }
}

/// The number of characters of `s` before its first carriage return or line
/// feed, or the length of `s` if it has neither.
pub open spec fn line_len(s: Seq<char>) -> nat
    decreases s.len(),
{
    if s.len() > 0 && !is_line_break(s[0]) {
        1 + line_len(s.skip(1))
    } else {
        0
    }
}

/// `s` without its leading blanks.
pub open spec fn skip_blanks(s: Seq<char>) -> Seq<char> {
    s.skip(blank_len(s) as int)
}

/// `s` without the blanks at its end.
pub open spec fn trim_end_blanks(s: Seq<char>) -> Seq<char>
    decreases s.len(),
{
    if s.len() > 0 && is_blank(s.last()) {
        trim_end_blanks(s.drop_last())
    } else {
        s
    }
}

/// What is left of `s` after the literal `t`, if `s` starts with `t`.
pub open spec fn strip_prefix(s: Seq<char>, t: Seq<char>) -> Option<Seq<char>> {
    if t.is_prefix_of(s) {
        Some(s.skip(t.len() as int))
    } else {
        None
    }
}

/// What is left of `s` after a line feed, if `s` starts with one.
pub open spec fn strip_newline(s: Seq<char>) -> Option<Seq<char>> {
    if s.len() > 0 && s[0] == '\n' {
        Some(s.skip(1))
    } else {
        None
    }
}

/// The identifier that `s` starts with, a non-empty run of ASCII letters and
/// digits, and what follows it.
pub open spec fn split_identifier(s: Seq<char>) -> Option<(Seq<char>, Seq<char>)> {
    let n = alphanumeric_len(s) as int;
    if n > 0 {
        Some((s.take(n), s.skip(n)))
    } else {
        None
    }
}

/// The text of `s` up to its first line ending, and what follows from that
/// line ending on. A line ending is a line feed, or a carriage return directly
/// followed by a line feed; a carriage return followed by anything else (or by
/// nothing) is not accepted.
pub open spec fn split_line(s: Seq<char>) -> Option<(Seq<char>, Seq<char>)> {
    let n = line_len(s) as int;
    if n < s.len() && s[n] == '\r' && !(n + 1 < s.len() && s[n + 1] == '\n') {
        None
    } else {
        Some((s.take(n), s.skip(n)))
    }
}

/// The three prefix lengths stay within the sequence, and each stops at the
/// first character outside its class.
pub proof fn lemma_prefix_lens(s: Seq<char>)
    ensures
        blank_len(s) <= s.len(),
        alphanumeric_len(s) <= s.len(),
        line_len(s) <= s.len(),
        forall|i: int| 0 <= i < blank_len(s) ==> is_blank(#[trigger] s[i]),
        forall|i: int| 0 <= i < alphanumeric_len(s) ==> is_alphanumeric(#[trigger] s[i]),
        forall|i: int| 0 <= i < line_len(s) ==> !is_line_break(#[trigger] s[i]),
        blank_len(s) < s.len() ==> !is_blank(s[blank_len(s) as int]),
        alphanumeric_len(s) < s.len() ==> !is_alphanumeric(s[alphanumeric_len(s) as int]),
        line_len(s) < s.len() ==> is_line_break(s[line_len(s) as int]),
    decreases s.len(),
{
    if s.len() > 0 {
        let t = s.skip(1);
        lemma_prefix_lens(t);
        assert forall|i: int| 0 <= i < blank_len(s) implies is_blank(#[trigger] s[i]) by {
            if i > 0 {
                assert(s[i] == t[i - 1]);
            }
        }
        assert forall|i: int| 0 <= i < alphanumeric_len(s) implies is_alphanumeric(
            #[trigger] s[i],
        ) by {
            if i > 0 {
                assert(s[i] == t[i - 1]);
            }
        }
        assert forall|i: int| 0 <= i < line_len(s) implies !is_line_break(#[trigger] s[i]) by {
            if i > 0 {
                assert(s[i] == t[i - 1]);
            }
        }
        if blank_len(s) < s.len() && is_blank(s[0]) {
            assert(s[blank_len(s) as int] == t[blank_len(t) as int]);
        }
        if alphanumeric_len(s) < s.len() && is_alphanumeric(s[0]) {
            assert(s[alphanumeric_len(s) as int] == t[alphanumeric_len(t) as int]);
        }
        if line_len(s) < s.len() && !is_line_break(s[0]) {
            assert(s[line_len(s) as int] == t[line_len(t) as int]);
        }
    }
}

/// Drops the leading blanks of `input`.
///
/// Calls `nom::character::complete::space0`, which splits its input before
/// the first character that is neither a space nor a tab (at the end if there
/// is none) and never fails. The contract claims that what it leaves is the
/// input without its leading spaces and tabs.
#[verifier::external_body]
pub(crate) fn trim_blanks<'a>(input: &'a str) -> (rest: &'a str)
    ensures
        rest@ == skip_blanks(input@),
{
    match space0::<&str, Error<&str>>(input) {
        Ok((rest, _)) => rest,
        Err(_) => input,
    }
}

/// Matches the literal `t` at the start of `input` and returns what follows.
///
/// Calls the matcher built by `nom::bytes::complete::tag`, which compares the
/// bytes of `t` with the start of the input and, where they agree over all of
/// `t`, splits the input after them. The contract claims that it succeeds
/// exactly when `input` starts with `t`, and that it then returns `input`
/// without that prefix.
#[verifier::external_body]
pub(crate) fn take_literal<'a>(input: &'a str, t: &str) -> (r: Option<&'a str>)
    ensures
        match strip_prefix(input@, t@) {
            Some(rest) => r matches Some(x) && x@ == rest,
            None => r is None,
        },
{
    match tag::<&str, &str, Error<&str>>(t)(input) {
        Ok((rest, _)) => Some(rest),
        Err(_) => None,
    }
}

/// Matches one line feed at the start of `input` and returns what follows.
///
/// Calls `nom::character::complete::newline`, which accepts the single
/// character `'\n'`. The contract claims that it succeeds exactly when the
/// input starts with a line feed, and that it then returns the input without
/// that character.
#[verifier::external_body]
pub(crate) fn take_newline<'a>(input: &'a str) -> (r: Option<&'a str>)
    ensures
        match strip_newline(input@) {
            Some(rest) => r matches Some(x) && x@ == rest,
            None => r is None,
        },
{
    match newline::<&str, Error<&str>>(input) {
        Ok((rest, _)) => Some(rest),
        Err(_) => None,
    }
}

/// Matches an identifier at the start of `input`; returns what follows it and
/// the identifier.
///
/// Calls `nom::character::complete::alphanumeric1`, which splits its input
/// before the first character that is not an ASCII letter or digit (at the end
/// if there is none) and fails if that leaves an empty match. The contract
/// claims exactly this.
#[verifier::external_body]
pub(crate) fn take_identifier<'a>(input: &'a str) -> (r: Option<(&'a str, &'a str)>)
    ensures
        match split_identifier(input@) {
            Some((name, rest)) => r matches Some((x, y)) && x@ == rest && y@ == name,
            None => r is None,
        },
{
    match alphanumeric1::<&str, Error<&str>>(input) {
        Ok((rest, name)) => Some((rest, name)),
        Err(_) => None,
    }
}

/// Takes the text up to the next line ending; returns what follows, line
/// ending included, and the text.
///
/// Calls `nom::character::complete::not_line_ending`, which looks for the
/// first carriage return or line feed. Without one it takes the whole input.
/// At a line feed, or at a carriage return directly followed by a line feed,
/// it splits the input there. At any other carriage return it fails. The
/// contract claims exactly this.
#[verifier::external_body]
pub(crate) fn take_line<'a>(input: &'a str) -> (r: Option<(&'a str, &'a str)>)
    ensures
        match split_line(input@) {
            Some((text, rest)) => r matches Some((x, y)) && x@ == rest && y@ == text,
            None => r is None,
        },
{
    match not_line_ending::<&str, Error<&str>>(input) {
        Ok((rest, text)) => Some((rest, text)),
        Err(_) => None,
    }
}

/// Drops the blanks at the end of `text`.
pub fn trim_trailing_blanks<'a>(text: &'a str) -> (trimmed: &'a str)
    ensures
        trimmed@ == trim_end_blanks(text@),
{
    let mut n: usize = text.unicode_len();
    assert(text@.take(n as int) == text@);
    loop
        invariant
            n <= text@.len(),
            trim_end_blanks(text@) == trim_end_blanks(text@.take(n as int)),
        ensures
            n <= text@.len(),
            trim_end_blanks(text@) == text@.take(n as int),
        decreases n,
    {
        if n == 0 {
            break ;
        }
        let c = text.get_char(n - 1);
        if !(c == ' ' || c == '\t') {
            break ;
        }
        assert(text@.take(n as int).drop_last() == text@.take(n - 1));
        n -= 1;
    }
    text.substring_char(0, n)
}

} // verus!
