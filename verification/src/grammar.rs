//! The quest grammar as mathematics: what a text means, rule by rule.
//!
//! Every rule is a function from the text that is still to be read to the
//! value it recognises at the start of that text and the text that follows,
//! or to nothing where the rule does not apply.

use crate::tokens::{
    lemma_prefix_lens, skip_blanks, split_identifier, split_line, strip_newline, strip_prefix,
    trim_end_blanks,
};
use vstd::prelude::*;

verus! {

/// A tag: one of the three known ones, or any other label.
pub enum OptionView {
    Event,
    Miniboss,
    Boss,
    Other(Seq<char>),
}

/// A stage: what is to be done, and the tags attached to it in the order in
/// which they were written.
pub struct StageView {
    pub action: Seq<char>,
    pub options: Seq<OptionView>,
}

/// A line of a quest: a stage, or the marker of the current position.
pub enum LineView {
    Stage(StageView),
    Now,
}

/// Why a text is not a quest.
pub enum ParseErrorView {
    /// A line is neither a marker nor a stage.
    GrammarMismatch,
    /// The lines end before the text does; the text that is left over.
    TrailingInput(Seq<char>),
}

/// A custom tag: an identifier, kept as its label whatever it says.
pub open spec fn spec_parse_other_option(s: Seq<char>) -> Option<(OptionView, Seq<char>)> {
    match split_identifier(s) {
        Some((name, rest)) => Some((OptionView::Other(name), rest)),
        None => None,
    }
}

/// The tag that a token stands for: a known tag where the token is exactly
/// its keyword, else a custom tag with the token as its label.
pub open spec fn tag_of_token(token: Seq<char>) -> OptionView {
    if token == "event"@ {
        OptionView::Event
    } else if token == "boss"@ {
        OptionView::Boss
    } else if token == "miniboss"@ {
        OptionView::Miniboss
    } else {
        OptionView::Other(token)
    }
}

/// One tag: an identifier, taken as a whole and then told apart by its text.
pub open spec fn spec_parse_option(s: Seq<char>) -> Option<(OptionView, Seq<char>)> {
    match split_identifier(s) {
        Some((token, rest)) => Some((tag_of_token(token), rest)),
        None => None,
    }
}

/// The tags that follow the first one: each a comma and a tag. The list ends
/// before the first comma that no tag follows.
pub open spec fn spec_parse_more_options(s: Seq<char>) -> (Seq<OptionView>, Seq<char>)
    decreases s.len(),
    via spec_parse_more_options_decreases
{
    match strip_prefix(s, ","@) {
        None => (Seq::empty(), s),
        Some(after_comma) => match spec_parse_option(after_comma) {
            None => (Seq::empty(), s),
            Some((option, rest)) => {
                let (options, end) = spec_parse_more_options(rest);
                (seq![option] + options, end)
            },
        },
    }
}

#[via_fn]
proof fn spec_parse_more_options_decreases(s: Seq<char>) {
    if let Some(after_comma) = strip_prefix(s, ","@) {
        lemma_option_rest(after_comma);
    }
}

/// Zero or more tags separated by commas.
pub open spec fn spec_parse_option_list(s: Seq<char>) -> (Seq<OptionView>, Seq<char>) {
    match spec_parse_option(s) {
        None => (Seq::empty(), s),
        Some((option, rest)) => {
            let (options, end) = spec_parse_more_options(rest);
            (seq![option] + options, end)
        },
    }
}

/// A tag list: `[`, tags separated by commas, `]`.
pub open spec fn spec_parse_options(s: Seq<char>) -> Option<(Seq<OptionView>, Seq<char>)> {
    match strip_prefix(s, "["@) {
        None => None,
        Some(inside) => {
            let (options, end) = spec_parse_option_list(inside);
            match strip_prefix(end, "]"@) {
                None => None,
                Some(rest) => Some((options, rest)),
            }
        },
    }
}

/// The action of a stage with the tags `options`: the text up to the line
/// ending, without the blanks at its end. What follows starts at the line
/// ending.
pub open spec fn spec_parse_action(options: Seq<OptionView>, s: Seq<char>) -> Option<
    (StageView, Seq<char>),
> {
    match split_line(s) {
        None => None,
        Some((text, rest)) => Some((StageView { action: trim_end_blanks(text), options }, rest)),
    }
}

/// A stage line: blanks, an optional tag list, blanks, the action, blanks.
/// Where the text after the leading blanks starts with `[`, a tag list has to
/// follow.
pub open spec fn spec_parse_stage(s: Seq<char>) -> Option<(StageView, Seq<char>)> {
    let start = skip_blanks(s);
    if "["@.is_prefix_of(start) {
        match spec_parse_options(start) {
            None => None,
            Some((options, rest)) => spec_parse_action(options, skip_blanks(rest)),
        }
    } else {
        spec_parse_action(Seq::empty(), start)
    }
}

/// A line: the marker `---` after optional blanks, or else a stage.
pub open spec fn spec_parse_line(s: Seq<char>) -> Option<(LineView, Seq<char>)> {
    match strip_prefix(skip_blanks(s), "---"@) {
        Some(rest) => Some((LineView::Now, rest)),
        None => match spec_parse_stage(s) {
            Some((stage, rest)) => Some((LineView::Stage(stage), rest)),
            None => None,
        },
    }
}

/// What reading lines gives where `lines` were read first and reading on gave
/// `more`.
pub open spec fn after_lines(
    lines: Seq<LineView>,
    more: Result<(Seq<LineView>, Seq<char>), ParseErrorView>,
) -> Result<(Seq<LineView>, Seq<char>), ParseErrorView> {
    match more {
        Ok((next, rest)) => Ok((lines + next, rest)),
        Err(e) => Err(e),
    }
}

/// Lines separated by line feeds, and the text after the last of them. A line
/// that is neither marker nor stage makes the whole text a mismatch.
pub open spec fn spec_parse_quest(s: Seq<char>) -> Result<
    (Seq<LineView>, Seq<char>),
    ParseErrorView,
>
    decreases s.len(),
    via spec_parse_quest_decreases
{
    match spec_parse_line(s) {
        None => Err(ParseErrorView::GrammarMismatch),
        Some((line, rest)) => match strip_newline(rest) {
            None => Ok((seq![line], rest)),
            Some(next) => after_lines(seq![line], spec_parse_quest(next)),
        },
    }
}

#[via_fn]
proof fn spec_parse_quest_decreases(s: Seq<char>) {
    lemma_line_rest(s);
}

/// A whole quest: its lines, where they take up all of the text.
pub open spec fn spec_parse(s: Seq<char>) -> Result<Seq<LineView>, ParseErrorView> {
    match spec_parse_quest(s) {
        Err(e) => Err(e),
        Ok((lines, rest)) => if rest.len() == 0 {
            Ok(lines)
        } else {
            Err(ParseErrorView::TrailingInput(rest))
        },
    }
}

/// `rest` is the end of `s`, and the part of `s` before it holds no line feed.
pub open spec fn rest_in_line(s: Seq<char>, rest: Seq<char>) -> bool {
    &&& rest.len() <= s.len()
    &&& rest == s.skip(s.len() - rest.len())
    &&& forall|i: int| 0 <= i < s.len() - rest.len() ==> s[i] != '\n'
}

/// A rule that reads nothing stays within the line.
pub proof fn lemma_rest_in_line_refl(s: Seq<char>)
    ensures
        rest_in_line(s, s),
{
    assert(s.skip(0) == s);
}

/// Reading on from where a rule stopped stays within the line.
pub proof fn lemma_rest_in_line_trans(s: Seq<char>, a: Seq<char>, b: Seq<char>)
    requires
        rest_in_line(s, a),
        rest_in_line(a, b),
    ensures
        rest_in_line(s, b),
{
    let i = s.len() - a.len();
    let j = a.len() - b.len();
    assert(s.skip(i).skip(j) == s.skip(i + j));
    assert forall|k: int| 0 <= k < s.len() - b.len() implies s[k] != '\n' by {
        if k >= i {
            assert(s[k] == a[k - i]);
        }
    }
}

/// Skipping blanks stays within the line.
pub proof fn lemma_skip_blanks_rest(s: Seq<char>)
    ensures
        rest_in_line(s, skip_blanks(s)),
{
    lemma_prefix_lens(s);
}

/// Taking a literal without a line feed in it stays within the line.
pub proof fn lemma_strip_prefix_rest(s: Seq<char>, t: Seq<char>)
    requires
        forall|i: int| 0 <= i < t.len() ==> t[i] != '\n',
    ensures
        strip_prefix(s, t) matches Some(rest) ==> rest_in_line(s, rest) && rest.len() + t.len()
            == s.len(),
{
    if t.is_prefix_of(s) {
        assert forall|i: int| 0 <= i < t.len() implies s[i] != '\n' by {
            assert(s[i] == s.subrange(0, t.len() as int)[i]);
        }
    }
}

/// A tag takes at least one character and stays within the line.
pub proof fn lemma_option_rest(s: Seq<char>)
    ensures
        spec_parse_option(s) matches Some((_, rest)) ==> rest_in_line(s, rest) && rest.len()
            < s.len(),
{
    lemma_prefix_lens(s);
}

/// The tags after the first stay within the line.
pub proof fn lemma_more_options_rest(s: Seq<char>)
    ensures
        rest_in_line(s, spec_parse_more_options(s).1),
    decreases s.len(),
{
    reveal_strlit(",");
    lemma_strip_prefix_rest(s, ","@);
    lemma_rest_in_line_refl(s);
    if let Some(after_comma) = strip_prefix(s, ","@) {
        lemma_option_rest(after_comma);
        if let Some((_, rest)) = spec_parse_option(after_comma) {
            lemma_more_options_rest(rest);
            lemma_rest_in_line_trans(after_comma, rest, spec_parse_more_options(rest).1);
            lemma_rest_in_line_trans(s, after_comma, spec_parse_more_options(rest).1);
        }
    }
}

/// A tag list stays within the line.
pub proof fn lemma_options_rest(s: Seq<char>)
    ensures
        spec_parse_options(s) matches Some((_, rest)) ==> rest_in_line(s, rest),
{
    reveal_strlit("[");
    reveal_strlit("]");
    lemma_strip_prefix_rest(s, "["@);
    if let Some(inside) = strip_prefix(s, "["@) {
        let end = spec_parse_option_list(inside).1;
        lemma_option_rest(inside);
        lemma_rest_in_line_refl(inside);
        if let Some((_, rest)) = spec_parse_option(inside) {
            lemma_more_options_rest(rest);
            lemma_rest_in_line_trans(inside, rest, end);
        }
        lemma_strip_prefix_rest(end, "]"@);
        if let Some(rest) = strip_prefix(end, "]"@) {
            lemma_rest_in_line_trans(inside, end, rest);
            lemma_rest_in_line_trans(s, inside, rest);
        }
    }
}

/// An action stays within the line.
pub proof fn lemma_action_rest(options: Seq<OptionView>, s: Seq<char>)
    ensures
        spec_parse_action(options, s) matches Some((_, rest)) ==> rest_in_line(s, rest),
{
    lemma_prefix_lens(s);
}

/// A stage stays within the line.
pub proof fn lemma_stage_rest(s: Seq<char>)
    ensures
        spec_parse_stage(s) matches Some((_, rest)) ==> rest_in_line(s, rest),
{
    let start = skip_blanks(s);
    lemma_skip_blanks_rest(s);
    if "["@.is_prefix_of(start) {
        lemma_options_rest(start);
        if let Some((options, rest)) = spec_parse_options(start) {
            let t = skip_blanks(rest);
            lemma_skip_blanks_rest(rest);
            lemma_action_rest(options, t);
            if let Some((_, end)) = spec_parse_action(options, t) {
                lemma_rest_in_line_trans(rest, t, end);
                lemma_rest_in_line_trans(start, rest, end);
                lemma_rest_in_line_trans(s, start, end);
            }
        }
    } else {
        lemma_action_rest(Seq::empty(), start);
        if let Some((_, end)) = spec_parse_action(Seq::empty(), start) {
            lemma_rest_in_line_trans(s, start, end);
        }
    }
}

/// A line never reads past a line feed: what follows it is the end of the
/// text it was read from, and nothing before that is a line feed.
pub proof fn lemma_line_rest(s: Seq<char>)
    ensures
        spec_parse_line(s) matches Some((_, rest)) ==> rest_in_line(s, rest),
{
    let start = skip_blanks(s);
    lemma_skip_blanks_rest(s);
    reveal_strlit("---");
    lemma_strip_prefix_rest(start, "---"@);
    if let Some(rest) = strip_prefix(start, "---"@) {
        lemma_rest_in_line_trans(s, start, rest);
    } else {
        lemma_stage_rest(s);
    }
}

/// The number of characters of `s` before its first line feed, or the
/// length of `s` if it has none.
pub open spec fn first_line_len(s: Seq<char>) -> nat
    decreases s.len(),
{
    if s.len() > 0 && s[0] != '\n' {
        1 + first_line_len(s.skip(1))
    } else {
        0
    }
}

/// The first line of `s`: its text up to the first line feed.
pub open spec fn first_line(s: Seq<char>) -> Seq<char> {
    s.take(first_line_len(s) as int)
}

/// A line of `s` starts at `p`: at the start of the text or right after a line
/// feed.
pub open spec fn is_line_start(s: Seq<char>, p: int) -> bool {
    0 <= p <= s.len() && (p == 0 || s[p - 1] == '\n')
}

/// The first line of `s` opens a tag list after its leading blanks and never
/// closes it.
pub open spec fn unterminated_bracket(s: Seq<char>) -> bool {
    "["@.is_prefix_of(skip_blanks(s)) && !first_line(skip_blanks(s)).contains(']')
}

/// The first line ends within the text, holds no line feed, and is followed
/// by one unless it ends the text.
pub proof fn lemma_first_line_len(s: Seq<char>)
    ensures
        first_line_len(s) <= s.len(),
        forall|i: int| 0 <= i < first_line_len(s) ==> #[trigger] s[i] != '\n',
        first_line_len(s) < s.len() ==> s[first_line_len(s) as int] == '\n',
    decreases s.len(),
{
    if s.len() > 0 && s[0] != '\n' {
        let t = s.skip(1);
        lemma_first_line_len(t);
        assert forall|i: int| 0 <= i < first_line_len(s) implies #[trigger] s[i] != '\n' by {
            if i > 0 {
                assert(s[i] == t[i - 1]);
            }
        }
        if first_line_len(s) < s.len() {
            assert(s[first_line_len(s) as int] == t[first_line_len(t) as int]);
        }
    }
}

/// A line whose tag list is not closed is no line.
pub proof fn lemma_unterminated_bracket_line(s: Seq<char>)
    requires
        unterminated_bracket(s),
    ensures
        spec_parse_line(s) is None,
{
    let start = skip_blanks(s);
    reveal_strlit("[");
    reveal_strlit("]");
    reveal_strlit("---");
    assert(start[0] == '[') by {
        assert(start.subrange(0, 1)[0] == '[');
    }
    assert(!"---"@.is_prefix_of(start)) by {
        if "---"@.is_prefix_of(start) {
            assert(start.subrange(0, 3)[0] == '-');
        }
    }
    let inside = start.skip(1);
    let end = spec_parse_option_list(inside).1;
    assert(rest_in_line(inside, end)) by {
        lemma_rest_in_line_refl(inside);
        lemma_option_rest(inside);
        if let Some((_, rest)) = spec_parse_option(inside) {
            lemma_more_options_rest(rest);
            lemma_rest_in_line_trans(inside, rest, end);
        }
    }
    if "]"@.is_prefix_of(end) {
        let k = inside.len() - end.len();
        assert(end.subrange(0, 1)[0] == ']');
        assert(end[0] == inside[k]);
        assert(start[k + 1] == ']');
        lemma_first_line_len(start);
        assert forall|i: int| 0 <= i <= k + 1 implies start[i] != '\n' by {
            if 0 < i <= k {
                assert(start[i] == inside[i - 1]);
            }
        }
        assert(first_line_len(start) > k + 1);
        assert(first_line(start)[k + 1] == ']');
        assert(first_line(start).contains(']'));
    }
}

/// From a line start `p` of `s` at which an unclosed tag list stands, the
/// lines of `s` cannot be read to the end of the text.
proof fn lemma_unterminated_bracket_stops(s: Seq<char>, p: int)
    requires
        is_line_start(s, p),
        unterminated_bracket(s.skip(p)),
    ensures
        spec_parse_quest(s) matches Ok((_, rest)) ==> rest.len() > 0,
    decreases s.len(),
{
    if p == 0 {
        assert(s.skip(0) == s);
        lemma_unterminated_bracket_line(s);
    } else if let Some((_, rest)) = spec_parse_line(s) {
        lemma_line_rest(s);
        let k = s.len() - rest.len();
        assert(k <= p - 1);
        if let Some(next) = strip_newline(rest) {
            let q = p - (k + 1);
            assert(next == s.skip(k + 1));
            assert(next.skip(q) == s.skip(p));
            if q > 0 {
                assert(next[q - 1] == s[p - 1]);
            }
            lemma_unterminated_bracket_stops(next, q);
        }
    }
}

/// A text in which some line opens a tag list, after optional blanks, and
/// does not close it is no quest, whatever its other lines are.
pub proof fn lemma_unterminated_bracket_fails(s: Seq<char>, p: int)
    requires
        is_line_start(s, p),
        unterminated_bracket(s.skip(p)),
    ensures
        spec_parse(s) is Err,
{
    lemma_unterminated_bracket_stops(s, p);
}

/// The number of line feeds in `s`.
pub open spec fn count_line_feeds(s: Seq<char>) -> nat
    decreases s.len(),
{
    if s.len() == 0 {
        0
    } else if s[0] == '\n' {
        1 + count_line_feeds(s.skip(1))
    } else {
        count_line_feeds(s.skip(1))
    }
}

/// What a rule leaves within the line holds as many line feeds as the text
/// it read from.
proof fn lemma_rest_keeps_line_feeds(s: Seq<char>, rest: Seq<char>)
    requires
        rest_in_line(s, rest),
    ensures
        count_line_feeds(rest) == count_line_feeds(s),
    decreases s.len(),
{
    if rest.len() < s.len() {
        let t = s.skip(1);
        assert(s[0] != '\n');
        assert(t.skip(t.len() - rest.len()) == s.skip(s.len() - rest.len()));
        assert forall|i: int| 0 <= i < t.len() - rest.len() implies t[i] != '\n' by {
            assert(t[i] == s[i + 1]);
        }
        lemma_rest_keeps_line_feeds(t, rest);
    } else {
        assert(s.skip(0) == s);
    }
}

/// The lines read from `s` are one more than the line feeds between them:
/// those of `s` that are not left over.
proof fn lemma_lines_read(s: Seq<char>)
    ensures
        spec_parse_quest(s) matches Ok((lines, rest)) ==> lines.len() + count_line_feeds(rest)
            == count_line_feeds(s) + 1,
    decreases s.len(),
{
    if let Some((_, rest)) = spec_parse_line(s) {
        lemma_line_rest(s);
        lemma_rest_keeps_line_feeds(s, rest);
        if let Some(next) = strip_newline(rest) {
            lemma_lines_read(next);
        }
    }
}

/// A quest has one line per line of its text: one more than the text has
/// line feeds. Blank lines count, and so does the empty line after a final
/// line feed.
pub proof fn lemma_one_line_per_text_line(s: Seq<char>)
    ensures
        spec_parse(s) matches Ok(lines) ==> lines.len() == count_line_feeds(s) + 1,
{
    lemma_lines_read(s);
}

} // verus!
