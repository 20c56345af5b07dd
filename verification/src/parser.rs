//! The quest document and the parser that reads it from text.
//!
//! Each parsing function takes the text that is still to be read and returns
//! what it recognised together with the text that follows. What it recognises
//! is fixed by the rule of the same name in [`crate::grammar`].

use crate::grammar::{
    after_lines, lemma_line_rest, lemma_option_rest, lemma_strip_prefix_rest, spec_parse,
    spec_parse_line, spec_parse_more_options, spec_parse_option, spec_parse_option_list,
    spec_parse_options, spec_parse_other_option, spec_parse_quest, spec_parse_stage, LineView,
    OptionView, ParseErrorView, StageView,
};
use crate::tokens::{
    take_identifier, take_line, take_literal, take_newline, trim_blanks, trim_trailing_blanks,
};
use vstd::prelude::*;

verus! {

/// A tag attached to a stage.
#[derive(Debug, Clone, PartialEq)]
pub enum Option {
    Event,
    Miniboss,
    Boss,
    Other(String),
}

/// The tags of a stage, in the order in which they were written.
#[derive(Debug, Clone, PartialEq)]
pub struct Options {
    pub options: Vec<Option>,
}

/// One step of a quest: what is to be done, and its tags.
#[derive(Debug, Clone, PartialEq)]
pub struct Stage {
    pub action: String,
    pub options: Options,
}

/// A line of a quest: a stage, or the marker of the current position.
#[derive(Debug, Clone, PartialEq)]
pub enum Line {
    Stage(Stage),
    Now,
}

/// A quest: its lines in the order of the text.
#[derive(Debug, Clone, PartialEq)]
pub struct Quest {
    pub lines: Vec<Line>,
}

/// Why a text could not be read as a quest.
#[derive(Debug, Clone, PartialEq)]
pub enum ParseError {
    /// A line is neither a marker nor a stage, for instance because its tag
    /// list is not closed.
    GrammarMismatch,
    /// The lines end before the text does. Holds the text that is left over.
    TrailingInput(String),
}

impl View for Option {
    type V = OptionView;

    open spec fn view(&self) -> OptionView {
        match self {
            Option::Event => OptionView::Event,
            Option::Miniboss => OptionView::Miniboss,
            Option::Boss => OptionView::Boss,
            Option::Other(label) => OptionView::Other(label@),
        }
    }
}

/// The tags that a vector of tags stands for.
pub open spec fn options_view(options: Seq<Option>) -> Seq<OptionView> {
    Seq::new(options.len(), |i: int| options[i]@)
}

/// The lines that a vector of lines stands for.
pub open spec fn lines_view(lines: Seq<Line>) -> Seq<LineView> {
    Seq::new(lines.len(), |i: int| lines[i]@)
}

impl View for Options {
    type V = Seq<OptionView>;

    open spec fn view(&self) -> Seq<OptionView> {
        options_view(self.options@)
    }
}

impl View for Stage {
    type V = StageView;

    open spec fn view(&self) -> StageView {
        StageView { action: self.action@, options: self.options@ }
    }
}

impl View for Line {
    type V = LineView;

    open spec fn view(&self) -> LineView {
        match self {
            Line::Stage(stage) => LineView::Stage(stage@),
            Line::Now => LineView::Now,
        }
    }
}

impl View for Quest {
    type V = Seq<LineView>;

    open spec fn view(&self) -> Seq<LineView> {
        lines_view(self.lines@)
    }
}

impl View for ParseError {
    type V = ParseErrorView;

    open spec fn view(&self) -> ParseErrorView {
        match self {
            ParseError::GrammarMismatch => ParseErrorView::GrammarMismatch,
            ParseError::TrailingInput(rest) => ParseErrorView::TrailingInput(rest@),
        }
    }
}

impl ParseError {
    /// The error as a sentence. For text that was left over it names that
    /// text.
    pub fn message(&self) -> (text: String)
        ensures
            text@ == match self@ {
                ParseErrorView::GrammarMismatch => "Parse failed: a line is neither a marker nor a stage"@,
                ParseErrorView::TrailingInput(rest) => "Parse failed with remaining "@ + rest,
            },
    {
        match self {
            ParseError::GrammarMismatch => {
                "Parse failed: a line is neither a marker nor a stage".to_owned()
            },
            ParseError::TrailingInput(rest) => {
                let mut text = "Parse failed with remaining ".to_owned();
                text.append(rest.as_str());
                text
            },
        }
    }
}

/// The result `r` of a parsing function is what the grammar rule gives:
/// where the rule recognises `value` and leaves `rest`, `r` holds both; where
/// the rule does not apply, `r` is a grammar mismatch.
pub open spec fn parsed_as<T: View>(
    r: Result<(&str, T), ParseError>,
    rule: core::option::Option<(T::V, Seq<char>)>,
) -> bool {
    match rule {
        Some((value, rest)) => r matches Ok((remaining, parsed)) && remaining@ == rest && parsed@
            == value,
        None => r matches Err(e) && e@ == ParseErrorView::GrammarMismatch,
    }
}

/// Reads a custom tag: an identifier of ASCII letters and digits, kept as the
/// label whatever it says.
pub fn parse_other_option<'a>(input: &'a str) -> (r: Result<(&'a str, Option), ParseError>)
    ensures
        parsed_as(r, spec_parse_other_option(input@)),
{
    match take_identifier(input) {
        Some((rest, name)) => Ok((rest, Option::Other(name.to_owned()))),
        None => Err(ParseError::GrammarMismatch),
    }
}

/// Whether `text` is exactly the literal `t`.
fn is_literal(text: &str, t: &str) -> (b: bool)
    ensures
        b == (text@ == t@),
{
    match take_literal(text, t) {
        Some(rest) => {
            assert(t@.subrange(0, t@.len() as int) == t@);
            if rest.is_empty() {
                assert(text@.subrange(0, t@.len() as int) == text@);
                true
            } else {
                false
            }
        },
        None => {
            assert(t@.subrange(0, t@.len() as int) == t@);
            false
        },
    }
}

/// Reads one tag: an identifier, which is a known tag where it is exactly
/// `event`, `boss` or `miniboss`, and a custom tag with that label otherwise.
pub fn parse_option<'a>(input: &'a str) -> (r: Result<(&'a str, Option), ParseError>)
    ensures
        parsed_as(r, spec_parse_option(input@)),
{
    let (rest, token) = match take_identifier(input) {
        Some(found) => found,
        None => { return Err(ParseError::GrammarMismatch); },
    };
    let option = if is_literal(token, "event") {
        Option::Event
    } else if is_literal(token, "boss") {
        Option::Boss
    } else if is_literal(token, "miniboss") {
        Option::Miniboss
    } else {
        Option::Other(token.to_owned())
    };
    Ok((rest, option))
}

/// Reads a tag list in square brackets.
pub fn parse_options<'a>(input: &'a str) -> (r: Result<(&'a str, Options), ParseError>)
    ensures
        parsed_as(r, spec_parse_options(input@)),
{
    let inside = match take_literal(input, "[") {
        Some(inside) => inside,
        None => { return Err(ParseError::GrammarMismatch); },
    };
    let mut options: Vec<Option> = Vec::new();
    let mut rest = inside;
    assert(options_view(options@) =~= Seq::<OptionView>::empty());
    if let Ok((after, option)) = parse_option(inside) {
        options.push(option);
        rest = after;
        assert(options_view(options@) =~= seq![option@]);
        loop
            invariant
                spec_parse_option_list(inside@).0 == options_view(options@)
                    + spec_parse_more_options(rest@).0,
                spec_parse_option_list(inside@).1 == spec_parse_more_options(rest@).1,
            ensures
                spec_parse_option_list(inside@).0 == options_view(options@),
                spec_parse_option_list(inside@).1 == rest@,
            decreases rest@.len(),
        {
            let after_comma = match take_literal(rest, ",") {
                Some(after_comma) => after_comma,
                None => { break ; },
            };
            let (after, option) = match parse_option(after_comma) {
                Ok(parsed) => parsed,
                Err(_) => { break ; },
            };
            proof {
                reveal_strlit(",");
                lemma_strip_prefix_rest(rest@, ","@);
                lemma_option_rest(after_comma@);
                assert(options_view(options@.push(option)) =~= options_view(options@) + seq![
                    option@,
                ]);
                assert((options_view(options@) + seq![option@]) + spec_parse_more_options(
                    after@,
                ).0 =~= options_view(options@) + (seq![option@] + spec_parse_more_options(
                    after@,
                ).0));
            }
            options.push(option);
            rest = after;
        }
    }
    match take_literal(rest, "]") {
        Some(after) => Ok((after, Options { options })),
        None => Err(ParseError::GrammarMismatch),
    }
}

/// Reads a stage line: an optional tag list, then the action up to the end
/// of the line. Blanks before the tag list and around the action are dropped.
pub fn parse_stage<'a>(input: &'a str) -> (r: Result<(&'a str, Stage), ParseError>)
    ensures
        parsed_as(r, spec_parse_stage(input@)),
{
    let start = trim_blanks(input);
    let (text, options) = match take_literal(start, "[") {
        Some(_) => match parse_options(start) {
            Ok((rest, options)) => (trim_blanks(rest), options),
            Err(e) => { return Err(e); },
        },
        None => (start, Options { options: Vec::new() }),
    };
    assert(options_view(Seq::<Option>::empty()) =~= Seq::<OptionView>::empty());
    match take_line(text) {
        Some((rest, action)) => {
            let action = trim_trailing_blanks(action).to_owned();
            Ok((rest, Stage { action, options }))
        },
        None => Err(ParseError::GrammarMismatch),
    }
}

/// Reads a line: the marker of the current position, or a stage.
pub fn parse_line<'a>(input: &'a str) -> (r: Result<(&'a str, Line), ParseError>)
    ensures
        parsed_as(r, spec_parse_line(input@)),
{
    match take_literal(trim_blanks(input), "---") {
        Some(rest) => Ok((rest, Line::Now)),
        None => match parse_stage(input) {
            Ok((rest, stage)) => Ok((rest, Line::Stage(stage))),
            Err(e) => Err(e),
        },
    }
}

/// Reads lines separated by line feeds for as long as a line feed follows the
/// line just read; returns them with the text that is left. Fails where a line
/// is neither a marker nor a stage.
pub fn parse_quest<'a>(input: &'a str) -> (r: Result<(&'a str, Quest), ParseError>)
    ensures
        match spec_parse_quest(input@) {
            Ok((lines, rest)) => r matches Ok((remaining, quest)) && remaining@ == rest && quest@
                == lines,
            Err(e) => r matches Err(x) && x@ == e,
        },
{
    let mut lines: Vec<Line> = Vec::new();
    let mut text = input;
    assert(lines_view(lines@) =~= Seq::<LineView>::empty());
    loop
        invariant
            spec_parse_quest(input@) == after_lines(lines_view(lines@), spec_parse_quest(text@)),
        decreases text@.len(),
    {
        let (rest, line) = match parse_line(text) {
            Ok(parsed) => parsed,
            Err(e) => { return Err(e); },
        };
        let ghost before = lines_view(lines@);
        proof {
            lemma_line_rest(text@);
            assert(lines_view(lines@.push(line)) =~= before + seq![line@]);
        }
        lines.push(line);
        match take_newline(rest) {
            Some(next) => {
                proof {
                    if let Ok((more, end)) = spec_parse_quest(next@) {
                        assert((before + seq![line@]) + more =~= before + (seq![line@] + more));
                    }
                }
                text = next;
            },
            None => { return Ok((rest, Quest { lines })); },
        }
    }
}

/// Reads a whole quest. Fails where a line is neither a marker nor a stage,
/// and where text is left after the last line that could be read.
pub fn parse(quest_string: String) -> (r: Result<Quest, ParseError>)
    ensures
        match spec_parse(quest_string@) {
            Ok(lines) => r matches Ok(quest) && quest@ == lines,
            Err(e) => r matches Err(x) && x@ == e,
        },
{
    match parse_quest(quest_string.as_str()) {
        Ok((rest, quest)) => {
            if rest.is_empty() {
                Ok(quest)
            } else {
                Err(ParseError::TrailingInput(rest.to_owned()))
            }
        },
        Err(e) => Err(e),
    }
}

} // verus!
