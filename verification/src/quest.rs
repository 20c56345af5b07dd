//! Rendering a quest as an HTML fragment: one block per line, joined by line
//! feeds.
//!
//! A stage is shown with its tags and its action. Blocks from the first marker
//! on, that marker's own included, are shown as lying ahead; a stage with a
//! boss or miniboss tag is shown as important. What the fragment is, is fixed
//! in [`crate::render`].

use crate::grammar::spec_parse;
use crate::parser::{parse, Line, Option as QuestOption, Options, ParseError, Stage};
use crate::render::{
    block_open, blocks, glyph, here_html, is_boss_tag, is_important, join, marker_class,
    options_html, past_marker, render, stage_class, stage_html, symbol, symbols,
};
use vstd::prelude::*;

verus! {

/// The texts that a vector of strings holds.
pub open spec fn texts(parts: Seq<String>) -> Seq<Seq<char>> {
    Seq::new(parts.len(), |i: int| parts[i]@)
}

/// Joins `parts` in their order, with `separator` between each two
/// neighbours.
pub fn join_parts(parts: &Vec<String>, separator: &str) -> (joined: String)
    ensures
        joined@ == join(texts(parts@), separator@),
{
    let mut joined = String::new();
    let mut i: usize = 0;
    while i < parts.len()
        invariant
            i <= parts.len(),
            joined@ == join(texts(parts@).take(i as int), separator@),
        decreases parts.len() - i,
    {
        if i > 0 {
            joined.append(separator);
        }
        joined.append(parts[i].as_str());
        proof {
            let all = texts(parts@);
            assert(all.take(i + 1).drop_last() =~= all.take(i as int));
            assert(all.take(i + 1).last() == parts[i as int]@);
        }
        i += 1;
    }
    assert(texts(parts@).take(i as int) =~= texts(parts@));
    joined
}

/// The glyph of a known tag; `None` for a custom tag.
pub fn encode(option: &QuestOption) -> (r: Option<String>)
    ensures
        match glyph(option@) {
            Some(g) => r matches Some(s) && s@ == g,
            None => r is None,
        },
{
    match option {
        QuestOption::Event => Some("&#x2139;&#xFE0F".to_owned()),
        QuestOption::Boss => Some("&#x1F3C1".to_owned()),
        QuestOption::Miniboss => Some("&#x1F47E".to_owned()),
        QuestOption::Other(_) => None,
    }
}

/// The symbol of a tag as HTML. The label of a custom tag is not escaped.
pub fn image_tag(option: &QuestOption) -> (html: String)
    ensures
        html@ == symbol(option@),
{
    match encode(option) {
        Some(emoji) => {
            let mut html = "<span class=\"quest-image\">".to_owned();
            html.append(emoji.as_str());
            html.append("</span>");
            html
        },
        None => {
            let mut html = "<em class=\"quest-other\">".to_owned();
            if let QuestOption::Other(plain) = option {
                html.append(plain.as_str());
            }
            html.append("</em>");
            html
        },
    }
}

/// The tags of a stage as HTML: the symbols in the order of the tags, in one
/// container; nothing at all for a stage without tags.
pub fn html_options(options: &Options) -> (html: String)
    ensures
        html@ == options_html(options@),
        options@.len() == 0 <==> html@.len() == 0,
{
    let mut images: Vec<String> = Vec::new();
    let mut i: usize = 0;
    while i < options.options.len()
        invariant
            i <= options.options.len(),
            texts(images@) == symbols(options@).take(i as int),
        decreases options.options.len() - i,
    {
        let image = image_tag(&options.options[i]);
        assert(texts(images@.push(image)) =~= symbols(options@).take(i as int).push(image@));
        assert(symbols(options@).take(i + 1) =~= symbols(options@).take(i as int).push(image@));
        images.push(image);
        i += 1;
    }
    assert(symbols(options@).take(i as int) =~= symbols(options@));
    let concatenated = join_parts(&images, "&nbsp;");
    if images.len() == 0 {
        concatenated
    } else {
        let mut html = "<div class=\"quest-options\">".to_owned();
        html.append(concatenated.as_str());
        html.append("</div>");
        proof {
            reveal_strlit("</div>");
        }
        html
    }
}

/// Whether the tag list holds a boss or a miniboss tag.
pub fn important(options: &Options) -> (b: bool)
    ensures
        b == is_important(options@),
{
    let mut i: usize = 0;
    while i < options.options.len()
        invariant
            i <= options.options.len(),
            forall|j: int| 0 <= j < i ==> !is_boss_tag(#[trigger] options@[j]),
        decreases options.options.len() - i,
    {
        match &options.options[i] {
            QuestOption::Boss | QuestOption::Miniboss => {
                assert(is_boss_tag(options@[i as int]));
                return true;
            },
            _ => {},
        }
        i += 1;
    }
    false
}

/// The block of a stage. `is_future` says whether the stage stands after
/// the first marker; its class then carries the qualifier `future`.
pub fn html_stage(stage: Stage, is_future: bool) -> (html: String)
    ensures
        html@ == stage_html(stage@, is_future),
{
    let action_class = if important(&stage.options) {
        "quest-action quest-important"
    } else {
        "quest-action"
    };
    let mut html = "\n<div class=\"".to_owned();
    html.append("stage");
    if is_future {
        html.append(" future");
    }
    html.append("\">");
    assert(html@ == block_open(stage_class(is_future)));
    html.append("\n    ");
    html.append(html_options(&stage.options).as_str());
    html.append("\n    <span class=\"");
    html.append(action_class);
    html.append("\">");
    html.append(stage.action.as_str());
    html.append("</span>\n</div>");
    html
}

/// The block of a marker. Its class carries the qualifier `future`, as that
/// of every block from the first marker on.
pub fn here_stage() -> (html: String)
    ensures
        html@ == here_html(),
{
    let mut html = "\n<div class=\"".to_owned();
    html.append("stage-now");
    html.append(" future");
    html.append("\">");
    assert(html@ == block_open(marker_class()));
    html.append("\n    YOU ARE HERE\n</div>");
    html
}

/// `r` is what generating from `text` gives: the rendering of the quest that
/// `text` is, or the reason why it is none.
pub open spec fn generated(text: Seq<char>, r: Result<String, ParseError>) -> bool {
    match spec_parse(text) {
        Ok(lines) => r matches Ok(html) && html@ == render(lines),
        Err(e) => r matches Err(x) && x@ == e,
    }
}

/// Reads a quest from text and renders it as HTML. Fails, with nothing
/// rendered, exactly where the text is not a quest.
pub fn generate(quest_string: &str) -> (r: Result<String, ParseError>)
    ensures
        generated(quest_string@, r),
{
    let quest = match parse(quest_string.to_owned()) {
        Ok(quest) => quest,
        Err(e) => { return Err(e); },
    };
    let ghost lines = quest@;
    let mut output: Vec<String> = Vec::new();
    let mut is_future: bool = false;
    for line in iter: quest.lines
        invariant
            iter.seq().len() == lines.len(),
            forall|j: int| 0 <= j < lines.len() ==> (#[trigger] iter.seq()[j])@ == lines[j],
            texts(output@) == blocks(lines).take(iter.index() as int),
            is_future == past_marker(lines, iter.index() - 1),
    {
        let ghost i = iter.index() as int;
        assert(line@ == lines[i]);
        if let Line::Now = line {
            is_future = true;
        }
        assert(is_future == past_marker(lines, i)) by {
            if past_marker(lines, i - 1) {
                let j = choose|j: int| 0 <= j <= i - 1 && j < lines.len() && #[trigger] lines[j] is Now;
                assert(0 <= j <= i && lines[j] is Now);
            }
            if past_marker(lines, i) && !past_marker(lines, i - 1) {
                let j = choose|j: int| 0 <= j <= i && j < lines.len() && #[trigger] lines[j] is Now;
                if j < i {
                    assert(0 <= j <= i - 1 && lines[j] is Now);
                }
            }
        }
        let html_code = match line {
            Line::Now => here_stage(),
            Line::Stage(stage) => html_stage(stage, is_future),
        };
        assert(texts(output@.push(html_code)) =~= blocks(lines).take(i).push(html_code@));
        assert(blocks(lines).take(i + 1) =~= blocks(lines).take(i).push(html_code@));
        output.push(html_code);
    }
    assert(blocks(lines).take(lines.len() as int) =~= blocks(lines));
    Ok(join_parts(&output, "\n"))
}

/// Generating is a function of the text: two results for the same text are
/// both renderings and hold the same characters, or are both the same error.
pub proof fn lemma_generate_twice(
    text: Seq<char>,
    first: Result<String, ParseError>,
    second: Result<String, ParseError>,
)
    requires
        generated(text, first),
        generated(text, second),
    ensures
        match (first, second) {
            (Ok(a), Ok(b)) => a@ == b@,
            (Err(a), Err(b)) => a@ == b@,
            _ => false,
        },
{
}

} // verus!
