use quest_log::parser::{Line, Option as QuestOption, Options, ParseError, Stage};
use quest_log::quest::{
    encode, generate, here_stage, html_options, html_stage, image_tag, important, join_parts,
};

const SAMPLE1: &str = r"first
[event] second
 ---
  third
[event,boss] third";

fn options(options: Vec<QuestOption>) -> Options {
    Options { options }
}

fn stage(action: &str, tags: Vec<QuestOption>) -> Stage {
    Stage {
        action: action.to_string(),
        options: options(tags),
    }
}

#[test]
fn test_simple() {
    let out = generate(SAMPLE1);
    assert!(out.is_ok());
}

#[test]
fn test_one_option() {
    let out = generate(SAMPLE1).unwrap();
    assert_eq!(out.matches(r#"<div class="stage">"#).count(), 2);
    assert_eq!(out.matches(r#"<div class="stage future">"#).count(), 2);
    assert!(out.find(r#"<span class="quest-image">&#x2139;&#xFE0F</span>&nbsp;<span class="quest-image">&#x1F3C1</span>"#).is_some());
}

#[test]
fn test_other_option() {
    let out = generate("[event,unknown] fifth").unwrap();
    assert_eq!(out.matches(r#"<div class="stage">"#).count(), 1);
    assert!(out.find(r#"<span class="quest-image">&#x2139;&#xFE0F</span>&nbsp;<em class="quest-other">unknown</em>"#).is_some());
}

#[test]
fn sample_renders_five_blocks() {
    let out = generate(SAMPLE1).unwrap();
    let expected = r#"
<div class="stage">
    
    <span class="quest-action">first</span>
</div>

<div class="stage">
    <div class="quest-options"><span class="quest-image">&#x2139;&#xFE0F</span></div>
    <span class="quest-action">second</span>
</div>

<div class="stage-now future">
    YOU ARE HERE
</div>

<div class="stage future">
    
    <span class="quest-action">third</span>
</div>

<div class="stage future">
    <div class="quest-options"><span class="quest-image">&#x2139;&#xFE0F</span>&nbsp;<span class="quest-image">&#x1F3C1</span></div>
    <span class="quest-action quest-important">third</span>
</div>"#;
    assert_eq!(out, expected);
}

#[test]
fn unknown_then_boss_renders_label_and_glyph() {
    let out = generate("[unknown,boss] Foo bar").unwrap();
    let expected = r#"
<div class="stage">
    <div class="quest-options"><em class="quest-other">unknown</em>&nbsp;<span class="quest-image">&#x1F3C1</span></div>
    <span class="quest-action quest-important">Foo bar</span>
</div>"#;
    assert_eq!(out, expected);
}

#[test]
fn generate_twice_gives_the_same_text() {
    assert_eq!(generate(SAMPLE1), generate(SAMPLE1));
    assert_eq!(generate("[event second"), generate("[event second"));
}

#[test]
fn generate_fails_on_unterminated_bracket() {
    assert_eq!(generate("[event second"), Err(ParseError::GrammarMismatch));
    assert_eq!(
        generate("fine\n[event second\nfine"),
        Err(ParseError::GrammarMismatch)
    );
}

#[test]
fn generate_fails_on_text_that_is_left_over() {
    assert_eq!(
        generate("---now"),
        Err(ParseError::TrailingInput("now".to_string()))
    );
}

#[test]
fn empty_text_renders_one_empty_stage() {
    let out = generate("").unwrap();
    assert_eq!(
        out,
        "\n<div class=\"stage\">\n    \n    <span class=\"quest-action\"></span>\n</div>"
    );
}

#[test]
fn one_here_block_per_marker() {
    let out = generate("a\n---\nb\n---\nc").unwrap();
    assert_eq!(out.matches("YOU ARE HERE").count(), 2);
    assert_eq!(out.matches(r#"<div class="stage-now future">"#).count(), 2);
    assert_eq!(out.matches(r#"<div class="stage-now">"#).count(), 0);
    assert_eq!(out.matches("future").count(), 4);
    assert_eq!(out.matches(r#"<div class="stage">"#).count(), 1);
    assert_eq!(out.matches(r#"<div class="stage future">"#).count(), 2);
    let first_here = out.find("YOU ARE HERE").unwrap();
    assert!(out.find(r#"<div class="stage">"#).unwrap() < first_here);
    assert!(out.find(r#"<div class="stage future">"#).unwrap() > first_here);
}

#[test]
fn no_marker_means_no_future() {
    let out = generate("a\nb\nc").unwrap();
    assert_eq!(out.matches(r#"<div class="stage">"#).count(), 3);
    assert_eq!(out.matches("future").count(), 0);
    assert_eq!(out.matches("YOU ARE HERE").count(), 0);
}

#[test]
fn marker_first_makes_every_stage_future() {
    let out = generate("---\na\nb").unwrap();
    assert_eq!(out.matches(r#"<div class="stage">"#).count(), 0);
    assert_eq!(out.matches(r#"<div class="stage future">"#).count(), 2);
}

#[test]
fn glyphs_of_the_known_tags() {
    assert_eq!(encode(&QuestOption::Event), Some("&#x2139;&#xFE0F".to_string()));
    assert_eq!(encode(&QuestOption::Boss), Some("&#x1F3C1".to_string()));
    assert_eq!(encode(&QuestOption::Miniboss), Some("&#x1F47E".to_string()));
    assert_eq!(encode(&QuestOption::Other("boss".to_string())), None);
}

#[test]
fn symbols_of_tags() {
    assert_eq!(
        image_tag(&QuestOption::Event),
        r#"<span class="quest-image">&#x2139;&#xFE0F</span>"#
    );
    assert_eq!(
        image_tag(&QuestOption::Miniboss),
        r#"<span class="quest-image">&#x1F47E</span>"#
    );
    assert_eq!(
        image_tag(&QuestOption::Other("side<b>".to_string())),
        r#"<em class="quest-other">side<b></em>"#
    );
    assert_eq!(
        image_tag(&QuestOption::Other(String::new())),
        r#"<em class="quest-other"></em>"#
    );
}

#[test]
fn no_container_without_tags() {
    assert_eq!(html_options(&options(vec![])), "");
}

#[test]
fn container_holds_one_symbol_per_tag_in_order() {
    let html = html_options(&options(vec![
        QuestOption::Other("a".to_string()),
        QuestOption::Boss,
        QuestOption::Other("b".to_string()),
        QuestOption::Event,
        QuestOption::Boss,
    ]));
    assert_eq!(
        html,
        concat_all(&[
            r#"<div class="quest-options">"#,
            r#"<em class="quest-other">a</em>"#,
            "&nbsp;",
            r#"<span class="quest-image">&#x1F3C1</span>"#,
            "&nbsp;",
            r#"<em class="quest-other">b</em>"#,
            "&nbsp;",
            r#"<span class="quest-image">&#x2139;&#xFE0F</span>"#,
            "&nbsp;",
            r#"<span class="quest-image">&#x1F3C1</span>"#,
            "</div>",
        ])
    );
    assert_eq!(html.matches("quest-image").count(), 3);
    assert_eq!(html.matches("quest-other").count(), 2);
    assert_eq!(html.matches("&nbsp;").count(), 4);
}

fn concat_all(parts: &[&str]) -> String {
    let mut all = String::new();
    for part in parts {
        all.push_str(part);
    }
    all
}

#[test]
fn single_tag_has_no_separator() {
    assert_eq!(
        html_options(&options(vec![QuestOption::Miniboss])),
        r#"<div class="quest-options"><span class="quest-image">&#x1F47E</span></div>"#
    );
}

#[test]
fn boss_and_miniboss_make_a_stage_important() {
    assert!(important(&options(vec![QuestOption::Boss])));
    assert!(important(&options(vec![QuestOption::Miniboss])));
    assert!(important(&options(vec![
        QuestOption::Event,
        QuestOption::Other("x".to_string()),
        QuestOption::Miniboss,
    ])));
    assert!(!important(&options(vec![])));
    assert!(!important(&options(vec![QuestOption::Event])));
    assert!(!important(&options(vec![QuestOption::Other("boss".to_string())])));
    assert!(!important(&options(vec![
        QuestOption::Event,
        QuestOption::Other("miniboss".to_string()),
        QuestOption::Event,
    ])));
}

#[test]
fn stage_blocks() {
    assert_eq!(
        html_stage(stage("walk", vec![]), false),
        "\n<div class=\"stage\">\n    \n    <span class=\"quest-action\">walk</span>\n</div>"
    );
    assert_eq!(
        html_stage(stage("walk", vec![QuestOption::Event]), true),
        concat_all(&[
            "\n<div class=\"stage future\">\n    ",
            r#"<div class="quest-options"><span class="quest-image">&#x2139;&#xFE0F</span></div>"#,
            "\n    <span class=\"quest-action\">walk</span>\n</div>",
        ])
    );
    assert_eq!(
        html_stage(stage("fight & win", vec![QuestOption::Miniboss]), false),
        concat_all(&[
            "\n<div class=\"stage\">\n    ",
            r#"<div class="quest-options"><span class="quest-image">&#x1F47E</span></div>"#,
            "\n    <span class=\"quest-action quest-important\">fight & win</span>\n</div>",
        ])
    );
}

#[test]
fn marker_block() {
    assert_eq!(
        here_stage(),
        "\n<div class=\"stage-now future\">\n    YOU ARE HERE\n</div>"
    );
}

#[test]
fn marker_block_carries_the_future_qualifier() {
    assert_eq!(
        generate("---"),
        Ok("\n<div class=\"stage-now future\">\n    YOU ARE HERE\n</div>".to_string())
    );
    let out = generate("a\n ---\nb").unwrap();
    assert_eq!(
        out,
        concat_all(&[
            "\n<div class=\"stage\">\n    \n    <span class=\"quest-action\">a</span>\n</div>",
            "\n",
            "\n<div class=\"stage-now future\">\n    YOU ARE HERE\n</div>",
            "\n",
            "\n<div class=\"stage future\">\n    \n    <span class=\"quest-action\">b</span>\n</div>",
        ])
    );
}

#[test]
fn trailing_blanks_do_not_reach_the_page() {
    assert_eq!(
        generate("  foo, bar!  "),
        Ok("\n<div class=\"stage\">\n    \n    <span class=\"quest-action\">foo, bar!</span>\n</div>".to_string())
    );
}

#[test]
fn joining_parts() {
    assert_eq!(join_parts(&vec![], ", "), "");
    assert_eq!(join_parts(&vec!["a".to_string()], ", "), "a");
    assert_eq!(
        join_parts(
            &vec!["a".to_string(), String::new(), "c".to_string()],
            ", "
        ),
        "a, , c"
    );
}

#[test]
fn lines_are_values() {
    let line = Line::Stage(stage("a", vec![QuestOption::Event]));
    assert_eq!(line.clone(), line);
    assert_ne!(line, Line::Now);
}
