use quest_log::parser::{
    parse, parse_line, parse_option, parse_options, parse_other_option, parse_quest, parse_stage,
    Line, Option, Options, ParseError, Quest, Stage,
};

const SAMPLE1: &str = r"first
[event] second
 ---
  third
[event,boss] third";

fn stage(action: &str, options: Vec<Option>) -> Line {
    Line::Stage(Stage {
        action: action.to_string(),
        options: Options { options },
    })
}

#[test]
fn test_parse_one() {
    let (remaining, line) = parse_line("[event] Foo bar".into()).expect("parsed");
    assert_eq!(remaining.len(), 0);
    match line {
        Line::Stage(stage) => {
            assert_eq!(stage.action, "Foo bar");
            assert_eq!(
                stage.options,
                Options {
                    options: vec![Option::Event]
                }
            );
        }
        _ => assert!(false),
    };
}

#[test]
fn test_parse_no_option() {
    let (remaining, line) = parse_line("Foo bar".into()).expect("parsed");
    assert_eq!(remaining.len(), 0);
    match line {
        Line::Stage(stage) => {
            assert_eq!(stage.action, "Foo bar");
            assert_eq!(stage.options, Options { options: vec![] });
        }
        _ => assert!(false),
    };
}

#[test]
fn test_parse_now() {
    let (remaining, line) = parse_line("---".into()).expect("parsed");
    assert_eq!(remaining.len(), 0);
    if let Line::Now = line {
        assert!(true);
    } else {
        assert!(false);
    }
}

#[test]
fn test_parse_quest_one() {
    let (remaining, quest) = parse_quest("[event] Foo bar".into()).expect("parsed");
    assert_eq!(remaining.len(), 0);
    assert_eq!(quest.lines.len(), 1);
}

#[test]
fn test_parse_quest() {
    let (remaining, quest) = parse_quest(SAMPLE1.into()).expect("parsed");
    assert_eq!(remaining.len(), 0);
    println!("Quest {:?}", &quest);
    assert_eq!(quest.lines.len(), 5);
    if let Line::Stage(stage) = quest.lines.iter().nth(0).unwrap() {
        assert_eq!(
            *stage,
            Stage {
                action: "first".to_string(),
                options: Options { options: vec![] }
            }
        );
    } else {
        assert!(false);
    }
    if let Line::Now = quest.lines.iter().nth(2).unwrap() {
        assert!(true);
    } else {
        assert!(false);
    }
    if let Line::Stage(stage) = quest.lines.iter().nth(4).unwrap() {
        assert_eq!(
            *stage,
            Stage {
                action: "third".to_string(),
                options: Options {
                    options: vec![Option::Event, Option::Boss]
                }
            }
        );
    } else {
        assert!(false);
    }
}

#[test]
fn test_parse_unknown_option() {
    let (remaining, line) = parse_line("[unknown,boss] Foo bar".into()).expect("parsed");
    assert_eq!(remaining.len(), 0);
    match line {
        Line::Stage(stage) => {
            assert_eq!(stage.action, "Foo bar");
            assert_eq!(
                stage.options,
                Options {
                    options: vec![Option::Other("unknown".into()), Option::Boss]
                }
            );
        }
        _ => assert!(false),
    };
}

#[test]
fn sample_parses_to_five_lines_in_order() {
    let quest = parse(SAMPLE1.to_string()).expect("parsed");
    assert_eq!(
        quest,
        Quest {
            lines: vec![
                stage("first", vec![]),
                stage("second", vec![Option::Event]),
                Line::Now,
                stage("third", vec![]),
                stage("third", vec![Option::Event, Option::Boss]),
            ]
        }
    );
}

#[test]
fn empty_text_is_one_empty_stage() {
    let quest = parse(String::new()).expect("parsed");
    assert_eq!(quest, Quest { lines: vec![stage("", vec![])] });
}

#[test]
fn blank_lines_are_empty_stages() {
    let quest = parse("a\n\nb\n".to_string()).expect("parsed");
    assert_eq!(
        quest,
        Quest {
            lines: vec![
                stage("a", vec![]),
                stage("", vec![]),
                stage("b", vec![]),
                stage("", vec![]),
            ]
        }
    );
}

#[test]
fn blanks_around_the_action_are_dropped() {
    let (remaining, line) = parse_line(" \t [boss] \t go on  \nnext").expect("parsed");
    assert_eq!(remaining, "\nnext");
    assert_eq!(line, stage("go on", vec![Option::Boss]));
    let (remaining, line) = parse_line("walk \t \t").expect("parsed");
    assert_eq!(remaining, "");
    assert_eq!(line, stage("walk", vec![]));
    let (remaining, line) = parse_line("[event]  \t ").expect("parsed");
    assert_eq!(remaining, "");
    assert_eq!(line, stage("", vec![Option::Event]));
    let (remaining, line) = parse_line("one  \r\ntwo").expect("parsed");
    assert_eq!(remaining, "\r\ntwo");
    assert_eq!(line, stage("one", vec![]));
}

#[test]
fn action_is_kept_verbatim_between_its_ends() {
    assert_eq!(
        parse("  foo, bar!  ".to_string()),
        Ok(Quest { lines: vec![stage("foo, bar!", vec![])] })
    );
    assert_eq!(
        parse("a \t b  \n  c  d ".to_string()),
        Ok(Quest { lines: vec![stage("a \t b", vec![]), stage("c  d", vec![])] })
    );
}

#[test]
fn only_spaces_and_tabs_are_trimmed() {
    let (remaining, line) = parse_line("walk\u{a0} ").expect("parsed");
    assert_eq!(remaining, "");
    assert_eq!(line, stage("walk\u{a0}", vec![]));
    let (remaining, line) = parse_line("\u{a0}walk").expect("parsed");
    assert_eq!(remaining, "");
    assert_eq!(line, stage("\u{a0}walk", vec![]));
}

#[test]
fn marker_after_blanks_is_a_marker() {
    let (remaining, line) = parse_line("   ---\nrest").expect("parsed");
    assert_eq!(remaining, "\nrest");
    assert_eq!(line, Line::Now);
}

#[test]
fn text_after_the_marker_is_left_over() {
    let (remaining, line) = parse_line("--- soon").expect("parsed");
    assert_eq!(remaining, " soon");
    assert_eq!(line, Line::Now);
    assert_eq!(
        parse("one\n--- soon\ntwo".to_string()),
        Err(ParseError::TrailingInput(" soon\ntwo".to_string()))
    );
}

#[test]
fn unterminated_bracket_fails() {
    assert_eq!(parse_line("[event second"), Err(ParseError::GrammarMismatch));
    assert_eq!(
        parse("[event second".to_string()),
        Err(ParseError::GrammarMismatch)
    );
    assert_eq!(
        parse("first\n  [boss\nthird".to_string()),
        Err(ParseError::GrammarMismatch)
    );
}

#[test]
fn malformed_tag_lists_fail() {
    assert_eq!(parse_line("[event,] x"), Err(ParseError::GrammarMismatch));
    assert_eq!(parse_line("[event, boss] x"), Err(ParseError::GrammarMismatch));
    assert_eq!(parse_line("[,event] x"), Err(ParseError::GrammarMismatch));
    assert_eq!(parse_line("[a-b] x"), Err(ParseError::GrammarMismatch));
    assert_eq!(parse_options("event]"), Err(ParseError::GrammarMismatch));
    assert_eq!(parse_options("[event"), Err(ParseError::GrammarMismatch));
}

#[test]
fn empty_tag_list_is_accepted() {
    let (remaining, options) = parse_options("[] x").expect("parsed");
    assert_eq!(remaining, " x");
    assert_eq!(options, Options { options: vec![] });
    let (remaining, line) = parse_line("[]x").expect("parsed");
    assert_eq!(remaining, "");
    assert_eq!(line, stage("x", vec![]));
}

#[test]
fn tag_list_keeps_the_order_of_the_tags() {
    let (remaining, options) =
        parse_options("[boss,x1,event,miniboss,boss,Y]tail").expect("parsed");
    assert_eq!(remaining, "tail");
    assert_eq!(
        options,
        Options {
            options: vec![
                Option::Boss,
                Option::Other("x1".to_string()),
                Option::Event,
                Option::Miniboss,
                Option::Boss,
                Option::Other("Y".to_string()),
            ]
        }
    );
}

#[test]
fn keywords_come_before_custom_tags() {
    assert_eq!(parse_option("event"), Ok(("", Option::Event)));
    assert_eq!(parse_option("boss"), Ok(("", Option::Boss)));
    assert_eq!(parse_option("miniboss"), Ok(("", Option::Miniboss)));
    assert_eq!(parse_option("event-x"), Ok(("-x", Option::Event)));
    assert_eq!(parse_option(""), Err(ParseError::GrammarMismatch));
    assert_eq!(parse_option("]"), Err(ParseError::GrammarMismatch));
    assert_eq!(parse_option("boss,"), Ok((",", Option::Boss)));
    assert_eq!(parse_option("miniboss]"), Ok(("]", Option::Miniboss)));
    assert_eq!(
        parse_option("mini]"),
        Ok(("]", Option::Other("mini".to_string())))
    );
    assert_eq!(
        parse_option("Event"),
        Ok(("", Option::Other("Event".to_string())))
    );
}

#[test]
fn longer_words_are_custom_tags() {
    assert_eq!(
        parse_option("events"),
        Ok(("", Option::Other("events".to_string())))
    );
    assert_eq!(
        parse_option("bossy]"),
        Ok(("]", Option::Other("bossy".to_string())))
    );
    assert_eq!(
        parse_option("minibosses,x"),
        Ok((",x", Option::Other("minibosses".to_string())))
    );
    assert_eq!(
        parse_option("event2"),
        Ok(("", Option::Other("event2".to_string())))
    );
    assert_eq!(
        parse_line("[events,miniboss] x"),
        Ok((
            "",
            stage(
                "x",
                vec![Option::Other("events".to_string()), Option::Miniboss]
            )
        ))
    );
}

#[test]
fn custom_tag_is_ascii_letters_and_digits() {
    assert_eq!(
        parse_other_option("abc123-rest"),
        Ok(("-rest", Option::Other("abc123".to_string())))
    );
    assert_eq!(
        parse_other_option("event]"),
        Ok(("]", Option::Other("event".to_string())))
    );
    assert_eq!(parse_other_option("-x"), Err(ParseError::GrammarMismatch));
    assert_eq!(parse_other_option(""), Err(ParseError::GrammarMismatch));
    assert_eq!(parse_other_option("\u{e9}t\u{e9}"), Err(ParseError::GrammarMismatch));
    assert_eq!(
        parse_other_option("ab\u{e9}"),
        Ok(("\u{e9}", Option::Other("ab".to_string())))
    );
}

#[test]
fn stage_without_bracket_takes_the_line_as_action() {
    let (remaining, parsed) = parse_stage("  do [this], then that\nmore").expect("parsed");
    assert_eq!(remaining, "\nmore");
    assert_eq!(
        parsed,
        Stage {
            action: "do [this], then that".to_string(),
            options: Options { options: vec![] },
        }
    );
}

#[test]
fn action_keeps_text_beyond_ascii() {
    let (remaining, line) = parse_line("[event] caf\u{e9} \u{1F600}!").expect("parsed");
    assert_eq!(remaining, "");
    assert_eq!(line, stage("caf\u{e9} \u{1F600}!", vec![Option::Event]));
}

#[test]
fn carriage_return_before_line_feed_is_left_over() {
    let (remaining, line) = parse_line("one\r\ntwo").expect("parsed");
    assert_eq!(remaining, "\r\ntwo");
    assert_eq!(line, stage("one", vec![]));
    assert_eq!(
        parse("one\r\ntwo".to_string()),
        Err(ParseError::TrailingInput("\r\ntwo".to_string()))
    );
}

#[test]
fn lone_carriage_return_is_a_mismatch() {
    assert_eq!(parse_line("one\rtwo"), Err(ParseError::GrammarMismatch));
    assert_eq!(parse_line("one\r"), Err(ParseError::GrammarMismatch));
    assert_eq!(parse("zero\none\rtwo".to_string()), Err(ParseError::GrammarMismatch));
}

#[test]
fn parse_quest_returns_what_is_left() {
    let (remaining, quest) = parse_quest("a\n---x\nb").expect("parsed");
    assert_eq!(remaining, "x\nb");
    assert_eq!(quest, Quest { lines: vec![stage("a", vec![]), Line::Now] });
}

#[test]
fn several_markers_are_accepted() {
    let quest = parse("---\na\n---".to_string()).expect("parsed");
    assert_eq!(
        quest,
        Quest { lines: vec![Line::Now, stage("a", vec![]), Line::Now] }
    );
}

#[test]
fn error_messages() {
    assert_eq!(
        ParseError::TrailingInput(" soon".to_string()).message(),
        "Parse failed with remaining  soon"
    );
    assert_eq!(
        ParseError::GrammarMismatch.message(),
        "Parse failed: a line is neither a marker nor a stage"
    );
}
