use bbx::rules::builtin::NoParseRule;
use bbx::{BBParser, BBTag, ParserConfig, ParserFeature, Token, TokenKind};

fn all_tokens<'a>(parser: &mut BBParser<'a>) -> Vec<Token<'a, ()>> {
    let mut tokens = Vec::new();
    while let Some(token) = parser.next() {
        tokens.push(token);
    }
    tokens
}

fn tag_and_args<'a>(token: &Token<'a, ()>) -> (&'a str, &'a str) {
    match &token.kind {
        TokenKind::OpenBBTag(BBTag { tag, args }) => (*tag, *args),
        TokenKind::CloseBBTag(BBTag { tag, args }, _) => (*tag, *args),
        TokenKind::StandaloneBBTag(BBTag { tag, args }) => (*tag, *args),
        _ => panic!("not a tag: {:?}", token),
    }
}

const INPUTS: [&str; 12] = [
    "",
    "plain",
    "[b]bold[/b]",
    "[a][b]x[/a][/b]",
    "[not_a_tag=real ",
    "[[[[",
    "]]]]",
    "[a [b] c]",
    "héllo [ü] wörld [/ü] ☃",
    "[ bar ] [ noparse ]foo [/bar] [baz] asdfasd [/noparse]",
    "[]x[/]y[/ ]",
    "tail[",
];

#[test]
fn spans_put_together_are_the_input() {
    for input in INPUTS {
        let mut parser = BBParser::new(input);
        let mut seen = String::new();
        let mut at = 0;
        while let Some(token) = parser.next() {
            assert_eq!(token.start, at, "in {:?}", input);
            assert!(!token.span.is_empty(), "in {:?}", input);
            assert_eq!(token.span, &input[at..at + token.span.len()]);
            at += token.span.len();
            seen.push_str(token.span);
            assert_eq!(parser.remaining(), &input[at..]);
        }
        assert_eq!(seen, input);
        assert!(parser.next().is_none());
    }
}

#[test]
fn spans_put_together_are_the_input_under_a_rule() {
    let input = "[code][b]x[/b][/CODE][i]";
    let mut parser = BBParser::new(input);
    let mut seen = String::new();
    while let Some(token) = parser.next() {
        if token.is_open("code") {
            parser.push_rule(NoParseRule::new("code"));
        }
        seen.push_str(token.span);
    }
    assert_eq!(seen, input);
}

#[test]
fn text_without_brackets_is_one_token() {
    for input in ["x", "no tags here", "a ] b ] c", "snow ☃ man", " \t\n"] {
        let mut parser = BBParser::new(input);
        let token = parser.next().unwrap();
        assert!(token.is_text());
        assert_eq!(token.span, input);
        assert_eq!(token.start, 0);
        assert!(parser.next().is_none());
        assert!(parser.open_tags().is_empty());
        assert!(parser.closed_tags().is_empty());
    }
}

#[test]
fn empty_input_has_no_token() {
    let mut parser = BBParser::new("");
    assert!(parser.next().is_none());
    assert!(parser.next().is_none());
    assert_eq!(parser.remaining(), "");
}

#[test]
fn close_tag_closes_only_the_innermost_tag_by_default() {
    let mut parser = BBParser::new("[a][b]x[/a][/b]");
    let tokens = all_tokens(&mut parser);
    assert_eq!(tokens.len(), 5);
    assert!(tokens[0].is_open("a"));
    assert!(tokens[1].is_open("b"));
    assert!(tokens[2].is_text());
    assert!(matches!(tokens[3].kind, TokenKind::CloseBBTag(_, None)));
    assert!(tokens[3].is_close("a"));
    assert!(matches!(tokens[4].kind, TokenKind::CloseBBTag(_, Some(0))));
    assert_eq!(parser.open_tags().len(), 1);
    assert!(parser.open_tags()[0].is_open("a"));
    assert_eq!(parser.closed_tags().len(), 1);
    assert!(parser.closed_tags()[0].is_open("b"));
    assert_eq!(parser.closed_tags()[0].start, 3);
}

#[test]
fn unmatched_close_tag_becomes_text_where_asked() {
    let config = ParserConfig {
        feature_flags: ParserFeature::unmatched_close_as_text(),
    };
    let mut parser = BBParser::with_config("[a][b]x[/a][/b]", config);
    let tokens = all_tokens(&mut parser);
    assert!(tokens[3].is_text());
    assert_eq!(tokens[3].span, "[/a]");
    assert_eq!(tokens[3].start, 7);
    assert!(matches!(tokens[4].kind, TokenKind::CloseBBTag(_, Some(0))));
    assert_eq!(parser.open_tags().len(), 1);
}

#[test]
fn close_tag_closes_at_any_depth_where_asked() {
    let config = ParserConfig {
        feature_flags: ParserFeature::pop_unordered(),
    };
    let mut parser = BBParser::with_config("[a][b]x[/a][/b]", config);
    let tokens = all_tokens(&mut parser);
    assert!(matches!(tokens[3].kind, TokenKind::CloseBBTag(_, Some(0))));
    assert!(matches!(tokens[4].kind, TokenKind::CloseBBTag(_, Some(1))));
    assert!(parser.open_tags().is_empty());
    assert!(parser.closed_tags()[0].is_open("a"));
    assert!(parser.closed_tags()[1].is_open("b"));
}

#[test]
fn close_tag_at_any_depth_takes_the_innermost_of_its_name() {
    let config = ParserConfig {
        feature_flags: ParserFeature::v1(),
    };
    let mut parser = BBParser::with_config("[a=1][b][a=2][c][/A][/x]", config);
    let tokens = all_tokens(&mut parser);
    assert!(matches!(tokens[4].kind, TokenKind::CloseBBTag(_, Some(0))));
    assert_eq!(parser.closed_tags()[0].args(), Some("=2"));
    assert!(tokens[5].is_text());
    let open: Vec<&str> = parser.open_tags().iter().map(|t| t.span).collect();
    assert_eq!(open, ["[a=1]", "[b]", "[c]"]);
}

#[test]
fn white_space_inside_the_brackets_belongs_to_the_tag() {
    let mut parser = BBParser::new("[bar ]foo");
    let bar = parser.next().unwrap();
    assert_eq!(bar.span, "[bar ]");
    assert!(bar.is_open_argless("bar"));
    assert_eq!(tag_and_args(&bar), ("bar", ""));
    let text = parser.next().unwrap();
    assert!(text.is_text());
    assert_eq!(text.span, "foo");
    assert_eq!(text.start, 6);
    assert!(parser.next().is_none());
}

#[test]
fn white_space_of_any_script_is_taken_off_the_tag() {
    let mut parser = BBParser::new("[\u{a0}\tb\u{2003}\n]");
    let token = parser.next().unwrap();
    assert_eq!(tag_and_args(&token), ("b", ""));
    assert!(token.is_open_argless("B"));
    assert!(parser.next().is_none());
}

#[test]
fn tag_without_closing_bracket_is_text_to_the_end() {
    let mut parser = BBParser::new("[not_a_tag=real ");
    let token = parser.next().unwrap();
    assert!(token.is_text());
    assert_eq!(token.span, "[not_a_tag=real ");
    assert!(parser.next().is_none());

    let mut parser = BBParser::new("a[b [c [d");
    let tokens = all_tokens(&mut parser);
    let spans: Vec<&str> = tokens.iter().map(|t| t.span).collect();
    assert_eq!(spans, ["a", "[b [c [d"]);
    assert!(tokens.iter().all(|t| t.is_text()));
}

#[test]
fn bracket_inside_a_tag_makes_the_first_bracket_text() {
    let mut parser = BBParser::new("[abc [b]x");
    let tokens = all_tokens(&mut parser);
    let spans: Vec<&str> = tokens.iter().map(|t| t.span).collect();
    assert_eq!(spans, ["[abc ", "[b]", "x"]);
    assert!(tokens[0].is_text());
    assert!(tokens[1].is_open("b"));
    assert!(tokens[2].is_text());

    let mut parser = BBParser::new("[[b]]");
    let tokens = all_tokens(&mut parser);
    let spans: Vec<&str> = tokens.iter().map(|t| t.span).collect();
    assert_eq!(spans, ["[", "[b]", "]"]);
}

#[test]
fn names_match_whatever_the_case() {
    let mut parser = BBParser::new("[BOLD][/bOlD][Br/]");
    let open = parser.next().unwrap();
    assert_eq!(open.is_open("Bold"), open.is_open("bold"));
    assert!(open.is_open("Bold"));
    assert!(open.is_open("BOLD"));
    assert!(!open.is_open("bolder"));
    assert!(!open.is_open("bol"));
    let close = parser.next().unwrap();
    assert!(close.is_close("bold"));
    assert!(matches!(close.kind, TokenKind::CloseBBTag(_, Some(0))));
    let alone = parser.next().unwrap();
    assert!(alone.is_standalone("BR"));
    assert!(!alone.is_open("br"));
}

#[test]
fn only_ascii_letters_are_folded() {
    let mut parser = BBParser::new("[É][@]");
    let token = parser.next().unwrap();
    assert!(token.is_open("É"));
    assert!(!token.is_open("é"));
    let token = parser.next().unwrap();
    assert!(token.is_open("@"));
    assert!(!token.is_open("`"));
}

#[test]
fn name_and_arguments_part_at_the_first_equals_or_space() {
    let cases = [
        ("[url=http://a b]", "url", "=http://a b"),
        ("[url http://a=b]", "url", " http://a=b"),
        ("[=x]", "", "=x"),
        ("[a=]", "a", "="),
        ("[size = 3 ]", "size", " = 3"),
        ("[]", "", ""),
        ("[a\tb]", "a\tb", ""),
    ];
    for (input, tag, args) in cases {
        let mut parser = BBParser::new(input);
        let token = parser.next().unwrap();
        assert!(matches!(token.kind, TokenKind::OpenBBTag(_)), "{:?}", input);
        assert_eq!(tag_and_args(&token), (tag, args), "{:?}", input);
        assert_eq!(token.span, input);
    }
}

#[test]
fn slash_in_front_closes_and_slash_at_the_end_stands_alone() {
    let cases: [(&str, &str, &str, u8); 10] = [
        ("[/a]", "a", "", b'c'),
        ("[/]", "", "", b'c'),
        ("[/a b]", "a", " b", b'c'),
        ("[/a/]", "a/", "", b'c'),
        ("[/a b/]", "a", " b/", b'c'),
        ("[a/]", "a", "", b's'),
        ("[a b/]", "a", " b", b's'),
        ("[br /]", "br", " ", b's'),
        ("[a=/]", "a", "=", b's'),
        ("[a/ b]", "a/", " b", b'o'),
    ];
    for (input, tag, args, kind) in cases {
        let mut parser = BBParser::new(input);
        let token = parser.next().unwrap();
        let found = match token.kind {
            TokenKind::OpenBBTag(_) => b'o',
            TokenKind::CloseBBTag(_, None) => b'c',
            TokenKind::StandaloneBBTag(_) => b's',
            _ => b'?',
        };
        assert_eq!(found, kind, "{:?}", input);
        assert_eq!(tag_and_args(&token), (tag, args), "{:?}", input);
    }
}

#[test]
fn arguments_are_trimmed_when_asked_for_not_when_stored() {
    let mut parser = BBParser::new("[a= x ][b =][c \u{a0} /][d]text");
    let a = parser.next().unwrap();
    assert_eq!(tag_and_args(&a), ("a", "= x"));
    assert_eq!(a.args(), Some("= x"));
    let b = parser.next().unwrap();
    assert_eq!(b.args(), Some("="));
    assert!(!b.is_open_argless("b"));
    let c = parser.next().unwrap();
    assert_eq!(tag_and_args(&c), ("c", " \u{a0} "));
    assert_eq!(c.args(), None);
    assert!(c.is_standalone_argless("c"));
    let d = parser.next().unwrap();
    assert_eq!(d.args(), None);
    assert_eq!(d.tag_name(), Some("d"));
    let text = parser.next().unwrap();
    assert_eq!(text.args(), None);
    assert_eq!(text.tag_name(), None);
}

#[test]
fn rewriting_changes_the_kind_and_nothing_else() {
    let mut parser = BBParser::new("[/a=1]");
    let mut token = parser.next().unwrap();
    token.rewrite_with_opening_tag(7);
    assert!(matches!(token.kind, TokenKind::CloseBBTag(_, Some(7))));
    assert_eq!(tag_and_args(&token), ("a", "=1"));
    assert_eq!(token.span, "[/a=1]");
    assert_eq!(token.start, 0);
    token.rewrite_as_text();
    assert!(token.is_text());
    assert_eq!(token.span, "[/a=1]");
    assert_eq!(token.start, 0);
}

#[test]
fn suppressing_rule_turns_everything_into_text_until_its_close_tag() {
    let mut parser = BBParser::new("[code][b]x[/b][br/][/other][/CODE][b]");
    let open = parser.next().unwrap();
    assert!(open.is_open("code"));
    parser.push_rule(NoParseRule::new("code"));
    for span in ["[b]", "x", "[/b]", "[br/]", "[/other]"] {
        let token = parser.next().unwrap();
        assert!(token.is_text(), "{:?}", span);
        assert_eq!(token.span, span);
        assert_eq!(parser.open_tags().len(), 1);
        assert!(parser.closed_tags().is_empty());
    }
    let close = parser.next().unwrap();
    assert!(close.is_close("code"));
    assert!(matches!(close.kind, TokenKind::CloseBBTag(_, Some(0))));
    assert!(parser.open_tags().is_empty());
    let bold = parser.next().unwrap();
    assert!(bold.is_open("b"));
    assert_eq!(parser.open_tags().len(), 1);
}

#[test]
fn only_the_top_rule_is_asked_and_the_one_below_takes_over() {
    let mut parser = BBParser::new("[/outer][/inner][/outer][i]");
    parser.push_rule(NoParseRule::new("outer"));
    parser.push_rule(NoParseRule::new("inner"));
    let first = parser.next().unwrap();
    assert!(first.is_text());
    let inner = parser.next().unwrap();
    assert!(inner.is_text());
    assert_eq!(inner.span, "[/inner]");
    let outer = parser.next().unwrap();
    assert!(outer.is_close("outer"));
    let italic = parser.next().unwrap();
    assert!(italic.is_open("i"));
}

#[test]
fn what_is_left_follows_the_cursor() {
    let mut parser = BBParser::new("ab[c]dé");
    assert_eq!(parser.remaining(), "ab[c]dé");
    assert_eq!(parser.remaining_after(2), "[c]dé");
    parser.next();
    assert_eq!(parser.remaining(), "[c]dé");
    assert_eq!(parser.remaining_after(3), "dé");
    assert_eq!(parser.remaining_after(4), "é");
    assert_eq!(parser.remaining_after(6), "");
    parser.next();
    parser.next();
    assert_eq!(parser.remaining(), "");
    assert_eq!(parser.remaining_after(0), "");
}

#[test]
fn custom_kind_parsers_start_out_like_the_others() {
    let mut plain: BBParser<'_, u8> = BBParser::new_with_custom("[a]");
    assert!(plain.next().unwrap().is_open("a"));
    let config = ParserConfig {
        feature_flags: ParserFeature::unmatched_close_as_text(),
    };
    let mut with: BBParser<'_, u8> = BBParser::with_config_and_custom("[/a]", config);
    assert!(with.next().unwrap().is_text());
    let mut without: BBParser<'_, u8> =
        BBParser::with_config_and_custom("[/a]", ParserConfig::default());
    assert!(without.next().unwrap().is_close("a"));
}

#[test]
fn feature_sets_are_sets_of_bits() {
    assert_eq!(ParserFeature::pop_unordered().bits(), 1 << 1);
    assert_eq!(ParserFeature::unmatched_close_as_text().bits(), 1 << 2);
    assert_eq!(ParserFeature::POP_UNORDERED, 1 << 1);
    assert_eq!(ParserFeature::UNMATCHED_CLOSE_AS_TEXT, 1 << 2);
    assert_eq!(ParserFeature::V1, 6);
    assert_eq!(ParserFeature::ALL, u32::MAX);
    assert_eq!(ParserFeature::v1().bits(), 6);
    assert_eq!(ParserFeature::all().bits(), u32::MAX);
    assert_eq!(ParserFeature::empty().bits(), 0);
    assert_eq!(ParserFeature::default(), ParserFeature::empty());
    assert_eq!(ParserConfig::default().feature_flags.bits(), 0);
    assert_eq!(ParserFeature::from_bits_retain(6), ParserFeature::v1());

    let both = ParserFeature::pop_unordered().union(ParserFeature::unmatched_close_as_text());
    assert_eq!(both, ParserFeature::v1());
    assert!(both.contains(ParserFeature::pop_unordered()));
    assert!(ParserFeature::all().contains(both));
    assert!(!ParserFeature::pop_unordered().contains(both));
    assert!(!ParserFeature::empty().contains(ParserFeature::pop_unordered()));
    assert!(ParserFeature::pop_unordered().contains(ParserFeature::empty()));
}
