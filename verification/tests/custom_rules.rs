use bbx::rules::{ParserRule, ParserRuleAction};
use bbx::{BBParser, BBTag, ParserConfig, Token, TokenKind};

/// Reads the input one character at a time and hands each one out as a
/// custom token that carries its code point; lets go at a `!`.
struct Letters;

impl ParserRule<u32> for Letters {
    const ACTION: ParserRuleAction = ParserRuleAction::CustomParser;

    fn transform_token(&self, token: &mut Token<'_, u32>) -> bool {
        token.span == "!"
    }

    fn parse_custom<'a>(&mut self, input: &'a str) -> Token<'a, u32> {
        let first = input.chars().next().unwrap();
        Token {
            span: &input[..first.len_utf8()],
            start: 0,
            kind: TokenKind::Custom(first as u32),
        }
    }
}

#[test]
fn custom_parser_owns_tokenization_until_it_lets_go() {
    let mut parser: BBParser<'_, u32, Letters> =
        BBParser::with_config_and_rules("[b]é![i]", ParserConfig::default());
    let open = parser.next().unwrap();
    assert!(open.is_open("b"));
    parser.push_rule(Letters);

    let e = parser.next().unwrap();
    assert!(matches!(e.kind, TokenKind::Custom(0xE9)));
    assert_eq!(e.span, "é");
    assert_eq!(e.start, 3);

    let bang = parser.next().unwrap();
    assert!(matches!(bang.kind, TokenKind::Custom(0x21)));
    assert_eq!(bang.start, 5);

    let italic = parser.next().unwrap();
    assert!(italic.is_open("i"));
    assert_eq!(italic.start, 6);
    assert!(parser.next().is_none());
    assert_eq!(parser.open_tags().len(), 2);
}

/// Hands out the input two bytes at a time and never lets go.
struct Pairs {
    seen: usize,
}

impl ParserRule<usize> for Pairs {
    const ACTION: ParserRuleAction = ParserRuleAction::CustomParser;

    fn transform_token(&self, _: &mut Token<'_, usize>) -> bool {
        false
    }

    fn parse_custom<'a>(&mut self, input: &'a str) -> Token<'a, usize> {
        self.seen += 1;
        let end = if input.len() >= 2 { 2 } else { 1 };
        Token {
            span: &input[..end],
            start: 0,
            kind: TokenKind::Custom(self.seen),
        }
    }
}

#[test]
fn rule_that_never_lets_go_is_taken_off_by_the_caller() {
    let mut parser: BBParser<'_, usize, Pairs> =
        BBParser::with_config_and_rules("[a][b][c]", ParserConfig::default());
    assert!(parser.pop_rule().is_none());
    parser.push_rule(Pairs { seen: 0 });

    let first = parser.next().unwrap();
    assert_eq!(first.span, "[a");
    assert!(matches!(first.kind, TokenKind::Custom(1)));
    let second = parser.next().unwrap();
    assert_eq!(second.span, "][");
    assert_eq!(second.start, 2);
    assert!(matches!(second.kind, TokenKind::Custom(2)));
    assert!(parser.open_tags().is_empty());

    let rule = parser.pop_rule().unwrap();
    assert_eq!(rule.seen, 2);
    let text = parser.next().unwrap();
    assert!(text.is_text());
    assert_eq!(text.span, "b]");
    let tag = parser.next().unwrap();
    assert!(tag.is_open("c"));
    assert_eq!(tag.start, 6);
    assert!(parser.next().is_none());
}

/// Hands out every byte but `.` as an opening tag of that name; lets go at `.`.
struct Opens;

impl ParserRule for Opens {
    const ACTION: ParserRuleAction = ParserRuleAction::CustomParser;

    fn transform_token(&self, token: &mut Token<'_, ()>) -> bool {
        token.span == "."
    }

    fn parse_custom<'a>(&mut self, input: &'a str) -> Token<'a, ()> {
        let span = &input[..1];
        let kind = if span == "." {
            TokenKind::Text
        } else {
            TokenKind::OpenBBTag(BBTag {
                tag: span,
                args: &input[..0],
            })
        };
        Token {
            span,
            start: 99,
            kind,
        }
    }
}

#[test]
fn tags_read_by_a_custom_parser_are_tracked() {
    let mut parser: BBParser<'_, (), Opens> =
        BBParser::with_config_and_rules("ab.[/B][/a]", ParserConfig::default());
    parser.push_rule(Opens);
    assert!(parser.next().unwrap().is_open("a"));
    assert!(parser.next().unwrap().is_open("b"));
    assert_eq!(parser.open_tags().len(), 2);
    assert_eq!(parser.open_tags()[1].start, 1);
    assert!(parser.next().unwrap().is_text());
    let close = parser.next().unwrap();
    assert!(matches!(close.kind, TokenKind::CloseBBTag(_, Some(0))));
    assert_eq!(parser.closed_tags()[0].span, "b");
    let close = parser.next().unwrap();
    assert!(matches!(close.kind, TokenKind::CloseBBTag(_, Some(1))));
    assert!(parser.open_tags().is_empty());
}
