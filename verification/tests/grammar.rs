use bbx::{BBParser, BBTag, TokenKind};

/// What a token is, without its place in the closed tags.
#[derive(Debug, PartialEq, Eq)]
enum Kind<'a> {
    Open(&'a str, &'a str),
    Close(&'a str, &'a str),
    Standalone(&'a str, &'a str),
    Text,
}

/// The grammar read off with std's string functions, character by
/// character: the span of the token at the front of `rest`, and its kind.
fn read_by_chars(rest: &str) -> (&str, Kind<'_>) {
    let text_end = |from: usize| rest[from..].find('[').map_or(rest.len(), |at| at + from);
    if !rest.starts_with('[') {
        return (&rest[..text_end(0)], Kind::Text);
    }
    let Some(close) = rest[1..].find(']') else {
        return (rest, Kind::Text);
    };
    let body = rest[1..1 + close].trim();
    if body.contains('[') {
        return (&rest[..text_end(1)], Kind::Text);
    }
    let span = &rest[..close + 2];
    let (name, args) = match body.find(['=', ' ']) {
        Some(cut) => body.split_at(cut),
        None => (body, ""),
    };
    let kind = if let Some(name) = name.strip_prefix('/') {
        Kind::Close(name, args)
    } else if args.is_empty() && name.ends_with('/') {
        Kind::Standalone(&name[..name.len() - 1], "")
    } else if args.ends_with('/') {
        Kind::Standalone(name, &args[..args.len() - 1])
    } else {
        Kind::Open(name, args)
    };
    (span, kind)
}

fn kind_of<'a>(kind: &TokenKind<'a, ()>) -> Kind<'a> {
    match kind {
        TokenKind::OpenBBTag(BBTag { tag, args }) => Kind::Open(tag, args),
        TokenKind::CloseBBTag(BBTag { tag, args }, _) => Kind::Close(tag, args),
        TokenKind::StandaloneBBTag(BBTag { tag, args }) => Kind::Standalone(tag, args),
        TokenKind::Text => Kind::Text,
        other => panic!("no token of this kind comes from the grammar: {:?}", other),
    }
}

fn agrees_with_reading_by_chars(input: &str) {
    let mut parser = BBParser::new(input);
    let mut at = 0;
    while at < input.len() {
        let (span, kind) = read_by_chars(&input[at..]);
        let token = parser.next().unwrap();
        assert_eq!(token.span, span, "at {} in {:?}", at, input);
        assert_eq!(token.start, at, "in {:?}", input);
        assert_eq!(kind_of(&token.kind), kind, "at {} in {:?}", at, input);
        at += span.len();
    }
    assert!(parser.next().is_none(), "in {:?}", input);
}

const PIECES: [&str; 9] = ["[", "]", "/", "=", " ", "a", "é", "\u{3000}", "\t"];

#[test]
fn grammar_agrees_with_reading_by_chars_on_short_inputs() {
    let mut inputs = vec![String::new()];
    for _ in 0..5 {
        let longer: Vec<String> = inputs
            .iter()
            .flat_map(|head| PIECES.iter().map(move |piece| format!("{}{}", head, piece)))
            .collect();
        for input in &longer {
            agrees_with_reading_by_chars(input);
        }
        inputs = longer;
    }
}

#[test]
fn grammar_agrees_with_reading_by_chars_on_documents() {
    for input in [
        "[b]Foo<b>bar[/b] baz.",
        "[ bar ] [ noparse ]foo [/bar] [baz] asdfasd [/noparse]",
        "[url=http://example.com/?a=b c]link[/url]",
        "[quote = \"x\" /][/ quote][/=][=/][ / ][/ /]",
        "[list]\n[*] one\n[*] two [\n[/list]",
        "日本語[太字]テキスト[/太字]　[改行/]",
        "[\u{2028}a\u{2029}=\u{85}b\u{a0}]",
    ] {
        agrees_with_reading_by_chars(input);
    }
}
