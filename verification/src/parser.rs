//! The pull parser: one token per call of [`BBParser::next`], each a slice
//! of the input, the slices following one another without a gap.

use crate::config::ParserConfig;
use crate::rules::builtin::{lemma_no_parse_action, NoParseRule};
use crate::rules::{after_rules, consult_rules, ParserRule, ParserRuleAction};
use crate::scan::{
    lemma_plain_text_is_one_token, lemma_token_end, lemma_token_end_is_boundary, raw_token, scan,
    token_end,
};
use crate::text::{byte_len, lemma_boundary_from_prefix, slice, TAG_OPEN};
use crate::token::{KindView, Token, TokenView};
use crate::tracker::{after_tracking, all_open, lemma_tracking_keeps_order, track, views};
use vstd::prelude::*;
use vstd::string::StringSliceAdditionalSpecFns;
use vstd::utf8::*;

verus! {

/// A parser over an input text. It parses on demand, as the caller asks for
/// the next token, and copies nothing out of the input.
pub struct BBParser<'a, CustomTy = (), Rule = NoParseRule<'static>> where CustomTy: Clone {
    input: &'a str,
    config: ParserConfig,
    loc: usize,
    open_tags: Vec<Token<'a, CustomTy>>,
    closed_tags: Vec<Token<'a, CustomTy>>,
    rule_stack: Vec<Rule>,
}

/// The state of a parser.
pub struct ParserView<CustomTy, Rule> {
    /// The bytes of the input.
    pub input: Seq<u8>,
    /// How many bytes of the input have been handed out as tokens.
    pub cursor: nat,
    /// The features that are switched on.
    pub config: ParserConfig,
    /// The opening tags that nothing has closed yet, innermost last.
    pub open: Seq<TokenView<CustomTy>>,
    /// The opening tags that have been closed, in the order of their closing.
    pub closed: Seq<TokenView<CustomTy>>,
    /// The rules in force, the one that is consulted last.
    pub rules: Seq<Rule>,
}

impl<CustomTy: Clone, Rule: ParserRule<CustomTy>> ParserView<CustomTy, Rule> {
    /// Whether the parser has handed out all of its input.
    pub open spec fn at_end(self) -> bool {
        self.cursor >= self.input.len()
    }

    /// Whether the next token is read by a rule rather than by the grammar.
    pub open spec fn reads_custom(self) -> bool {
        self.rules.len() > 0 && Rule::ACTION is CustomParser
    }

    /// The same state with the rule on top of the stack replaced.
    pub open spec fn with_top(self, top: Rule) -> Self {
        ParserView { rules: self.rules.drop_last().push(top), ..self }
    }

    /// Whether `raw` may be what a custom parser rule reads at the cursor:
    /// a token that starts at the cursor and whose span is the input from
    /// there on, at least one byte of it.
    pub open spec fn admits(self, raw: TokenView<CustomTy>) -> bool {
        &&& raw.start == self.cursor
        &&& self.cursor < raw.end() <= self.input.len()
        &&& raw.span == self.input.subrange(self.cursor as int, raw.end() as int)
    }

    /// The state after `raw` has been read at the cursor, and the token
    /// that is handed out for it: the cursor moves behind the token, the
    /// rule on top of the stack sees the token, and then the tags are
    /// tracked.
    pub open spec fn step(self, raw: TokenView<CustomTy>) -> (Self, TokenView<CustomTy>) {
        let (rules, seen) = after_rules(self.rules, raw);
        let (open, closed, token) = after_tracking(self.config, self.open, self.closed, seen);
        (
            ParserView {
                input: self.input,
                cursor: raw.end(),
                config: self.config,
                open,
                closed,
                rules,
            },
            token,
        )
    }

    /// What is left of the input.
    pub open spec fn rest(self) -> Seq<u8> {
        self.input.subrange(self.cursor as int, self.input.len() as int)
    }

    /// The state after one token has been read at the cursor, and the
    /// token that is handed out. A custom parser on top of the rule stack
    /// reads the token; without one the grammar does.
    pub open spec fn advance(self) -> (Self, TokenView<CustomTy>) {
        if self.reads_custom() {
            let (read, top) = self.rules.last().reads(self.rest());
            self.with_top(top).step(
                TokenView { span: read.span, start: self.cursor, kind: read.kind },
            )
        } else {
            self.step(raw_token(self.input, self.cursor))
        }
    }

    /// What keeps a state in order: the cursor stands on a character
    /// boundary inside the input, and the open stack and the closed list
    /// hold opening tags only.
    pub open spec fn wf(self) -> bool {
        &&& valid_utf8(self.input)
        &&& self.cursor <= self.input.len() <= usize::MAX
        &&& is_char_boundary(self.input, self.cursor as int)
        &&& all_open(self.open)
        &&& all_open(self.closed)
    }
}

impl<'a, CustomTy: Clone, Rule: ParserRule<CustomTy>> View for BBParser<'a, CustomTy, Rule> {
    type V = ParserView<CustomTy, Rule>;

    closed spec fn view(&self) -> ParserView<CustomTy, Rule> {
        ParserView {
            input: self.input.spec_bytes(),
            cursor: self.loc as nat,
            config: self.config,
            open: views(self.open_tags@),
            closed: views(self.closed_tags@),
            rules: self.rule_stack@,
        }
    }
}

/// One step keeps a state in order and moves the cursor forward over
/// exactly the bytes of the token that it hands out.
pub proof fn lemma_step<CustomTy: Clone, Rule: ParserRule<CustomTy>>(
    state: ParserView<CustomTy, Rule>,
    raw: TokenView<CustomTy>,
)
    requires
        state.wf(),
        state.admits(raw),
        is_char_boundary(state.input, raw.end() as int),
    ensures
        state.step(raw).0.wf(),
        state.step(raw).0.input == state.input,
        state.step(raw).0.config == state.config,
        state.step(raw).0.cursor == raw.end(),
        state.step(raw).1.start == state.cursor,
        state.step(raw).1.span == state.input.subrange(
            state.cursor as int,
            state.step(raw).0.cursor as int,
        ),
        match state.step(raw).1.kind {
            KindView::CloseBBTag(_, Some(i)) => i < state.step(raw).0.closed.len(),
            _ => true,
        },
{
    let (rules, seen) = after_rules(state.rules, raw);
    lemma_tracking_keeps_order(state.config, state.open, state.closed, seen);
}

/// Standard constructors.
impl<'a> BBParser<'a> {
    /// Constructs a new parser for the given input string, using the
    /// default [`ParserConfig`].
    pub fn new(input: &'a str) -> (parser: BBParser<'a>)
        ensures
            parser@ == fresh::<(), NoParseRule<'static>>(
                input.spec_bytes(),
                ParserConfig::default_spec(),
            ),
            parser@.wf(),
    {
        Self::with_config_and_rules(input, ParserConfig::default())
    }

    /// Constructs a new parser for the given input string and configuration.
    pub fn with_config(input: &'a str, config: ParserConfig) -> (parser: BBParser<'a>)
        ensures
            parser@ == fresh::<(), NoParseRule<'static>>(input.spec_bytes(), config),
            parser@.wf(),
    {
        Self::with_config_and_rules(input, config)
    }
}

/// Constructors for parsers that hand out tokens of the caller's own kind.
impl<'a> BBParser<'a> {
    /// Constructs a new parser for the given input string, using the
    /// default [`ParserConfig`].
    pub fn new_with_custom<CustomTy>(input: &'a str) -> (parser: BBParser<'a, CustomTy>) where
        CustomTy: Clone,

        ensures
            parser@ == fresh::<CustomTy, NoParseRule<'static>>(
                input.spec_bytes(),
                ParserConfig::default_spec(),
            ),
            parser@.wf(),
    {
        Self::with_config_and_rules(input, ParserConfig::default())
    }

    /// Constructs a new parser for the given input string and configuration.
    pub fn with_config_and_custom<CustomTy>(input: &'a str, config: ParserConfig) -> (parser:
        BBParser<'a, CustomTy>) where CustomTy: Clone
        ensures
            parser@ == fresh::<CustomTy, NoParseRule<'static>>(input.spec_bytes(), config),
            parser@.wf(),
    {
        Self::with_config_and_rules(input, config)
    }

    /// Constructs a new parser for the given input string and configuration
    /// whose rule stack takes rules of the type `Rule`.
    pub fn with_config_and_rules<CustomTy, Rule>(input: &'a str, config: ParserConfig) -> (parser:
        BBParser<'a, CustomTy, Rule>) where CustomTy: Clone, Rule: ParserRule<CustomTy>
        ensures
            parser@ == fresh::<CustomTy, Rule>(input.spec_bytes(), config),
            parser@.wf(),
    {
        proof {
            encode_utf8_valid_utf8(input@);
        }
        // Asked for what it tells the proof: the length fits a `usize`.
        let _ = byte_len(input);
        let parser = BBParser {
            input,
            config,
            loc: 0,
            open_tags: Vec::new(),
            closed_tags: Vec::new(),
            rule_stack: Vec::new(),
        };
        assert(parser@.open =~= Seq::empty());
        assert(parser@.closed =~= Seq::empty());
        parser
    }
}

/// The state of a parser that has not handed out anything yet.
pub open spec fn fresh<CustomTy, Rule>(input: Seq<u8>, config: ParserConfig) -> ParserView<
    CustomTy,
    Rule,
> {
    ParserView {
        input,
        cursor: 0,
        config,
        open: Seq::empty(),
        closed: Seq::empty(),
        rules: Seq::empty(),
    }
}

impl<'a, CustomTy, Rule> BBParser<'a, CustomTy, Rule> where
    CustomTy: Clone,
    Rule: ParserRule<CustomTy>,
 {
    /// Returns all input text left to parse.
    pub fn remaining(&self) -> (rest: &'a str)
        requires
            self@.wf(),
        ensures
            rest.spec_bytes() == self@.rest(),
    {
        proof {
            is_char_boundary_start_end_of_seq(self.input.spec_bytes());
        }
        slice(self.input, self.loc, byte_len(self.input))
    }

    /// Returns all input text left to parse but for its first `after`
    /// bytes, which have to be whole characters of it.
    pub fn remaining_after(&self, after: usize) -> (rest: &'a str)
        requires
            self@.wf(),
            after <= self@.rest().len(),
            is_char_boundary(self@.rest(), after as int),
        ensures
            rest.spec_bytes() == self@.rest().subrange(after as int, self@.rest().len() as int),
            rest.spec_bytes() == self@.input.subrange(
                self@.cursor + after,
                self@.input.len() as int,
            ),
    {
        let left = self.remaining();
        proof {
            encode_utf8_valid_utf8(left@);
            is_char_boundary_start_end_of_seq(left.spec_bytes());
        }
        let rest = slice(left, after, byte_len(left));
        assert(rest.spec_bytes() =~= self@.input.subrange(
            self@.cursor + after,
            self@.input.len() as int,
        ));
        rest
    }

    /// Returns all tags the parser believes to currently be open, that is
    /// with no closing tag found yet, innermost last.
    pub fn open_tags(&self) -> (tags: &[Token<'a, CustomTy>])
        ensures
            views(tags@) == self@.open,
    {
        self.open_tags.as_slice()
    }

    /// Returns all tags the parser believes to have been closed at some
    /// point, in the order of their closing. Standalone tags are not among
    /// them.
    pub fn closed_tags(&self) -> (tags: &[Token<'a, CustomTy>])
        ensures
            views(tags@) == self@.closed,
    {
        self.closed_tags.as_slice()
    }

    /// Puts `rule` on top of the rule stack.
    pub fn push_rule(&mut self, rule: Rule)
        ensures
            final(self)@ == (ParserView { rules: old(self)@.rules.push(rule), ..old(self)@ }),
    {
        self.rule_stack.push(rule);
    }

    /// Takes the rule on top of the rule stack off and hands it back, for
    /// rules that never let go by themselves.
    pub fn pop_rule(&mut self) -> (rule: Option<Rule>)
        ensures
            match rule {
                Some(top) => old(self)@.rules.len() > 0 && top == old(self)@.rules.last()
                    && final(self)@ == (ParserView {
                    rules: old(self)@.rules.drop_last(),
                    ..old(self)@
                }),
                None => old(self)@.rules.len() == 0 && final(self)@ == old(self)@,
            },
    {
        let rule = self.rule_stack.pop();
        assert(rule is Some ==> self.rule_stack@ =~= old(self).rule_stack@.drop_last());
        rule
    }

    /// Hands out the next token, or `None` once all of the input has been
    /// handed out.
    ///
    /// The token is read by the grammar, or by the rule on top of the stack
    /// if that is a custom parser. Then the rule on top sees it, and then
    /// the tags are tracked.
    pub fn next(&mut self) -> (token: Option<Token<'a, CustomTy>>)
        requires
            old(self)@.wf(),
        ensures
            final(self)@.wf(),
            match token {
                None => old(self)@.at_end() && final(self)@ == old(self)@,
                Some(t) => {
                    &&& !old(self)@.at_end()
                    &&& final(self)@.input == old(self)@.input
                    &&& final(self)@.config == old(self)@.config
                    &&& final(self)@.cursor > old(self)@.cursor
                    &&& t@.start == old(self)@.cursor
                    &&& t@.span == old(self)@.input.subrange(
                        old(self)@.cursor as int,
                        final(self)@.cursor as int,
                    )
                    &&& (final(self)@, t@) == old(self)@.advance()
                    &&& match t@.kind {
                        KindView::CloseBBTag(_, Some(i)) => i < final(self)@.closed.len(),
                        _ => true,
                    }
                },
            },
    {
        let n = byte_len(self.input);
        if self.loc >= n {
            return None;
        }
        let ghost before = self@;
        let custom = self.rule_stack.len() > 0 && match Rule::ACTION {
            ParserRuleAction::CustomParser => true,
            ParserRuleAction::NoParse => false,
        };
        let mut token = if custom {
            proof {
                is_char_boundary_start_end_of_seq(self.input.spec_bytes());
            }
            let rest = slice(self.input, self.loc, n);
            let mut top = self.rule_stack.pop().unwrap();
            let mut read = top.parse_custom(rest);
            self.rule_stack.push(top);
            read.start = self.loc;
            proof {
                let whole = before.input;
                let end: int = (before.cursor + read@.span.len()) as int;
                encode_utf8_valid_utf8(read.span@);
                valid_utf8_split(whole, before.cursor as int);
                valid_utf8_concat(whole.subrange(0, before.cursor as int), read@.span);
                assert(whole.subrange(0, before.cursor as int) + read@.span =~= whole.subrange(
                    0,
                    end,
                ));
                lemma_boundary_from_prefix(whole, end);
                assert(read@.span =~= whole.subrange(before.cursor as int, end));
                assert(self@ == before.with_top(top));
            }
            read
        } else {
            proof {
                lemma_token_end(before.input, before.cursor as int);
            }
            scan(self.input, self.loc)
        };
        let ghost raw = token@;
        let ghost ready = self@;
        proof {
            lemma_step(ready, raw);
        }
        self.loc = self.loc + token.span.len();
        consult_rules(&mut self.rule_stack, &mut token);
        track(&self.config, &mut self.open_tags, &mut self.closed_tags, &mut token);
        assert((self@, token@) == ready.step(raw));
        Some(token)
    }
}

/// The spans of a list of tokens, one after another.
pub open spec fn joined<CustomTy>(tokens: Seq<TokenView<CustomTy>>) -> Seq<u8>
    decreases tokens.len(),
{
    if tokens.len() == 0 {
        Seq::empty()
    } else {
        tokens[0].span + joined(tokens.drop_first())
    }
}

/// Whether the tokens follow one another in `input` without a gap, the
/// first of them starting at `from` and the last ending at `to`: each span
/// is the input between the token's start and the next token's start.
pub open spec fn consecutive<CustomTy>(
    input: Seq<u8>,
    from: nat,
    tokens: Seq<TokenView<CustomTy>>,
    to: nat,
) -> bool
    decreases tokens.len(),
{
    if tokens.len() == 0 {
        from == to
    } else {
        &&& tokens[0].start == from
        &&& from <= tokens[0].end() <= input.len()
        &&& tokens[0].span == input.subrange(from as int, tokens[0].end() as int)
        &&& consecutive(input, tokens[0].end(), tokens.drop_first(), to)
    }
}

impl<CustomTy: Clone, Rule: ParserRule<CustomTy>> ParserView<CustomTy, Rule> {
    /// The tokens that a parser in this state hands out, call after call,
    /// until its input is used up, as long as nobody gives it a new rule.
    pub open spec fn remaining_tokens(self) -> Seq<TokenView<CustomTy>>
        decreases self.input.len() - self.cursor,
    {
        if self.at_end() {
            Seq::empty()
        } else {
            let (moved, token) = self.advance();
            if self.cursor < moved.cursor <= self.input.len() {
                seq![token] + moved.remaining_tokens()
            } else {
                seq![token]
            }
        }
    }
}

/// Tokens that follow one another without a gap spell out the input
/// between the start of the first and the end of the last.
pub proof fn lemma_consecutive_spans_join<CustomTy>(
    input: Seq<u8>,
    from: nat,
    tokens: Seq<TokenView<CustomTy>>,
    to: nat,
)
    requires
        from <= input.len(),
        consecutive(input, from, tokens, to),
    ensures
        from <= to <= input.len(),
        joined(tokens) == input.subrange(from as int, to as int),
    decreases tokens.len(),
{
    if tokens.len() == 0 {
        assert(joined(tokens) =~= input.subrange(from as int, to as int));
    } else {
        lemma_consecutive_spans_join(input, tokens[0].end(), tokens.drop_first(), to);
        assert(joined(tokens) =~= input.subrange(from as int, to as int));
    }
}

/// Where the grammar reads the token, one call of `next` keeps the state
/// in order, moves the cursor forward, and hands out a token whose span is
/// the input that the cursor has passed.
pub proof fn lemma_advance<CustomTy: Clone, Rule: ParserRule<CustomTy>>(
    state: ParserView<CustomTy, Rule>,
)
    requires
        state.wf(),
        !state.at_end(),
        !state.reads_custom(),
    ensures
        state.advance().0.wf(),
        state.advance().0.input == state.input,
        state.advance().0.config == state.config,
        state.cursor < state.advance().0.cursor <= state.input.len(),
        state.advance().0.cursor == token_end(state.input, state.cursor as int),
        state.advance().1.start == state.cursor,
        state.advance().1.span == state.input.subrange(
            state.cursor as int,
            state.advance().0.cursor as int,
        ),
{
    lemma_token_end(state.input, state.cursor as int);
    lemma_token_end_is_boundary(state.input, state.cursor as int);
    lemma_step(state, raw_token(state.input, state.cursor));
}

/// All the tokens that a parser hands out, their spans put one after
/// another, are the input from the cursor on: nothing is lost, nothing
/// added, nothing read twice. Shown for parsers in which the grammar does
/// the reading: those whose rules are no custom parsers, and those without
/// a rule.
pub proof fn lemma_spans_cover_input<CustomTy: Clone, Rule: ParserRule<CustomTy>>(
    state: ParserView<CustomTy, Rule>,
)
    requires
        state.wf(),
        Rule::ACTION is NoParse || state.rules.len() == 0,
    ensures
        consecutive(state.input, state.cursor, state.remaining_tokens(), state.input.len()),
        joined(state.remaining_tokens()) == state.rest(),
    decreases state.input.len() - state.cursor,
{
    if !state.at_end() {
        lemma_advance(state);
        let (moved, token) = state.advance();
        lemma_spans_cover_input(moved);
        let tokens = state.remaining_tokens();
        assert(tokens.drop_first() =~= moved.remaining_tokens());
    }
    lemma_consecutive_spans_join(
        state.input,
        state.cursor,
        state.remaining_tokens(),
        state.input.len(),
    );
}

/// Text that holds no `[` comes back as it went in: a parser without rules
/// hands out one token for it, which is text and spans all of it, and is
/// at its end after that.
pub proof fn lemma_plain_text_round_trip<CustomTy: Clone, Rule: ParserRule<CustomTy>>(
    state: ParserView<CustomTy, Rule>,
)
    requires
        state.wf(),
        !state.at_end(),
        state.rules.len() == 0,
        forall|i: int| state.cursor <= i < state.input.len() ==> state.input[i] != TAG_OPEN,
    ensures
        state.advance().1 == (TokenView::<CustomTy> {
            span: state.rest(),
            start: state.cursor,
            kind: KindView::Text,
        }),
        state.advance().0.at_end(),
        state.advance().0.open == state.open,
        state.advance().0.closed == state.closed,
        state.remaining_tokens() == seq![state.advance().1],
{
    lemma_plain_text_is_one_token::<CustomTy>(state.input, state.cursor);
    let moved = state.advance().0;
    assert(moved.remaining_tokens() =~= Seq::empty());
    assert(state.remaining_tokens() =~= seq![state.advance().1]);
}

/// While a suppressing rule is on top of the stack, whatever the grammar
/// reads comes out as text and changes neither the rule stack nor the open
/// and closed tags, until the closing tag by the rule's name comes by. That
/// tag takes the rule off the stack; it is tracked as the closing tag that
/// it is if no rule is left, and comes out as text too if one is.
pub proof fn lemma_suppression<'r, CustomTy: Clone>(state: ParserView<CustomTy, NoParseRule<'r>>)
    requires
        state.wf(),
        !state.at_end(),
        state.rules.len() > 0,
    ensures
        ({
            let raw = raw_token::<CustomTy>(state.input, state.cursor);
            let (moved, token) = state.advance();
            if raw.is_close(state.rules.last().name()) {
                &&& moved.rules == state.rules.drop_last()
                &&& moved.rules.len() == 0 ==> (moved.open, moved.closed, token) == after_tracking(
                    state.config,
                    state.open,
                    state.closed,
                    raw,
                )
                &&& moved.rules.len() > 0 ==> token == raw.as_text() && moved.open == state.open
                    && moved.closed == state.closed
            } else {
                &&& moved.rules == state.rules
                &&& token == raw.as_text()
                &&& moved.open == state.open
                &&& moved.closed == state.closed
            }
        }),
{
    let raw = raw_token::<CustomTy>(state.input, state.cursor);
    lemma_no_parse_action::<CustomTy>();
    assert(raw.with_kind(raw.kind) == raw);
}

} // verus!
