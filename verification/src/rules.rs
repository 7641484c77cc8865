//! Parser rules, which can be pushed into a parser mid-iteration to change
//! how parsing behaves. Only the rule on top of the stack is ever consulted.

use crate::token::{KindView, Token, TokenView};
use vstd::prelude::*;
use vstd::string::StringSliceAdditionalSpecFns;

pub mod builtin;

verus! {

/// What a parser rule does with the parser while it is on top of the stack.
#[derive(Debug, Clone, Copy, PartialEq, Eq)]
pub enum ParserRuleAction {
    /// The rule reads the input itself and hands out the tokens, among them
    /// tokens of the caller's own kind.
    CustomParser,
    /// Nothing is taken as a tag: every token becomes text, until the rule
    /// lets go.
    NoParse,
}

/// A rule that changes how a parser behaves while the rule is on top of the
/// parser's rule stack.
pub trait ParserRule<CustomTy = ()> where CustomTy: Clone {
    /// What rules of this type do.
    const ACTION: ParserRuleAction;

    /// Whether the rule leaves the stack once it has seen `token`. Left
    /// open here; a rule says what it does by stating this anew.
    open spec fn releases(&self, token: TokenView<CustomTy>) -> bool {
        vstd::pervasive::arbitrary::<spec_fn(&Self, TokenView<CustomTy>) -> bool>()(self, token)
    }

    /// The kind that the rule gives to `token`. Left open here; a rule
    /// says what it does by stating this anew.
    open spec fn rewrites(&self, token: TokenView<CustomTy>) -> KindView<CustomTy> {
        vstd::pervasive::arbitrary::<spec_fn(&Self, TokenView<CustomTy>) -> KindView<CustomTy>>()(
            self,
            token,
        )
    }

    /// Called with every token that is produced while the rule is on top of
    /// the stack, before tag tracking sees it. The rule may give the token
    /// another kind, never another span. When the rule returns `true` it is
    /// taken off the stack.
    fn transform_token(&self, token: &mut Token<'_, CustomTy>) -> (release: bool)
        ensures
            release == self.releases(old(token)@),
            final(token)@ == old(token)@.with_kind(self.rewrites(old(token)@)),
    ;

    /// The token that the rule reads off the front of `input`, and the
    /// rule as it is after that. Left open here; a rule says what it does
    /// by stating this anew.
    open spec fn reads(&self, input: Seq<u8>) -> (TokenView<CustomTy>, Self) where Self: Sized {
        vstd::pervasive::arbitrary::<spec_fn(&Self, Seq<u8>) -> (TokenView<CustomTy>, Self)>()(
            self,
            input,
        )
    }

    /// Reads the next token off the front of `input`, which is what the
    /// parser has not consumed yet. Called only while a rule whose action is
    /// [`ParserRuleAction::CustomParser`] is on top of the stack. The parser
    /// moves on by the length of the token's span, so the span has to be a
    /// prefix of `input`, and not an empty one. Where the token starts is
    /// for the parser to say.
    fn parse_custom<'a>(&mut self, input: &'a str) -> (token: Token<'a, CustomTy>) where
        Self: Sized,

        requires
            Self::ACTION is CustomParser,
            input.spec_bytes().len() > 0,
        ensures
            0 < token@.span.len() <= input.spec_bytes().len(),
            token@.span == input.spec_bytes().subrange(0, token@.span.len() as int),
            token@.span == old(self).reads(input.spec_bytes()).0.span,
            token@.kind == old(self).reads(input.spec_bytes()).0.kind,
            *final(self) == old(self).reads(input.spec_bytes()).1,
    ;
}

/// What the rule stack and a fresh token become once the top rule has seen
/// the token.
///
/// The top rule gives the token its kind and says whether it leaves. It
/// judges the token as it was produced, so a rule can recognise the tag
/// that ends it. If a suppressing rule is on top after that, the token
/// becomes text.
pub open spec fn after_rules<CustomTy: Clone, Rule: ParserRule<CustomTy>>(
    rules: Seq<Rule>,
    token: TokenView<CustomTy>,
) -> (Seq<Rule>, TokenView<CustomTy>) {
    if rules.len() == 0 {
        (rules, token)
    } else {
        let top = rules.last();
        let seen = token.with_kind(top.rewrites(token));
        let rest = if top.releases(token) {
            rules.drop_last()
        } else {
            rules
        };
        if rest.len() > 0 && Rule::ACTION is NoParse {
            (rest, seen.as_text())
        } else {
            (rest, seen)
        }
    }
}

/// Shows `token` to the rule on top of `rules`, takes that rule off if it
/// asks for it, and turns the token into text if a suppressing rule is on
/// top afterwards.
pub fn consult_rules<CustomTy: Clone, Rule: ParserRule<CustomTy>>(
    rules: &mut Vec<Rule>,
    token: &mut Token<'_, CustomTy>,
)
    ensures
        (final(rules)@, final(token)@) == after_rules(old(rules)@, old(token)@),
{
    let n = rules.len();
    if n == 0 {
        return ;
    }
    let release = rules[n - 1].transform_token(token);
    if release {
        rules.pop();
        assert(rules@ =~= old(rules)@.drop_last());
    }
    if rules.len() > 0 {
        match Rule::ACTION {
            ParserRuleAction::NoParse => {
                token.rewrite_as_text();
            },
            ParserRuleAction::CustomParser => {},
        }
    }
}

} // verus!
