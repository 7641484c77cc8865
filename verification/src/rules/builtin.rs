//! The rules that come with the library.

use crate::rules::{ParserRule, ParserRuleAction};
use crate::text::eq_ignore_case;
use crate::token::{KindView, Token, TokenKind, TokenView};
use vstd::prelude::*;
use vstd::string::StringSliceAdditionalSpecFns;

verus! {

/// Stops tags from being read as tags until the closing tag of a given name
/// comes by.
#[derive(Debug, Clone, Copy)]
pub struct NoParseRule<'a> {
    tag_name: &'a str,
}

impl<'a> NoParseRule<'a> {
    /// The rule that lasts until the closing tag called `tag_name`.
    pub closed spec fn until(tag_name: &'a str) -> NoParseRule<'a> {
        NoParseRule { tag_name }
    }

    /// The name of the closing tag that ends the rule.
    pub closed spec fn name(&self) -> Seq<u8> {
        self.tag_name.spec_bytes()
    }

    /// A rule that lasts until the closing tag called `tag_name`.
    pub fn new(tag_name: &'a str) -> (rule: NoParseRule<'a>)
        ensures
            rule == NoParseRule::until(tag_name),
            rule.name() == tag_name.spec_bytes(),
    {
        NoParseRule { tag_name }
    }
}

impl<'r, CustomTy> ParserRule<CustomTy> for NoParseRule<'r> where CustomTy: Clone {
    const ACTION: ParserRuleAction = ParserRuleAction::NoParse;

    open spec fn releases(&self, token: TokenView<CustomTy>) -> bool {
        token.is_close(self.name())
    }

    open spec fn rewrites(&self, token: TokenView<CustomTy>) -> KindView<CustomTy> {
        token.kind
    }

    fn transform_token(&self, token: &mut Token<'_, CustomTy>) -> (release: bool) {
        match &token.kind {
            TokenKind::CloseBBTag(t, _) => eq_ignore_case(t.tag, self.tag_name),
            _ => false,
        }
    }

    /// Never called: the rule reads nothing itself.
    fn parse_custom<'a>(&mut self, input: &'a str) -> (token: Token<'a, CustomTy>) {
        vstd::pervasive::unreached()
    }
}

/// A suppressing rule is no custom parser.
pub proof fn lemma_no_parse_action<CustomTy: Clone>()
    ensures
        <NoParseRule<'static> as ParserRule<CustomTy>>::ACTION is NoParse,
{
}

} // verus!
