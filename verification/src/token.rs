//! The tokens that the parser hands out, and what can be asked of them.

use crate::text::{eq_ignore_case, fold_eq, trim_text, trimmed, trimmed_bytes};
use vstd::prelude::*;
use vstd::string::StringSliceAdditionalSpecFns;
use vstd::utf8::*;

verus! {

/// The name and the raw arguments of a tag, each a slice of the input.
#[derive(Debug, Clone, Copy)]
pub struct BBTag<'a> {
    /// A slice containing the tag.
    pub tag: &'a str,
    /// A slice containing the tag arguments, separator included; may be empty.
    pub args: &'a str,
}

/// What a token is.
#[derive(Debug, Clone)]
#[non_exhaustive]
pub enum TokenKind<'a, CustomTy = ()> {
    /// An opening tag, `[tag]`.
    OpenBBTag(BBTag<'a>),
    /// A closing tag, `[/tag]`, with the place of its opening tag among the
    /// parser's closed tags once it has been matched.
    CloseBBTag(BBTag<'a>, Option<usize>),
    /// A standalone tag, `[tag/]`.
    StandaloneBBTag(BBTag<'a>),
    /// Unformatted text.
    Text,
    /// A token of the caller's own, emitted by a parser rule.
    Custom(CustomTy),
}

/// A parsed token: a slice of the input, where it starts, and what it is.
#[derive(Debug, Clone)]
pub struct Token<'a, CustomTy> where CustomTy: Clone {
    pub span: &'a str,
    pub start: usize,
    pub kind: TokenKind<'a, CustomTy>,
}

/// A tag as bytes.
pub struct TagView {
    pub tag: Seq<u8>,
    pub args: Seq<u8>,
}

/// A token's kind as bytes.
pub enum KindView<CustomTy> {
    OpenBBTag(TagView),
    CloseBBTag(TagView, Option<nat>),
    StandaloneBBTag(TagView),
    Text,
    Custom(CustomTy),
}

/// A token as bytes.
pub struct TokenView<CustomTy> {
    pub span: Seq<u8>,
    pub start: nat,
    pub kind: KindView<CustomTy>,
}

impl<'a> View for BBTag<'a> {
    type V = TagView;

    open spec fn view(&self) -> TagView {
        TagView { tag: self.tag.spec_bytes(), args: self.args.spec_bytes() }
    }
}

impl<'a, CustomTy> View for TokenKind<'a, CustomTy> {
    type V = KindView<CustomTy>;

    open spec fn view(&self) -> KindView<CustomTy> {
        match *self {
            TokenKind::OpenBBTag(t) => KindView::OpenBBTag(t@),
            TokenKind::CloseBBTag(t, opened) => KindView::CloseBBTag(
                t@,
                match opened {
                    Some(i) => Some(i as nat),
                    None => None,
                },
            ),
            TokenKind::StandaloneBBTag(t) => KindView::StandaloneBBTag(t@),
            TokenKind::Text => KindView::Text,
            TokenKind::Custom(c) => KindView::Custom(c),
        }
    }
}

impl<'a, CustomTy: Clone> View for Token<'a, CustomTy> {
    type V = TokenView<CustomTy>;

    open spec fn view(&self) -> TokenView<CustomTy> {
        TokenView { span: self.span.spec_bytes(), start: self.start as nat, kind: self.kind@ }
    }
}

impl<CustomTy> KindView<CustomTy> {
    /// The tag of an opening, closing or standalone tag.
    pub open spec fn tag(self) -> Option<TagView> {
        match self {
            KindView::OpenBBTag(t) => Some(t),
            KindView::CloseBBTag(t, _) => Some(t),
            KindView::StandaloneBBTag(t) => Some(t),
            _ => None,
        }
    }
}

impl<CustomTy> TokenView<CustomTy> {
    /// The same token taken as plain text.
    pub open spec fn as_text(self) -> Self {
        TokenView { span: self.span, start: self.start, kind: KindView::Text }
    }

    /// The same token with another kind.
    pub open spec fn with_kind(self, kind: KindView<CustomTy>) -> Self {
        TokenView { span: self.span, start: self.start, kind }
    }

    /// The position just behind the token's last byte.
    pub open spec fn end(self) -> nat {
        self.start + self.span.len()
    }

    /// The name of a tag token.
    pub open spec fn tag_name(self) -> Option<Seq<u8>> {
        match self.kind.tag() {
            Some(t) => Some(t.tag),
            None => None,
        }
    }

    /// The arguments of a tag token without the white space around them;
    /// `None` for any other token and where nothing but white space is there.
    pub open spec fn args(self) -> Option<Seq<u8>> {
        match self.kind.tag() {
            Some(t) => if trimmed(decode_utf8(t.args)).len() > 0 {
                Some(trimmed_bytes(t.args))
            } else {
                None
            },
            None => None,
        }
    }

    /// Whether this is an opening tag called `name`, whatever the case of
    /// its ASCII letters.
    pub open spec fn is_open(self, name: Seq<u8>) -> bool {
        match self.kind {
            KindView::OpenBBTag(t) => fold_eq(t.tag, name),
            _ => false,
        }
    }

    /// Whether this is a closing tag called `name`, whatever the case of
    /// its ASCII letters.
    pub open spec fn is_close(self, name: Seq<u8>) -> bool {
        match self.kind {
            KindView::CloseBBTag(t, _) => fold_eq(t.tag, name),
            _ => false,
        }
    }

    /// Whether this is a standalone tag called `name`, whatever the case
    /// of its ASCII letters.
    pub open spec fn is_standalone(self, name: Seq<u8>) -> bool {
        match self.kind {
            KindView::StandaloneBBTag(t) => fold_eq(t.tag, name),
            _ => false,
        }
    }
}

/// What can be asked of a token: its name, its arguments, its kind.
impl<'a, CustomTy> Token<'a, CustomTy> where CustomTy: Clone {
    /// The name of this tag, if the token is a tag.
    pub fn tag_name(&self) -> (name: Option<&'a str>)
        ensures
            match name {
                Some(s) => self@.tag_name() == Some(s.spec_bytes()),
                None => self@.tag_name() is None,
            },
    {
        match &self.kind {
            TokenKind::OpenBBTag(t) => Some(t.tag),
            TokenKind::CloseBBTag(t, _) => Some(t.tag),
            TokenKind::StandaloneBBTag(t) => Some(t.tag),
            _ => None,
        }
    }

    /// The arguments for this tag, if any are present. Arguments that are
    /// nothing but white space count as absent.
    pub fn args(&self) -> (args: Option<&'a str>)
        ensures
            match args {
                Some(s) => self@.args() == Some(s.spec_bytes()),
                None => self@.args() is None,
            },
    {
        let raw = match &self.kind {
            TokenKind::OpenBBTag(t) => Some(t.args),
            TokenKind::CloseBBTag(t, _) => Some(t.args),
            TokenKind::StandaloneBBTag(t) => Some(t.args),
            _ => None,
        };
        match raw {
            Some(text) => {
                broadcast use encode_utf8_decode_utf8;

                let inner = trim_text(text);
                if inner.is_empty() {
                    None
                } else {
                    Some(inner)
                }
            },
            None => None,
        }
    }

    /// Whether or not this tag is an open tag of the given type. The
    /// arguments are ignored.
    pub fn is_open(&self, tag_name: &str) -> (r: bool)
        ensures
            r == self@.is_open(tag_name.spec_bytes()),
    {
        match &self.kind {
            TokenKind::OpenBBTag(t) => eq_ignore_case(t.tag, tag_name),
            _ => false,
        }
    }

    /// Whether or not this tag is an open tag of the given type, without arguments.
    pub fn is_open_argless(&self, tag_name: &str) -> (r: bool)
        ensures
            r == (self@.is_open(tag_name.spec_bytes()) && self@.args() is None),
    {
        self.is_open(tag_name) && self.args().is_none()
    }

    /// Whether or not this tag is a close tag of the given type. The
    /// arguments are ignored.
    pub fn is_close(&self, tag_name: &str) -> (r: bool)
        ensures
            r == self@.is_close(tag_name.spec_bytes()),
    {
        match &self.kind {
            TokenKind::CloseBBTag(t, _) => eq_ignore_case(t.tag, tag_name),
            _ => false,
        }
    }

    /// Whether or not this tag is a close tag of the given type, without arguments.
    pub fn is_close_argless(&self, tag_name: &str) -> (r: bool)
        ensures
            r == (self@.is_close(tag_name.spec_bytes()) && self@.args() is None),
    {
        self.is_close(tag_name) && self.args().is_none()
    }

    /// Whether or not this tag is a standalone tag of the given type. The
    /// arguments are ignored.
    pub fn is_standalone(&self, tag_name: &str) -> (r: bool)
        ensures
            r == self@.is_standalone(tag_name.spec_bytes()),
    {
        match &self.kind {
            TokenKind::StandaloneBBTag(t) => eq_ignore_case(t.tag, tag_name),
            _ => false,
        }
    }

    /// Whether or not this tag is a standalone tag of the given type, without arguments.
    pub fn is_standalone_argless(&self, tag_name: &str) -> (r: bool)
        ensures
            r == (self@.is_standalone(tag_name.spec_bytes()) && self@.args() is None),
    {
        self.is_standalone(tag_name) && self.args().is_none()
    }

    /// Whether or not this token is just plain text.
    pub fn is_text(&self) -> (r: bool)
        ensures
            r == (self@.kind is Text),
    {
        match &self.kind {
            TokenKind::Text => true,
            _ => false,
        }
    }
}

/// Token "rewriters", which modify the token in place.
impl<'a, CustomTy> Token<'a, CustomTy> where CustomTy: Clone {
    /// Rewrite the token as text, in place, without altering anything else.
    pub fn rewrite_as_text(&mut self)
        ensures
            final(self)@ == old(self)@.as_text(),
            final(self).span == old(self).span,
    {
        self.kind = TokenKind::Text;
    }

    /// Mark the index of a close tag's opening tag within it, without
    /// altering anything else.
    pub fn rewrite_with_opening_tag(&mut self, idx: usize)
        requires
            old(self)@.kind is CloseBBTag,
        ensures
            final(self)@ == old(self)@.with_kind(
                KindView::CloseBBTag(old(self)@.kind->CloseBBTag_0, Some(idx as nat)),
            ),
            final(self).span == old(self).span,
    {
        let tag = match &self.kind {
            TokenKind::CloseBBTag(t, _) => BBTag { tag: t.tag, args: t.args },
            _ => vstd::pervasive::unreached(),
        };
        self.kind = TokenKind::CloseBBTag(tag, Some(idx));
    }
}

/// Two names that differ only in the case of their ASCII letters are the
/// same name to every query on a token.
pub proof fn lemma_queries_ignore_case<CustomTy>(
    token: TokenView<CustomTy>,
    a: Seq<u8>,
    b: Seq<u8>,
)
    requires
        fold_eq(a, b),
    ensures
        token.is_open(a) == token.is_open(b),
        token.is_close(a) == token.is_close(b),
        token.is_standalone(a) == token.is_standalone(b),
{
    match token.kind.tag() {
        Some(t) => {
            crate::text::lemma_fold_eq_symmetric(a, b);
            if fold_eq(t.tag, a) {
                crate::text::lemma_fold_eq_transitive(t.tag, a, b);
            }
            if fold_eq(t.tag, b) {
                crate::text::lemma_fold_eq_transitive(t.tag, b, a);
            }
        },
        None => {},
    }
}

} // verus!
