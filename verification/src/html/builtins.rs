//! Writers for common tags that need nothing but a fixed piece of HTML.

use crate::html::{HtmlTagWriter, HtmlTokenWriter};
use crate::rules::builtin::NoParseRule;
use crate::text::{eq_ignore_case, fold_eq};
use crate::token::{Token, TokenView};
use vstd::prelude::*;
use vstd::string::{StringExecFns, StringSliceAdditionalSpecFns};

verus! {

/// A tag writer that knows a tag by a few names and writes a fixed piece of
/// HTML for it, as long as the tag has no arguments.
#[derive(Debug, Clone)]
pub struct SimpleTag {
    tags: Vec<&'static str>,
    html_open: Option<&'static str>,
    html_close: Option<&'static str>,
    html_standalone: Option<&'static str>,
}

/// What a [`SimpleTag`] holds.
pub struct SimpleTagView {
    /// The names by which the tag goes.
    pub tags: Seq<Seq<u8>>,
    /// The HTML for the opening tag.
    pub html_open: Option<Seq<char>>,
    /// The HTML for the closing tag.
    pub html_close: Option<Seq<char>>,
    /// The HTML for the standalone tag.
    pub html_standalone: Option<Seq<char>>,
}

/// The characters of a piece of HTML that may be missing.
pub open spec fn chars_of(html: Option<&'static str>) -> Option<Seq<char>> {
    match html {
        Some(s) => Some(s@),
        None => None,
    }
}

impl View for SimpleTag {
    type V = SimpleTagView;

    closed spec fn view(&self) -> SimpleTagView {
        SimpleTagView {
            tags: names_of(self.tags@),
            html_open: chars_of(self.html_open),
            html_close: chars_of(self.html_close),
            html_standalone: chars_of(self.html_standalone),
        }
    }
}

impl SimpleTagView {
    /// Whether `name` is one of the tag's names, whatever the case of its
    /// ASCII letters.
    pub open spec fn knows(self, name: Seq<u8>) -> bool {
        exists|i: int| 0 <= i < self.tags.len() && fold_eq(#[trigger] self.tags[i], name)
    }
}

impl SimpleTag {
    /// A writer for the tag that goes by the names `tags`, with the HTML
    /// for its opening, closing and standalone form, where it has that form.
    pub fn new(
        tags: Vec<&'static str>,
        html_open: Option<&'static str>,
        html_close: Option<&'static str>,
        html_standalone: Option<&'static str>,
    ) -> (tag: SimpleTag)
        ensures
            tag@ == (SimpleTagView {
                tags: names_of(tags@),
                html_open: chars_of(html_open),
                html_close: chars_of(html_close),
                html_standalone: chars_of(html_standalone),
            }),
    {
        SimpleTag { tags, html_open, html_close, html_standalone }
    }

    /// Whether `name` is one of the tag's names, whatever the case of its
    /// ASCII letters.
    fn knows(&self, name: &str) -> (found: bool)
        ensures
            found == self@.knows(name.spec_bytes()),
    {
        let mut i: usize = 0;
        while i < self.tags.len()
            invariant
                i <= self.tags@.len(),
                forall|j: int| 0 <= j < i ==> !fold_eq(#[trigger] self@.tags[j], name.spec_bytes()),
            decreases self.tags@.len() - i,
        {
            if eq_ignore_case(self.tags[i], name) {
                assert(fold_eq(self@.tags[i as int], name.spec_bytes()));
                return true;
            }
            i = i + 1;
        }
        false
    }
}

impl<CustomTy> HtmlTagWriter<CustomTy> for SimpleTag where CustomTy: Clone {
    type Rule = NoParseRule<'static>;

    open spec fn matches(&self, tag: Seq<u8>) -> bool {
        self@.knows(tag)
    }

    open spec fn opened(
        &self,
        text: spec_fn(TokenView<CustomTy>) -> Seq<char>,
        token: TokenView<CustomTy>,
    ) -> Seq<char> {
        if token.kind is OpenBBTag && self@.knows(token.tag_name()->0) && token.args() is None
            && self@.html_open is Some {
            self@.html_open->0
        } else {
            text(token)
        }
    }

    open spec fn closed(
        &self,
        text: spec_fn(TokenView<CustomTy>) -> Seq<char>,
        open_token: TokenView<CustomTy>,
        close_token: TokenView<CustomTy>,
    ) -> Seq<char> {
        if close_token.kind is CloseBBTag && self@.knows(close_token.tag_name()->0)
            && close_token.args() is None && self@.html_close is Some {
            self@.html_close->0
        } else {
            text(close_token)
        }
    }

    open spec fn alone(
        &self,
        text: spec_fn(TokenView<CustomTy>) -> Seq<char>,
        token: TokenView<CustomTy>,
    ) -> Seq<char> {
        if token.kind is StandaloneBBTag && self@.knows(token.tag_name()->0) && token.args() is None
            && self@.html_standalone is Some {
            self@.html_standalone->0
        } else {
            text(token)
        }
    }

    open spec fn special(&self, token: TokenView<CustomTy>) -> Option<NoParseRule<'static>> {
        None
    }

    fn match_tag(&self, tag: &str) -> (found: bool) {
        self.knows(tag)
    }

    fn open_tag<W: HtmlTokenWriter<CustomTy>>(
        &self,
        tk_writer: &W,
        token: &Token<'_, CustomTy>,
        out: &mut String,
    ) {
        if let Some(html) = self.html_open {
            if let Some(name) = token.tag_name() {
                if self.knows(name) && token.args().is_none() {
                    out.append(html);
                    return ;
                }
            }
        }
        tk_writer.write_token(token, out)
    }

    fn close_tag<'a, W: HtmlTokenWriter<CustomTy>>(
        &self,
        tk_writer: &W,
        open_token: &Token<'a, CustomTy>,
        close_token: &Token<'a, CustomTy>,
        out: &mut String,
    ) {
        if let Some(html) = self.html_close {
            if let Some(name) = close_token.tag_name() {
                if self.knows(name) && close_token.args().is_none() {
                    out.append(html);
                    return ;
                }
            }
        }
        tk_writer.write_token(close_token, out)
    }

    fn standalone_tag<W: HtmlTokenWriter<CustomTy>>(
        &self,
        tk_writer: &W,
        token: &Token<'_, CustomTy>,
        out: &mut String,
    ) {
        if let Some(html) = self.html_standalone {
            if let Some(name) = token.tag_name() {
                if self.knows(name) && token.args().is_none() {
                    out.append(html);
                    return ;
                }
            }
        }
        tk_writer.write_token(token, out)
    }

    fn try_special(&self, token: &Token<'_, CustomTy>) -> (rule: Option<NoParseRule<'static>>) {
        None
    }
}

/// The HTML that opens centred content.
pub const CENTER_OPEN: &'static str =
    "<div style=\"display: flex; justify-content: center;\"><div>";

/// The HTML that opens content aligned to the left.
pub const LEFT_OPEN: &'static str = "<div style=\"display: flex; justify-content: left;\"><div>";

/// The HTML that opens content aligned to the right.
pub const RIGHT_OPEN: &'static str = "<div style=\"display: flex; justify-content: right;\"><div>";

/// The HTML that closes aligned content.
pub const ALIGNED_CLOSE: &'static str = "</div></div>";

/// The tags that the library knows how to write.
#[derive(Debug, Clone, Copy, PartialEq, Eq)]
pub enum CoreTag {
    /// A bold tag, `<b>`.
    Bold,
    /// An italic tag, `<i>`.
    Italic,
    /// An underline tag, `<u>`.
    Underline,
    /// A line break, `<br/>`; a standalone tag.
    Linebreak,
    /// A block quote, `<blockquote>`.
    BlockQuote,
    /// An inline quote, `<q>`.
    Quote,
    /// Subscript, `<sub>`.
    Subscript,
    /// Superscript, `<sup>`.
    Superscript,
    /// A header of the first tier, `<h1>`.
    Header1,
    /// A header of the second tier, `<h2>`.
    Header2,
    /// A header of the third tier, `<h3>`.
    Header3,
    /// A header of the fourth tier, `<h4>`.
    Header4,
    /// A header of the fifth tier, `<h5>`.
    Header5,
    /// A header of the sixth tier, `<h6>`.
    Header6,
    /// Centred content: a `div` styled to centre what it holds.
    Center,
    /// Left-aligned content: a `div` styled to align what it holds to the left.
    Left,
    /// Right-aligned content: a `div` styled to align what it holds to the right.
    Right,
    /// Preformatted text, `<pre>`.
    Preformatted,
    /// Code, `<code>`.
    Code,
    /// A key press, `<kbd>`.
    Kbd,
}

/// The bytes of each name of a list.
pub open spec fn names_of(tags: Seq<&'static str>) -> Seq<Seq<u8>> {
    tags.map_values(|s: &'static str| s.spec_bytes())
}

/// A tag that is opened and closed, with the HTML for both.
pub open spec fn paired(
    tags: Seq<&'static str>,
    html_open: &'static str,
    html_close: &'static str,
) -> SimpleTagView {
    SimpleTagView {
        tags: names_of(tags),
        html_open: Some(html_open@),
        html_close: Some(html_close@),
        html_standalone: None,
    }
}

/// A tag that stands alone, with its HTML.
pub open spec fn single(tags: Seq<&'static str>, html_standalone: &'static str) -> SimpleTagView {
    SimpleTagView {
        tags: names_of(tags),
        html_open: None,
        html_close: None,
        html_standalone: Some(html_standalone@),
    }
}

/// The names and the HTML of each tag that the library knows how to write.
pub open spec fn core_tag(which: CoreTag) -> SimpleTagView {
    match which {
        CoreTag::Bold => paired(seq!["b", "bold"], "<b>", "</b>"),
        CoreTag::Italic => paired(seq!["i", "italic"], "<i>", "</i>"),
        CoreTag::Underline => paired(seq!["u", "underline", "under"], "<u>", "</u>"),
        CoreTag::Linebreak => single(seq!["br"], "<br/>"),
        CoreTag::BlockQuote => paired(
            seq!["quote", "blockquote"],
            "<blockquote>",
            "</blockquote>",
        ),
        CoreTag::Quote => paired(seq!["q"], "<q>", "</q>"),
        CoreTag::Subscript => paired(seq!["sub", "subscript", "small"], "<sub>", "</sub>"),
        CoreTag::Superscript => paired(seq!["sup", "super", "superscript"], "<sup>", "</sup>"),
        CoreTag::Header1 => paired(seq!["h1", "title"], "<h1>", "</h1>"),
        CoreTag::Header2 => paired(seq!["h2", "topic"], "<h2>", "</h2>"),
        CoreTag::Header3 => paired(seq!["h3", "subtopic"], "<h3>", "</h3>"),
        CoreTag::Header4 => paired(seq!["h4"], "<h4>", "</h4>"),
        CoreTag::Header5 => paired(seq!["h5"], "<h5>", "</h5>"),
        CoreTag::Header6 => paired(seq!["h6"], "<h6>", "</h6>"),
        CoreTag::Center => paired(seq!["center"], CENTER_OPEN, ALIGNED_CLOSE),
        CoreTag::Left => paired(seq!["left"], LEFT_OPEN, ALIGNED_CLOSE),
        CoreTag::Right => paired(seq!["right"], RIGHT_OPEN, ALIGNED_CLOSE),
        CoreTag::Preformatted => paired(seq!["pre", "codeblock"], "<pre>", "</pre>"),
        CoreTag::Code => paired(seq!["code"], "<code>", "</code>"),
        CoreTag::Kbd => paired(seq!["kbd"], "<kbd>", "</kbd>"),
    }
}

/// The tags that are safe for any input, whoever wrote it, in the order in
/// which a serializer is to try them.
pub open spec fn core_v1() -> Seq<CoreTag> {
    seq![
        CoreTag::Bold,
        CoreTag::Italic,
        CoreTag::Underline,
        CoreTag::Linebreak,
        CoreTag::Quote,
        CoreTag::BlockQuote,
        CoreTag::Subscript,
        CoreTag::Superscript,
        CoreTag::Header1,
        CoreTag::Header2,
        CoreTag::Header3,
        CoreTag::Header4,
        CoreTag::Header5,
        CoreTag::Header6,
        CoreTag::Center,
    ]
}

/// A list of one name.
fn one(a: &'static str) -> (tags: Vec<&'static str>)
    ensures
        tags@ == seq![a],
{
    let mut tags: Vec<&'static str> = Vec::new();
    tags.push(a);
    assert(tags@ =~= seq![a]);
    tags
}

/// A list of two names.
fn two(a: &'static str, b: &'static str) -> (tags: Vec<&'static str>)
    ensures
        tags@ == seq![a, b],
{
    let mut tags: Vec<&'static str> = Vec::new();
    tags.push(a);
    tags.push(b);
    assert(tags@ =~= seq![a, b]);
    tags
}

/// A list of three names.
fn three(a: &'static str, b: &'static str, c: &'static str) -> (tags: Vec<&'static str>)
    ensures
        tags@ == seq![a, b, c],
{
    let mut tags: Vec<&'static str> = Vec::new();
    tags.push(a);
    tags.push(b);
    tags.push(c);
    assert(tags@ =~= seq![a, b, c]);
    tags
}

/// A writer for a tag that is opened and closed.
fn paired_writer(
    tags: Vec<&'static str>,
    html_open: &'static str,
    html_close: &'static str,
) -> (tag: SimpleTag)
    ensures
        tag@ == paired(tags@, html_open, html_close),
{
    SimpleTag::new(tags, Some(html_open), Some(html_close), None)
}

/// A writer for a tag that stands alone.
fn single_writer(tags: Vec<&'static str>, html_standalone: &'static str) -> (tag: SimpleTag)
    ensures
        tag@ == single(tags@, html_standalone),
{
    SimpleTag::new(tags, None, None, Some(html_standalone))
}

/// The writer for one of the tags that the library knows how to write.
pub fn core_tag_writer(which: CoreTag) -> (tag: SimpleTag)
    ensures
        tag@ == core_tag(which),
{
    match which {
        CoreTag::Bold => paired_writer(two("b", "bold"), "<b>", "</b>"),
        CoreTag::Italic => paired_writer(two("i", "italic"), "<i>", "</i>"),
        CoreTag::Underline => paired_writer(three("u", "underline", "under"), "<u>", "</u>"),
        CoreTag::Linebreak => single_writer(one("br"), "<br/>"),
        CoreTag::BlockQuote => paired_writer(
            two("quote", "blockquote"),
            "<blockquote>",
            "</blockquote>",
        ),
        CoreTag::Quote => paired_writer(one("q"), "<q>", "</q>"),
        CoreTag::Subscript => paired_writer(three("sub", "subscript", "small"), "<sub>", "</sub>"),
        CoreTag::Superscript => paired_writer(
            three("sup", "super", "superscript"),
            "<sup>",
            "</sup>",
        ),
        CoreTag::Header1 => paired_writer(two("h1", "title"), "<h1>", "</h1>"),
        CoreTag::Header2 => paired_writer(two("h2", "topic"), "<h2>", "</h2>"),
        CoreTag::Header3 => paired_writer(two("h3", "subtopic"), "<h3>", "</h3>"),
        CoreTag::Header4 => paired_writer(one("h4"), "<h4>", "</h4>"),
        CoreTag::Header5 => paired_writer(one("h5"), "<h5>", "</h5>"),
        CoreTag::Header6 => paired_writer(one("h6"), "<h6>", "</h6>"),
        CoreTag::Center => paired_writer(one("center"), CENTER_OPEN, ALIGNED_CLOSE),
        CoreTag::Left => paired_writer(one("left"), LEFT_OPEN, ALIGNED_CLOSE),
        CoreTag::Right => paired_writer(one("right"), RIGHT_OPEN, ALIGNED_CLOSE),
        CoreTag::Preformatted => paired_writer(two("pre", "codeblock"), "<pre>", "</pre>"),
        CoreTag::Code => paired_writer(one("code"), "<code>", "</code>"),
        CoreTag::Kbd => paired_writer(one("kbd"), "<kbd>", "</kbd>"),
    }
}

/// Returns the writers for all tags that are basic and safe for any input,
/// whoever wrote it: none of them embeds or links anything.
pub fn all_core_v1_tags() -> (tags: Vec<SimpleTag>)
    ensures
        tags@.map_values(|t: SimpleTag| t@) == core_v1().map_values(
            |which: CoreTag| core_tag(which),
        ),
{
    let order = [
        CoreTag::Bold,
        CoreTag::Italic,
        CoreTag::Underline,
        CoreTag::Linebreak,
        CoreTag::Quote,
        CoreTag::BlockQuote,
        CoreTag::Subscript,
        CoreTag::Superscript,
        CoreTag::Header1,
        CoreTag::Header2,
        CoreTag::Header3,
        CoreTag::Header4,
        CoreTag::Header5,
        CoreTag::Header6,
        CoreTag::Center,
    ];
    let mut tags: Vec<SimpleTag> = Vec::new();
    let mut i: usize = 0;
    while i < order.len()
        invariant
            i <= order@.len(),
            order@ == core_v1(),
            tags@.len() == i,
            forall|j: int| 0 <= j < i ==> (#[trigger] tags@[j])@ == core_tag(order@[j]),
        decreases order@.len() - i,
    {
        tags.push(core_tag_writer(order[i]));
        i = i + 1;
    }
    assert(tags@.map_values(|t: SimpleTag| t@) =~= core_v1().map_values(
        |which: CoreTag| core_tag(which),
    ));
    tags
}

} // verus!
