//! Simple HTML serialization of what a [`BBParser`] hands out: text is
//! escaped, and each tag goes to the first registered tag writer that knows
//! its name.

use crate::html::builtins::SimpleTag;
use crate::parser::{BBParser, ParserView};
use crate::rules::ParserRule;
use crate::token::{BBTag, KindView, Token, TokenKind, TokenView};
use crate::tracker::{all_open, views};
use core::marker::PhantomData;
use vstd::hash_map::StringHashMap;
use vstd::prelude::*;
use vstd::string::{StringExecFns, StringSliceAdditionalSpecFns};
use vstd::utf8::*;

pub mod builtins;

verus! {

/// What stands for one character in HTML: an entity for `&`, `<`, `>`, `"`,
/// `'` and `/`, the character itself for any other.
pub open spec fn escaped_char(c: char) -> Seq<char> {
    if c == '&' {
        seq!['&', 'a', 'm', 'p', ';']
    } else if c == '<' {
        seq!['&', 'l', 't', ';']
    } else if c == '>' {
        seq!['&', 'g', 't', ';']
    } else if c == '"' {
        seq!['&', 'q', 'u', 'o', 't', ';']
    } else if c == '\'' {
        seq!['&', '#', 'x', '2', '7', ';']
    } else if c == '/' {
        seq!['&', '#', 'x', '2', 'F', ';']
    } else {
        seq![c]
    }
}

/// A text with each of its characters escaped for HTML.
pub open spec fn escaped(text: Seq<char>) -> Seq<char>
    decreases text.len(),
{
    if text.len() == 0 {
        Seq::empty()
    } else {
        escaped_char(text[0]) + escaped(text.drop_first())
    }
}

/// Calls `html_escape::encode_safe`. Believed, not proved: that the result
/// is `text` with `&`, `<`, `>`, `"`, `'` and `/` replaced by `&amp;`,
/// `&lt;`, `&gt;`, `&quot;`, `&#x27;` and `&#x2F;`, and nothing else changed.
#[verifier::external_body]
fn encode_safe(text: &str) -> (encoded: String)
    ensures
        encoded@ == escaped(text@),
{
    html_escape::encode_safe(text).into_owned()
}

/// What a token writer writes, as a function of the token.
pub open spec fn text_of<CustomTy: Clone, W: HtmlTokenWriter<CustomTy>>(writer: W) -> spec_fn(
    TokenView<CustomTy>,
) -> Seq<char> {
    |token: TokenView<CustomTy>| writer.text(token)
}

/// Implements writing non-tag tokens.
pub trait HtmlTokenWriter<CustomTy = ()> where CustomTy: Clone {
    /// The HTML that stands for `token`. Left open here; a writer says what
    /// it writes by stating this anew.
    open spec fn text(&self, token: TokenView<CustomTy>) -> Seq<char> {
        vstd::pervasive::arbitrary::<spec_fn(&Self, TokenView<CustomTy>) -> Seq<char>>()(
            self,
            token,
        )
    }

    /// Writes HTML for the given token at the end of `out`. The token need
    /// not be text or a custom token: a tag that no tag writer knows ends up
    /// here too.
    fn write_token(&self, token: &Token<'_, CustomTy>, out: &mut String)
        ensures
            final(out)@ == old(out)@ + self.text(token@),
    ;
}

/// A dead simple HTML writer that writes the raw text of the token it is
/// given, escaped.
#[derive(Copy, Clone, Debug, Default)]
pub struct SimpleHtmlWriter;

impl<CustomTy: Clone> HtmlTokenWriter<CustomTy> for SimpleHtmlWriter {
    open spec fn text(&self, token: TokenView<CustomTy>) -> Seq<char> {
        escaped(decode_utf8(token.span))
    }

    fn write_token(&self, token: &Token<'_, CustomTy>, out: &mut String) {
        broadcast use encode_utf8_decode_utf8;

        let encoded = encode_safe(token.span);
        out.append(encoded.as_str());
    }
}

/// The primary trait for converting tags to HTML.
pub trait HtmlTagWriter<CustomTy = ()> where CustomTy: Clone {
    /// The rules that this writer may ask the parser to take on.
    type Rule: ParserRule<CustomTy>;

    /// Whether this is the writer for the tag called `tag`. Left open here;
    /// a writer says which tags it takes by stating this anew.
    open spec fn matches(&self, tag: Seq<u8>) -> bool {
        vstd::pervasive::arbitrary::<spec_fn(&Self, Seq<u8>) -> bool>()(self, tag)
    }

    /// The HTML that opens `token`, `text` being what the token writer
    /// writes for a token. Left open here.
    open spec fn opened(
        &self,
        text: spec_fn(TokenView<CustomTy>) -> Seq<char>,
        token: TokenView<CustomTy>,
    ) -> Seq<char> {
        vstd::pervasive::arbitrary::<
            spec_fn(&Self, spec_fn(TokenView<CustomTy>) -> Seq<char>, TokenView<CustomTy>) -> Seq<
                char,
            >,
        >()(self, text, token)
    }

    /// The HTML that closes `open_token`, given the tag that closes it and
    /// what the token writer writes for a token. Left open here.
    open spec fn closed(
        &self,
        text: spec_fn(TokenView<CustomTy>) -> Seq<char>,
        open_token: TokenView<CustomTy>,
        close_token: TokenView<CustomTy>,
    ) -> Seq<char> {
        vstd::pervasive::arbitrary::<
            spec_fn(
                &Self,
                spec_fn(TokenView<CustomTy>) -> Seq<char>,
                TokenView<CustomTy>,
                TokenView<CustomTy>,
            ) -> Seq<char>,
        >()(self, text, open_token, close_token)
    }

    /// The HTML that stands for the standalone tag `token`, `text` being
    /// what the token writer writes for a token. Left open here.
    open spec fn alone(
        &self,
        text: spec_fn(TokenView<CustomTy>) -> Seq<char>,
        token: TokenView<CustomTy>,
    ) -> Seq<char> {
        vstd::pervasive::arbitrary::<
            spec_fn(&Self, spec_fn(TokenView<CustomTy>) -> Seq<char>, TokenView<CustomTy>) -> Seq<
                char,
            >,
        >()(self, text, token)
    }

    /// The rule that the parser is to take on once `token` has been
    /// written. Left open here.
    open spec fn special(&self, token: TokenView<CustomTy>) -> Option<Self::Rule> {
        vstd::pervasive::arbitrary::<spec_fn(&Self, TokenView<CustomTy>) -> Option<Self::Rule>>()(
            self,
            token,
        )
    }

    /// Whether or not this writer is the correct writer for the given tag.
    /// The answer may be kept, so it must be the same each time.
    fn match_tag(&self, tag: &str) -> (found: bool)
        ensures
            found == self.matches(tag.spec_bytes()),
    ;

    /// Writes an open tag for the given token at the end of `out`.
    fn open_tag<W: HtmlTokenWriter<CustomTy>>(
        &self,
        tk_writer: &W,
        token: &Token<'_, CustomTy>,
        out: &mut String,
    )
        requires
            token@.kind is OpenBBTag,
        ensures
            final(out)@ == old(out)@ + self.opened(text_of(*tk_writer), token@),
    ;

    /// Writes a close tag for the given token at the end of `out`.
    fn close_tag<'a, W: HtmlTokenWriter<CustomTy>>(
        &self,
        tk_writer: &W,
        open_token: &Token<'a, CustomTy>,
        close_token: &Token<'a, CustomTy>,
        out: &mut String,
    )
        requires
            open_token@.kind is OpenBBTag,
            close_token@.kind is CloseBBTag,
        ensures
            final(out)@ == old(out)@ + self.closed(
                text_of(*tk_writer),
                open_token@,
                close_token@,
            ),
    ;

    /// Writes a standalone tag for the given token at the end of `out`.
    /// Standalone tags must not rely on other tags around them.
    fn standalone_tag<W: HtmlTokenWriter<CustomTy>>(
        &self,
        tk_writer: &W,
        token: &Token<'_, CustomTy>,
        out: &mut String,
    )
        requires
            token@.kind is StandaloneBBTag,
        ensures
            final(out)@ == old(out)@ + self.alone(text_of(*tk_writer), token@),
    ;

    /// The parser rule to introduce after the given token, if any.
    fn try_special(&self, token: &Token<'_, CustomTy>) -> (rule: Option<Self::Rule>)
        ensures
            rule == self.special(token@),
    ;
}

/// The place of the first writer in `tags` that takes the tag called `name`.
pub open spec fn first_match<CustomTy: Clone, Tag: HtmlTagWriter<CustomTy>>(
    tags: Seq<Tag>,
    name: Seq<u8>,
) -> Option<int>
    decreases tags.len(),
{
    if tags.len() == 0 {
        None
    } else {
        match first_match::<CustomTy, Tag>(tags.drop_last(), name) {
            Some(i) => Some(i),
            None => if tags.last().matches(name) {
                Some(tags.len() - 1)
            } else {
                None
            },
        }
    }
}

/// The place of the writer that writes `token`: the first one that takes
/// the token's name, if the token is an opening tag, a closing tag that has
/// found its opening tag, or a standalone tag.
pub open spec fn writer_of<CustomTy: Clone, Tag: HtmlTagWriter<CustomTy>>(
    tags: Seq<Tag>,
    token: TokenView<CustomTy>,
) -> Option<int> {
    match token.kind {
        KindView::OpenBBTag(t) => first_match::<CustomTy, Tag>(tags, t.tag),
        KindView::CloseBBTag(t, Some(_)) => first_match::<CustomTy, Tag>(tags, t.tag),
        KindView::StandaloneBBTag(t) => first_match::<CustomTy, Tag>(tags, t.tag),
        _ => None,
    }
}

/// The HTML for one token of the stream, `closed` being the parser's closed
/// tags once it has handed out the token: what the token's writer makes of
/// it, or, without a writer, the token as text.
pub open spec fn piece<CustomTy: Clone, W: HtmlTokenWriter<CustomTy>, Tag: HtmlTagWriter<CustomTy>>(
    tags: Seq<Tag>,
    writer: W,
    closed: Seq<TokenView<CustomTy>>,
    token: TokenView<CustomTy>,
) -> Seq<char> {
    match writer_of(tags, token) {
        Some(i) => match token.kind {
            KindView::OpenBBTag(_) => tags[i].opened(text_of(writer), token),
            KindView::CloseBBTag(_, Some(k)) => tags[i].closed(
                text_of(writer),
                closed[k as int],
                token,
            ),
            _ => tags[i].alone(text_of(writer), token),
        },
        None => writer.text(token),
    }
}

/// The rule that the parser takes on after `token`: the one its writer
/// asks for, if it has a writer.
pub open spec fn installed<CustomTy: Clone, Tag: HtmlTagWriter<CustomTy>>(
    tags: Seq<Tag>,
    token: TokenView<CustomTy>,
) -> Option<Tag::Rule> {
    match writer_of(tags, token) {
        Some(i) => tags[i].special(token),
        None => None,
    }
}

/// The closing tag made up for an opening tag that nothing closed: the same
/// span, the same name and arguments, and no place recorded.
pub open spec fn made_up_close<CustomTy>(open_token: TokenView<CustomTy>) -> TokenView<CustomTy> {
    open_token.with_kind(KindView::CloseBBTag(open_token.kind->OpenBBTag_0, None))
}

/// The HTML for an opening tag that nothing closed: what its writer makes
/// of the closing tag made up for it, or, without a writer, the opening
/// tag as text.
pub open spec fn late_close<
    CustomTy: Clone,
    W: HtmlTokenWriter<CustomTy>,
    Tag: HtmlTagWriter<CustomTy>,
>(tags: Seq<Tag>, writer: W, open_token: TokenView<CustomTy>) -> Seq<char> {
    match first_match::<CustomTy, Tag>(tags, open_token.kind->OpenBBTag_0.tag) {
        Some(i) => tags[i].closed(text_of(writer), open_token, made_up_close(open_token)),
        None => writer.text(open_token),
    }
}

/// The HTML for the opening tags that nothing closed, in the order in which
/// they were opened.
pub open spec fn late_closes<
    CustomTy: Clone,
    W: HtmlTokenWriter<CustomTy>,
    Tag: HtmlTagWriter<CustomTy>,
>(tags: Seq<Tag>, writer: W, open: Seq<TokenView<CustomTy>>) -> Seq<char>
    decreases open.len(),
{
    if open.len() == 0 {
        Seq::empty()
    } else {
        late_closes(tags, writer, open.drop_last()) + late_close(tags, writer, open.last())
    }
}

/// The HTML for all that a parser in the given state still hands out: the
/// pieces for its tokens one after another, each followed by the parser
/// taking on the rule that the token's writer asks for, and at the end of
/// the input the closing of what is still open. A parser that does not
/// move on is taken to be at its end.
pub open spec fn rendered<
    CustomTy: Clone,
    W: HtmlTokenWriter<CustomTy>,
    Tag: HtmlTagWriter<CustomTy>,
>(tags: Seq<Tag>, writer: W, state: ParserView<CustomTy, Tag::Rule>) -> Seq<char>
    decreases state.input.len() - state.cursor,
{
    if state.at_end() {
        late_closes(tags, writer, state.open)
    } else {
        let (moved, token) = state.advance();
        let ready = match installed(tags, token) {
            Some(rule) => ParserView { rules: moved.rules.push(rule), ..moved },
            None => moved,
        };
        if state.cursor < moved.cursor <= state.input.len() {
            piece(tags, writer, moved.closed, token) + rendered(tags, writer, ready)
        } else {
            piece(tags, writer, moved.closed, token) + late_closes(tags, writer, moved.open)
        }
    }
}

/// The state of a parser once its input is used up, if each token's writer
/// has given it the rule that the writer asks for on the way.
pub open spec fn used_up<CustomTy: Clone, Tag: HtmlTagWriter<CustomTy>>(
    tags: Seq<Tag>,
    state: ParserView<CustomTy, Tag::Rule>,
) -> ParserView<CustomTy, Tag::Rule>
    decreases state.input.len() - state.cursor,
{
    if state.at_end() {
        state
    } else {
        let (moved, token) = state.advance();
        let ready = match installed(tags, token) {
            Some(rule) => ParserView { rules: moved.rules.push(rule), ..moved },
            None => moved,
        };
        if state.cursor < moved.cursor <= state.input.len() {
            used_up(tags, ready)
        } else {
            moved
        }
    }
}

/// The HTML for the tokens that a parser in the given state still hands
/// out, without the closing of what is open at the end.
pub open spec fn pieces<
    CustomTy: Clone,
    W: HtmlTokenWriter<CustomTy>,
    Tag: HtmlTagWriter<CustomTy>,
>(tags: Seq<Tag>, writer: W, state: ParserView<CustomTy, Tag::Rule>) -> Seq<char>
    decreases state.input.len() - state.cursor,
{
    if state.at_end() {
        Seq::empty()
    } else {
        let (moved, token) = state.advance();
        let ready = match installed(tags, token) {
            Some(rule) => ParserView { rules: moved.rules.push(rule), ..moved },
            None => moved,
        };
        if state.cursor < moved.cursor <= state.input.len() {
            piece(tags, writer, moved.closed, token) + pieces(tags, writer, ready)
        } else {
            piece(tags, writer, moved.closed, token)
        }
    }
}

/// The late closing of two lists of open tags, one after the other, is the
/// late closing of the lists put together.
pub proof fn lemma_late_closes_join<
    CustomTy: Clone,
    W: HtmlTokenWriter<CustomTy>,
    Tag: HtmlTagWriter<CustomTy>,
>(tags: Seq<Tag>, writer: W, first: Seq<TokenView<CustomTy>>, second: Seq<TokenView<CustomTy>>)
    ensures
        late_closes(tags, writer, first + second) == late_closes(tags, writer, first)
            + late_closes(tags, writer, second),
    decreases second.len(),
{
    if second.len() == 0 {
        assert(first + second =~= first);
        assert(late_closes(tags, writer, first) + Seq::<char>::empty() =~= late_closes(
            tags,
            writer,
            first,
        ));
    } else {
        lemma_late_closes_join(tags, writer, first, second.drop_last());
        assert((first + second).drop_last() =~= first + second.drop_last());
        assert((first + second).last() == second.last());
        assert(late_closes(tags, writer, first + second) =~= late_closes(tags, writer, first)
            + late_closes(tags, writer, second));
    }
}

/// No opening tag is left without a closing call: the HTML of a document
/// ends with the late closing of every tag that is open once the input is
/// used up, each by the first writer that takes its name and with a
/// closing tag made up for it, in the order in which the tags were opened.
pub proof fn lemma_open_tags_are_closed_late<
    CustomTy: Clone,
    W: HtmlTokenWriter<CustomTy>,
    Tag: HtmlTagWriter<CustomTy>,
>(tags: Seq<Tag>, writer: W, state: ParserView<CustomTy, Tag::Rule>, at: int)
    requires
        0 <= at < used_up(tags, state).open.len(),
    ensures
        rendered(tags, writer, state) == pieces(tags, writer, state) + late_closes(
            tags,
            writer,
            used_up(tags, state).open,
        ),
        late_closes(tags, writer, used_up(tags, state).open) == late_closes(
            tags,
            writer,
            used_up(tags, state).open.subrange(0, at),
        ) + late_close(tags, writer, used_up(tags, state).open[at]) + late_closes(
            tags,
            writer,
            used_up(tags, state).open.subrange(at + 1, used_up(tags, state).open.len() as int),
        ),
{
    lemma_rendered_ends_with_late_closes(tags, writer, state);
    let open = used_up(tags, state).open;
    let before = open.subrange(0, at);
    let after = open.subrange(at + 1, open.len() as int);
    let one = seq![open[at]];
    lemma_late_closes_join(tags, writer, before + one, after);
    lemma_late_closes_join(tags, writer, before, one);
    assert(before + one + after =~= open);
    assert(one.drop_last() =~= Seq::<TokenView<CustomTy>>::empty());
    assert(late_closes(tags, writer, one) =~= late_close(tags, writer, open[at])) by {
        assert(late_closes(tags, writer, one.drop_last()) =~= Seq::<char>::empty());
    }
}

/// The HTML of a document is the HTML of its tokens followed by the late
/// closing of what is open once the input is used up.
pub proof fn lemma_rendered_ends_with_late_closes<
    CustomTy: Clone,
    W: HtmlTokenWriter<CustomTy>,
    Tag: HtmlTagWriter<CustomTy>,
>(tags: Seq<Tag>, writer: W, state: ParserView<CustomTy, Tag::Rule>)
    ensures
        rendered(tags, writer, state) == pieces(tags, writer, state) + late_closes(
            tags,
            writer,
            used_up(tags, state).open,
        ),
    decreases state.input.len() - state.cursor,
{
    if state.at_end() {
        assert(rendered(tags, writer, state) =~= pieces(tags, writer, state) + late_closes(
            tags,
            writer,
            used_up(tags, state).open,
        ));
    } else {
        let (moved, token) = state.advance();
        let ready = match installed(tags, token) {
            Some(rule) => ParserView { rules: moved.rules.push(rule), ..moved },
            None => moved,
        };
        if state.cursor < moved.cursor <= state.input.len() {
            lemma_rendered_ends_with_late_closes(tags, writer, ready);
        } else {
            assert(used_up(tags, state) == moved);
        }
        assert(rendered(tags, writer, state) =~= pieces(tags, writer, state) + late_closes(
            tags,
            writer,
            used_up(tags, state).open,
        ));
    }
}

/// Serializes what a [`BBParser`] hands out to HTML using the registered
/// tag writers and a writer for everything else.
pub struct HtmlSerializer<Writer = SimpleHtmlWriter, CustomTy = (), Tag = SimpleTag> where
    CustomTy: Clone,
    Writer: HtmlTokenWriter<CustomTy>,
 {
    writer: Writer,
    tag_impls: Vec<Tag>,
    tag_cache: StringHashMap<usize>,
    _custom_ty: PhantomData<CustomTy>,
}

impl<Writer> HtmlSerializer<Writer> where Writer: HtmlTokenWriter<()> + Default {
    /// Construct a new serializer with no tags.
    pub fn empty() -> (serializer: Self)
        ensures
            serializer.wf(),
            serializer.tags() == Seq::<SimpleTag>::empty(),
            serializer.remembered() == Map::<Seq<char>, usize>::empty(),
    {
        Self::with_tags(Vec::new())
    }

    /// Construct a new serializer with the given tags.
    pub fn with_tags(tags: Vec<SimpleTag>) -> (serializer: Self)
        ensures
            serializer.wf(),
            serializer.tags() == tags@,
            serializer.remembered() == Map::<Seq<char>, usize>::empty(),
    {
        Self::custom_with_tags(tags)
    }
}

impl<Writer, CustomTy, Tag> HtmlSerializer<Writer, CustomTy, Tag> where
    CustomTy: Clone,
    Writer: HtmlTokenWriter<CustomTy> + Default,
    Tag: HtmlTagWriter<CustomTy>,
 {
    /// Construct a new serializer with the given tags.
    pub fn custom_with_tags(tags: Vec<Tag>) -> (serializer: Self)
        ensures
            serializer.wf(),
            serializer.tags() == tags@,
            serializer.remembered() == Map::<Seq<char>, usize>::empty(),
    {
        Self::custom(tags, Writer::default())
    }
}

impl<Writer, CustomTy, Tag> HtmlSerializer<Writer, CustomTy, Tag> where
    CustomTy: Clone,
    Writer: HtmlTokenWriter<CustomTy>,
    Tag: HtmlTagWriter<CustomTy>,
 {
    /// The registered tag writers, in the order of their registration.
    pub closed spec fn tags(&self) -> Seq<Tag> {
        self.tag_impls@
    }

    /// The writer for everything that no tag writer writes.
    pub closed spec fn writer(&self) -> Writer {
        self.writer
    }

    /// The tag names whose writer the serializer remembers, each with the
    /// place of that writer among the registered ones.
    pub closed spec fn remembered(&self) -> Map<Seq<char>, usize> {
        self.tag_cache@
    }

    /// What keeps a serializer in order: every tag name that it remembers
    /// goes with the place of the first writer that takes the name.
    pub open spec fn wf(&self) -> bool {
        forall|name: Seq<char>| #[trigger]
            self.remembered().contains_key(name) ==> first_match::<CustomTy, Tag>(
                self.tags(),
                encode_utf8(name),
            ) == Some(self.remembered()[name] as int)
    }

    /// Construct a new serializer with the given tags and writer.
    pub fn custom(tag_impls: Vec<Tag>, writer: Writer) -> (serializer: Self)
        ensures
            serializer.wf(),
            serializer.tags() == tag_impls@,
            serializer.writer() == writer,
            serializer.remembered() == Map::<Seq<char>, usize>::empty(),
    {
        Self { tag_impls, writer, tag_cache: StringHashMap::new(), _custom_ty: PhantomData }
    }
}

/// What `first_match` finds, said without recursion: the writer found takes
/// the name and none before it does; none is found only if none takes it.
pub proof fn lemma_first_match<CustomTy: Clone, Tag: HtmlTagWriter<CustomTy>>(
    tags: Seq<Tag>,
    name: Seq<u8>,
)
    ensures
        match first_match::<CustomTy, Tag>(tags, name) {
            Some(i) => {
                &&& 0 <= i < tags.len()
                &&& tags[i].matches(name)
                &&& forall|j: int| 0 <= j < i ==> !(#[trigger] tags[j]).matches(name)
            },
            None => forall|j: int| 0 <= j < tags.len() ==> !(#[trigger] tags[j]).matches(name),
        },
    decreases tags.len(),
{
    if tags.len() > 0 {
        let front = tags.drop_last();
        lemma_first_match::<CustomTy, Tag>(front, name);
        match first_match::<CustomTy, Tag>(front, name) {
            Some(i) => {
                assert(front[i] == tags[i]);
                assert forall|j: int| 0 <= j < i implies !(#[trigger] tags[j]).matches(name) by {
                    assert(front[j] == tags[j]);
                }
            },
            None => {
                assert forall|j: int| 0 <= j < tags.len() - 1 implies !(#[trigger] tags[j]).matches(
                    name,
                ) by {
                    assert(front[j] == tags[j]);
                }
            },
        }
    }
}

/// The first writer that takes a name is found wherever it stands: a place
/// before which no writer takes the name, and at which one does, is what
/// `first_match` finds; where no writer takes the name it finds none.
pub proof fn lemma_first_match_at<CustomTy: Clone, Tag: HtmlTagWriter<CustomTy>>(
    tags: Seq<Tag>,
    name: Seq<u8>,
    upto: int,
)
    requires
        0 <= upto <= tags.len(),
        forall|j: int| 0 <= j < upto ==> !(#[trigger] tags[j]).matches(name),
    ensures
        upto < tags.len() && tags[upto].matches(name) ==> first_match::<CustomTy, Tag>(tags, name)
            == Some(upto),
        upto == tags.len() ==> first_match::<CustomTy, Tag>(tags, name) is None,
{
    lemma_first_match::<CustomTy, Tag>(tags, name);
}

/// Writers that are registered later change nothing for a name that an
/// earlier writer takes.
pub proof fn lemma_first_match_stays<CustomTy: Clone, Tag: HtmlTagWriter<CustomTy>>(
    tags: Seq<Tag>,
    more: Seq<Tag>,
    name: Seq<u8>,
)
    requires
        first_match::<CustomTy, Tag>(tags, name) is Some,
    ensures
        first_match::<CustomTy, Tag>(tags + more, name) == first_match::<CustomTy, Tag>(tags, name),
{
    lemma_first_match::<CustomTy, Tag>(tags, name);
    let i = first_match::<CustomTy, Tag>(tags, name)->0;
    assert((tags + more)[i] == tags[i]);
    assert forall|j: int| 0 <= j < i implies !(#[trigger] (tags + more)[j]).matches(name) by {
        assert((tags + more)[j] == tags[j]);
    }
    lemma_first_match_at::<CustomTy, Tag>(tags + more, name, i);
}

impl<Writer, CustomTy, Tag> HtmlSerializer<Writer, CustomTy, Tag> where
    CustomTy: Clone,
    Writer: HtmlTokenWriter<CustomTy>,
    Tag: HtmlTagWriter<CustomTy>,
 {
    /// Register the provided tags to the serializer, behind those that it
    /// has; `tags` is left empty.
    pub fn register_tags(&mut self, tags: &mut Vec<Tag>)
        requires
            old(self).wf(),
        ensures
            final(self).wf(),
            final(self).tags() == old(self).tags() + old(tags)@,
            final(self).writer() == old(self).writer(),
            final(self).remembered() == old(self).remembered(),
            final(tags)@ == Seq::<Tag>::empty(),
    {
        proof {
            assert forall|name: Seq<char>| #[trigger]
                self.remembered().contains_key(name) implies first_match::<CustomTy, Tag>(
                self.tag_impls@ + tags@,
                encode_utf8(name),
            ) == Some(self.remembered()[name] as int) by {
                lemma_first_match_stays::<CustomTy, Tag>(
                    self.tag_impls@,
                    tags@,
                    encode_utf8(name),
                );
            }
        }
        let ghost known = self.remembered();
        self.tag_impls.append(tags);
        assert(self.remembered() == known);
    }

    /// Register the provided tag to the serializer, behind those that it has.
    pub fn register_tag(&mut self, tag: Tag)
        requires
            old(self).wf(),
        ensures
            final(self).wf(),
            final(self).tags() == old(self).tags().push(tag),
            final(self).writer() == old(self).writer(),
            final(self).remembered() == old(self).remembered(),
    {
        proof {
            assert forall|name: Seq<char>| #[trigger]
                self.remembered().contains_key(name) implies first_match::<CustomTy, Tag>(
                self.tag_impls@.push(tag),
                encode_utf8(name),
            ) == Some(self.remembered()[name] as int) by {
                assert(self.tag_impls@.push(tag) =~= self.tag_impls@ + seq![tag]);
                lemma_first_match_stays::<CustomTy, Tag>(
                    self.tag_impls@,
                    seq![tag],
                    encode_utf8(name),
                );
            }
        }
        let ghost known = self.remembered();
        self.tag_impls.push(tag);
        assert(self.remembered() == known);
    }

    /// The place of the first registered writer that takes the tag called
    /// `tag_name`: the place that the serializer remembers for the name, or
    /// else the place that a look through the writers finds.
    pub fn find_writer(&self, tag_name: &str) -> (found: Option<usize>)
        requires
            self.wf(),
        ensures
            match found {
                Some(i) => first_match::<CustomTy, Tag>(self.tags(), tag_name.spec_bytes()) == Some(
                    i as int,
                ) && i < self.tags().len(),
                None => first_match::<CustomTy, Tag>(self.tags(), tag_name.spec_bytes()) is None,
            },
    {
        proof {
            lemma_first_match::<CustomTy, Tag>(self.tag_impls@, tag_name.spec_bytes());
        }
        if let Some(place) = self.tag_cache.get(tag_name) {
            assert(self.remembered().contains_key(tag_name@));
            return Some(*place);
        }
        let mut i: usize = 0;
        while i < self.tag_impls.len()
            invariant
                i <= self.tag_impls@.len(),
                forall|j: int|
                    0 <= j < i ==> !(#[trigger] self.tag_impls@[j]).matches(tag_name.spec_bytes()),
            decreases self.tag_impls@.len() - i,
        {
            if self.tag_impls[i].match_tag(tag_name) {
                proof {
                    lemma_first_match_at::<CustomTy, Tag>(
                        self.tag_impls@,
                        tag_name.spec_bytes(),
                        i as int,
                    );
                }
                return Some(i);
            }
            i = i + 1;
        }
        proof {
            lemma_first_match_at::<CustomTy, Tag>(self.tag_impls@, tag_name.spec_bytes(), i as int);
        }
        None
    }

    /// Attempt to locate the writer for the given tag: the first registered
    /// one that takes the name, if one does.
    pub fn get_writer_for_tag(&self, tag_name: &str) -> (writer: Option<&Tag>)
        requires
            self.wf(),
        ensures
            match writer {
                Some(w) => {
                    &&& first_match::<CustomTy, Tag>(self.tags(), tag_name.spec_bytes()) is Some
                    &&& *w == self.tags()[first_match::<CustomTy, Tag>(
                        self.tags(),
                        tag_name.spec_bytes(),
                    )->0]
                },
                None => first_match::<CustomTy, Tag>(self.tags(), tag_name.spec_bytes()) is None,
            },
    {
        match self.find_writer(tag_name) {
            Some(i) => Some(&self.tag_impls[i]),
            None => None,
        }
    }

    /// The place of the writer for the given tag, which the serializer
    /// remembers from then on.
    fn resolve(&mut self, tag_name: &str) -> (found: Option<usize>)
        requires
            old(self).wf(),
        ensures
            final(self).wf(),
            final(self).tags() == old(self).tags(),
            final(self).writer() == old(self).writer(),
            match found {
                Some(i) => {
                    &&& first_match::<CustomTy, Tag>(old(self).tags(), tag_name.spec_bytes())
                        == Some(i as int)
                    &&& i < old(self).tags().len()
                    &&& final(self).remembered() == old(self).remembered().insert(tag_name@, i)
                },
                None => {
                    &&& first_match::<CustomTy, Tag>(old(self).tags(), tag_name.spec_bytes())
                        is None
                    &&& final(self).remembered() == old(self).remembered()
                },
            },
            old(self).remembered().submap_of(final(self).remembered()),
    {
        let found = self.find_writer(tag_name);
        if let Some(i) = found {
            assert(self.remembered().contains_key(tag_name@) ==> self.remembered()[tag_name@] == i);
            self.tag_cache.insert(tag_name.to_owned(), i);
        }
        found
    }

    /// Writes the HTML for one token of the stream at the end of `out`,
    /// `closed` being the parser's closed tags once it has handed out the
    /// token, and hands back the rule that the token's writer asks the
    /// parser to take on.
    ///
    /// An opening tag, a closing tag that has found its opening tag, and a
    /// standalone tag go to the first writer that takes their name. Every
    /// other token, and a tag that no writer takes, goes to the token
    /// writer.
    pub fn write_piece<'a>(
        &mut self,
        closed: &[Token<'a, CustomTy>],
        token: &Token<'a, CustomTy>,
        out: &mut String,
    ) -> (rule: Option<Tag::Rule>)
        requires
            old(self).wf(),
            all_open(views(closed@)),
            match token@.kind {
                KindView::CloseBBTag(_, Some(k)) => k < closed@.len(),
                _ => true,
            },
        ensures
            final(self).wf(),
            final(self).tags() == old(self).tags(),
            final(self).writer() == old(self).writer(),
            old(self).remembered().submap_of(final(self).remembered()),
            final(out)@ == old(out)@ + piece(
                old(self).tags(),
                old(self).writer(),
                views(closed@),
                token@,
            ),
            rule == installed(old(self).tags(), token@),
            final(self).remembered() == match writer_of(old(self).tags(), token@) {
                Some(i) => old(self).remembered().insert(
                    decode_utf8(token@.tag_name()->0),
                    i as usize,
                ),
                None => old(self).remembered(),
            },
    {
        broadcast use encode_utf8_decode_utf8;

        let found = match &token.kind {
            TokenKind::OpenBBTag(t) => self.resolve(t.tag),
            TokenKind::CloseBBTag(t, Some(_)) => self.resolve(t.tag),
            TokenKind::StandaloneBBTag(t) => self.resolve(t.tag),
            _ => None,
        };
        match found {
            Some(i) => {
                let tag = &self.tag_impls[i];
                match &token.kind {
                    TokenKind::OpenBBTag(_) => {
                        tag.open_tag(&self.writer, token, out);
                    },
                    TokenKind::CloseBBTag(_, Some(k)) => {
                        assert(views(closed@)[*k as int] == closed@[*k as int]@);
                        tag.close_tag(&self.writer, &closed[*k], token, out);
                    },
                    _ => {
                        tag.standalone_tag(&self.writer, token, out);
                    },
                }
                tag.try_special(token)
            },
            None => {
                self.writer.write_token(token, out);
                None
            },
        }
    }

    /// Writes the HTML that closes an opening tag which nothing closed at
    /// the end of `out`: the first writer that takes the tag's name closes
    /// it, with a closing tag made up for it; a tag that no writer takes
    /// goes to the token writer as it is.
    pub fn write_late_close<'a>(&mut self, open_token: &Token<'a, CustomTy>, out: &mut String)
        requires
            old(self).wf(),
            open_token@.kind is OpenBBTag,
        ensures
            final(self).wf(),
            final(self).tags() == old(self).tags(),
            final(self).writer() == old(self).writer(),
            old(self).remembered().submap_of(final(self).remembered()),
            final(out)@ == old(out)@ + late_close(
                old(self).tags(),
                old(self).writer(),
                open_token@,
            ),
            final(self).remembered() == match first_match::<CustomTy, Tag>(
                old(self).tags(),
                open_token@.tag_name()->0,
            ) {
                Some(i) => old(self).remembered().insert(
                    decode_utf8(open_token@.tag_name()->0),
                    i as usize,
                ),
                None => old(self).remembered(),
            },
    {
        broadcast use encode_utf8_decode_utf8;

        match &open_token.kind {
            TokenKind::OpenBBTag(t) => {
                match self.resolve(t.tag) {
                    Some(i) => {
                        let made_up = Token {
                            span: open_token.span,
                            start: open_token.start,
                            kind: TokenKind::CloseBBTag(BBTag { tag: t.tag, args: t.args }, None),
                        };
                        self.tag_impls[i].close_tag(&self.writer, open_token, &made_up, out);
                    },
                    None => {
                        self.writer.write_token(open_token, out);
                    },
                }
            },
            _ => {},
        }
    }

    /// Serialize the given document out to HTML, using the registered tag
    /// writers and the token writer.
    ///
    /// Every token goes to the first writer that takes its name, or, if it
    /// is no tag or no writer takes it, to the token writer. After a tag
    /// has been written its writer may hand the parser a new rule. Once the
    /// input is used up, each tag that is still open is closed by its
    /// writer, in the order in which the tags were opened.
    pub fn serialize<'a>(&mut self, parser: BBParser<'a, CustomTy, Tag::Rule>) -> (out: String)
        requires
            old(self).wf(),
            parser@.wf(),
        ensures
            final(self).wf(),
            final(self).tags() == old(self).tags(),
            final(self).writer() == old(self).writer(),
            old(self).remembered().submap_of(final(self).remembered()),
            out@ == rendered(old(self).tags(), old(self).writer(), parser@),
    {
        let mut parser = parser;
        let mut out = String::new();
        let ghost whole = rendered(self.tags(), self.writer(), parser@);
        assert(out@ + whole =~= whole);
        loop
            invariant
                self.wf(),
                self.tags() == old(self).tags(),
                self.writer() == old(self).writer(),
                old(self).remembered().submap_of(self.remembered()),
                parser@.wf(),
                whole == out@ + rendered(self.tags(), self.writer(), parser@),
            ensures
                self.wf(),
                self.tags() == old(self).tags(),
                self.writer() == old(self).writer(),
                old(self).remembered().submap_of(self.remembered()),
                parser@.wf(),
                whole == out@ + late_closes(self.tags(), self.writer(), parser@.open),
            decreases parser@.input.len() - parser@.cursor,
        {
            let ghost before = parser@;
            let ghost written = out@;
            let ghost known = self.remembered();
            let token = match parser.next() {
                Some(token) => token,
                None => {
                    break ;
                },
            };
            if let Some(rule) = self.write_piece(parser.closed_tags(), &token, &mut out) {
                parser.push_rule(rule);
            }
            proof {
                vstd::map_lib::lemma_submap_of_trans(
                    old(self).remembered(),
                    known,
                    self.remembered(),
                );
                assert(whole =~= out@ + rendered(self.tags(), self.writer(), parser@));
            }
        }
        let open = parser.open_tags();
        let ghost base = out@;
        let mut i: usize = 0;
        assert(views(open@).subrange(0, 0) =~= Seq::empty());
        assert(out@ =~= base + late_closes(
            self.tags(),
            self.writer(),
            views(open@).subrange(0, 0),
        ));
        while i < open.len()
            invariant
                self.wf(),
                self.tags() == old(self).tags(),
                self.writer() == old(self).writer(),
                old(self).remembered().submap_of(self.remembered()),
                i <= open@.len(),
                views(open@) == parser@.open,
                parser@.wf(),
                out@ == base + late_closes(
                    self.tags(),
                    self.writer(),
                    views(open@).subrange(0, i as int),
                ),
            decreases open@.len() - i,
        {
            let ghost known = self.remembered();
            let ghost upto = views(open@).subrange(0, i + 1);
            assert(upto.drop_last() =~= views(open@).subrange(0, i as int));
            assert(upto.last() == open@[i as int]@);
            assert(views(open@)[i as int] == open@[i as int]@);
            self.write_late_close(&open[i], &mut out);
            proof {
                vstd::map_lib::lemma_submap_of_trans(
                    old(self).remembered(),
                    known,
                    self.remembered(),
                );
                assert(out@ =~= base + late_closes(self.tags(), self.writer(), upto));
            }
            i = i + 1;
        }
        assert(views(open@).subrange(0, i as int) =~= parser@.open);
        assert(out@ =~= whole);
        out
    }
}

} // verus!
