//! Which opening tags are still open, and which have been closed.
//!
//! Opening tags go on a stack. A closing tag closes the innermost open tag
//! of its name: by default only if that tag is on top of the stack, with
//! [`ParserFeature::POP_UNORDERED`](crate::config::ParserFeature) at any
//! depth. A closed tag moves to the end of the closed list, where its place
//! never changes again, and the closing tag records that place.

use crate::config::{ParserConfig, ParserFeature};
use crate::token::{BBTag, KindView, Token, TokenKind, TokenView};
use vstd::prelude::*;
use vstd::string::StringSliceAdditionalSpecFns;

verus! {

/// The tokens of a list as bytes.
pub open spec fn views<'a, CustomTy: Clone>(tokens: Seq<Token<'a, CustomTy>>) -> Seq<
    TokenView<CustomTy>,
> {
    tokens.map_values(|t: Token<'a, CustomTy>| t@)
}

/// Whether every token of the list is an opening tag.
pub open spec fn all_open<CustomTy>(tokens: Seq<TokenView<CustomTy>>) -> bool {
    forall|i: int| 0 <= i < tokens.len() ==> (#[trigger] tokens[i]).kind is OpenBBTag
}

/// The place in the open stack of the tag that a closing tag called `name`
/// closes: the topmost one of that name, which has to be the top of the
/// stack unless `any_depth` holds.
pub open spec fn find_open<CustomTy>(
    open: Seq<TokenView<CustomTy>>,
    name: Seq<u8>,
    any_depth: bool,
) -> Option<int>
    decreases open.len(),
{
    if open.len() == 0 {
        None
    } else if open.last().is_open(name) {
        Some(open.len() - 1)
    } else if any_depth {
        find_open(open.drop_last(), name, any_depth)
    } else {
        None
    }
}

/// What the open stack, the closed list and a token become once the token
/// has passed the tracker.
///
/// An opening tag goes on the stack. A closing tag that closes an open tag
/// moves that tag to the end of the closed list and records its place
/// there; one that closes nothing records nothing, or becomes text where
/// the configuration says so. Any other token changes nothing.
pub open spec fn after_tracking<CustomTy>(
    config: ParserConfig,
    open: Seq<TokenView<CustomTy>>,
    closed: Seq<TokenView<CustomTy>>,
    token: TokenView<CustomTy>,
) -> (Seq<TokenView<CustomTy>>, Seq<TokenView<CustomTy>>, TokenView<CustomTy>) {
    match token.kind {
        KindView::OpenBBTag(_) => (open.push(token), closed, token),
        KindView::CloseBBTag(tag, _) => match find_open(open, tag.tag, config.pop_unordered()) {
            Some(i) => (
                open.remove(i),
                closed.push(open[i]),
                token.with_kind(KindView::CloseBBTag(tag, Some(closed.len()))),
            ),
            None => (
                open,
                closed,
                if config.unmatched_close_as_text() {
                    token.as_text()
                } else {
                    token.with_kind(KindView::CloseBBTag(tag, None))
                },
            ),
        },
        _ => (open, closed, token),
    }
}

/// What `find_open` finds, said without recursion: the tag found has the
/// name, no tag above it has, and without `any_depth` it is the top of the
/// stack; nothing is found only if the top (with `any_depth`: every tag)
/// has another name.
pub proof fn lemma_find_open<CustomTy>(
    open: Seq<TokenView<CustomTy>>,
    name: Seq<u8>,
    any_depth: bool,
)
    ensures
        match find_open(open, name, any_depth) {
            Some(i) => {
                &&& 0 <= i < open.len()
                &&& open[i].is_open(name)
                &&& forall|j: int| i < j < open.len() ==> !(#[trigger] open[j]).is_open(name)
                &&& !any_depth ==> i == open.len() - 1
            },
            None => if any_depth {
                forall|j: int| 0 <= j < open.len() ==> !(#[trigger] open[j]).is_open(name)
            } else {
                open.len() > 0 ==> !open.last().is_open(name)
            },
        },
    decreases open.len(),
{
    if open.len() > 0 && !open.last().is_open(name) && any_depth {
        let below = open.drop_last();
        lemma_find_open(below, name, any_depth);
        match find_open(below, name, any_depth) {
            Some(i) => {
                assert forall|j: int| i < j < open.len() implies !(#[trigger] open[j]).is_open(
                    name,
                ) by {
                    if j < below.len() {
                        assert(below[j] == open[j]);
                    }
                }
            },
            None => {
                assert forall|j: int| 0 <= j < open.len() implies !(#[trigger] open[j]).is_open(
                    name,
                ) by {
                    if j < below.len() {
                        assert(below[j] == open[j]);
                    }
                }
            },
        }
    }
}

/// Tracking keeps the open stack a stack of opening tags, and the closed
/// list a list of opening tags; it leaves the token's span alone; a closing
/// tag that comes out of it with a place recorded points into the closed
/// list.
pub proof fn lemma_tracking_keeps_order<CustomTy>(
    config: ParserConfig,
    open: Seq<TokenView<CustomTy>>,
    closed: Seq<TokenView<CustomTy>>,
    token: TokenView<CustomTy>,
)
    requires
        all_open(open),
        all_open(closed),
    ensures
        all_open(after_tracking(config, open, closed, token).0),
        all_open(after_tracking(config, open, closed, token).1),
        after_tracking(config, open, closed, token).2.span == token.span,
        after_tracking(config, open, closed, token).2.start == token.start,
        match after_tracking(config, open, closed, token).2.kind {
            KindView::CloseBBTag(_, Some(i)) => i < after_tracking(
                config,
                open,
                closed,
                token,
            ).1.len(),
            _ => true,
        },
{
    match token.kind {
        KindView::CloseBBTag(tag, _) => {
            lemma_find_open(open, tag.tag, config.pop_unordered());
        },
        _ => {},
    }
}

/// The place in the open stack of the tag that a closing tag called `name`
/// closes, if it closes one.
pub fn find_open_tag<CustomTy: Clone>(
    open: &Vec<Token<'_, CustomTy>>,
    name: &str,
    any_depth: bool,
) -> (found: Option<usize>)
    ensures
        match found {
            Some(i) => find_open(views(open@), name.spec_bytes(), any_depth) == Some(i as int),
            None => find_open(views(open@), name.spec_bytes(), any_depth) is None,
        },
{
    let mut i: usize = open.len();
    assert(views(open@).subrange(0, i as int) =~= views(open@));
    while i > 0
        invariant
            i <= open@.len(),
            find_open(views(open@), name.spec_bytes(), any_depth) == find_open(
                views(open@).subrange(0, i as int),
                name.spec_bytes(),
                any_depth,
            ),
        decreases i,
    {
        let ghost upto = views(open@).subrange(0, i as int);
        i = i - 1;
        assert(upto.last() == open@[i as int]@);
        assert(upto.drop_last() =~= views(open@).subrange(0, i as int));
        if open[i].is_open(name) {
            return Some(i);
        }
        if !any_depth {
            return None;
        }
    }
    assert(views(open@).subrange(0, 0).len() == 0);
    None
}

/// Tracks `token`: puts an opening tag on the open stack; lets a closing
/// tag close the open tag it matches, or, where it matches none, clears
/// its record or turns it into text as `config` asks.
pub fn track<'a, CustomTy: Clone>(
    config: &ParserConfig,
    open: &mut Vec<Token<'a, CustomTy>>,
    closed: &mut Vec<Token<'a, CustomTy>>,
    token: &mut Token<'a, CustomTy>,
)
    ensures
        (views(final(open)@), views(final(closed)@), final(token)@) == after_tracking(
            *config,
            views(old(open)@),
            views(old(closed)@),
            old(token)@,
        ),
{
    let (name, args) = match &token.kind {
        TokenKind::OpenBBTag(t) => {
            let copy = Token {
                span: token.span,
                start: token.start,
                kind: TokenKind::OpenBBTag(BBTag { tag: t.tag, args: t.args }),
            };
            open.push(copy);
            assert(views(open@) =~= views(old(open)@).push(token@));
            return ;
        },
        TokenKind::CloseBBTag(t, _) => (t.tag, t.args),
        _ => {
            return ;
        },
    };
    let any_depth = config.feature_flags.contains(ParserFeature::pop_unordered());
    match find_open_tag(open, name, any_depth) {
        Some(i) => {
            proof {
                lemma_find_open(views(open@), name.spec_bytes(), any_depth);
            }
            let opening = open.remove(i);
            closed.push(opening);
            token.rewrite_with_opening_tag(closed.len() - 1);
            assert(views(open@) =~= views(old(open)@).remove(i as int));
            assert(views(closed@) =~= views(old(closed)@).push(views(old(open)@)[i as int]));
        },
        None => {
            if config.feature_flags.contains(ParserFeature::unmatched_close_as_text()) {
                token.rewrite_as_text();
            } else {
                token.kind = TokenKind::CloseBBTag(BBTag { tag: name, args }, None);
            }
        },
    }
}

} // verus!
