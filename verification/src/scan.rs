//! The grammar: what token starts at a given byte of the input.
//!
//! At a byte other than `[`, text runs up to the next `[` or the end. At a
//! `[`, a tag runs through the next `]`, unless there is none, in which case
//! all that is left is text, or unless another `[` comes first, in which
//! case the text runs up to that one.

use crate::text::{
    find_byte, find_separator, first_at, first_separator, lemma_boundary_after_ascii,
    lemma_first_at, lemma_first_separator, slice, trim_text, trimmed_bytes, SLASH, TAG_CLOSE,
    TAG_OPEN,
};
use crate::token::{BBTag, KindView, TagView, Token, TokenKind, TokenView};
use vstd::prelude::*;
use vstd::string::StringSliceAdditionalSpecFns;
use vstd::utf8::*;

verus! {

/// The kind of the tag whose brackets hold `body`, white space already
/// taken off both ends.
///
/// The name ends before the first `=` or space; the arguments start there. A
/// name that starts with `/` makes a closing tag. Otherwise a `/` at the very
/// end makes a standalone tag, and anything else an opening tag.
pub open spec fn kind_of<CustomTy>(body: Seq<u8>) -> KindView<CustomTy> {
    let cut = first_separator(body, 0);
    let name = body.subrange(0, cut);
    let args = body.subrange(cut, body.len() as int);
    if name.len() > 0 && name[0] == SLASH {
        KindView::CloseBBTag(TagView { tag: name.subrange(1, name.len() as int), args }, None)
    } else if body.len() > 0 && body.last() == SLASH {
        if cut < body.len() {
            KindView::StandaloneBBTag(TagView { tag: name, args: args.drop_last() })
        } else {
            KindView::StandaloneBBTag(TagView { tag: name.drop_last(), args })
        }
    } else {
        KindView::OpenBBTag(TagView { tag: name, args })
    }
}

/// Where the `]` of a tag that opens at `at` stands, or the length of
/// `bytes` where no `]` follows.
pub open spec fn tag_end(bytes: Seq<u8>, at: int) -> int {
    first_at(bytes, at + 1, TAG_CLOSE)
}

/// What stands between the brackets of a tag that opens at `at`, without
/// the white space around it.
pub open spec fn tag_body(bytes: Seq<u8>, at: int) -> Seq<u8> {
    trimmed_bytes(bytes.subrange(at + 1, tag_end(bytes, at)))
}

/// Whether a tag starts at `at`: a `[` stands there, a `]` follows, and no
/// further `[` comes before that `]`.
pub open spec fn tag_at(bytes: Seq<u8>, at: int) -> bool {
    &&& bytes[at] == TAG_OPEN
    &&& tag_end(bytes, at) < first_at(bytes, at + 1, TAG_OPEN)
}

/// Where the text that starts at `at` ends: at the end of the input for a
/// `[` that no `]` follows, else before the next `[`.
pub open spec fn text_end(bytes: Seq<u8>, at: int) -> int {
    if bytes[at] == TAG_OPEN && tag_end(bytes, at) >= bytes.len() {
        bytes.len() as int
    } else {
        first_at(bytes, at + 1, TAG_OPEN)
    }
}

/// Where the token that starts at `at` ends.
pub open spec fn token_end(bytes: Seq<u8>, at: int) -> int {
    if tag_at(bytes, at) {
        tag_end(bytes, at) + 1
    } else {
        text_end(bytes, at)
    }
}

/// The token that starts at `at`, before any rule or tag tracking has seen it.
pub open spec fn raw_token<CustomTy>(bytes: Seq<u8>, at: nat) -> TokenView<CustomTy> {
    TokenView {
        span: bytes.subrange(at as int, token_end(bytes, at as int)),
        start: at,
        kind: if tag_at(bytes, at as int) {
            kind_of(tag_body(bytes, at as int))
        } else {
            KindView::Text
        },
    }
}

/// A token is never empty and never runs past the end of the input. A tag
/// runs from its `[` through its `]` and holds no other bracket. Text ends
/// at the end of the input or before a `[`.
pub proof fn lemma_token_end(bytes: Seq<u8>, at: int)
    requires
        0 <= at < bytes.len(),
    ensures
        at < token_end(bytes, at) <= bytes.len(),
        tag_at(bytes, at) ==> {
            &&& bytes[at] == TAG_OPEN
            &&& bytes[token_end(bytes, at) - 1] == TAG_CLOSE
            &&& forall|i: int|
                at < i < token_end(bytes, at) - 1 ==> bytes[i] != TAG_OPEN && bytes[i] != TAG_CLOSE
        },
        !tag_at(bytes, at) && token_end(bytes, at) < bytes.len() ==> bytes[token_end(bytes, at)]
            == TAG_OPEN,
{
    lemma_first_at(bytes, at + 1, TAG_CLOSE);
    lemma_first_at(bytes, at + 1, TAG_OPEN);
}

/// A token that starts on a character boundary ends on one.
pub proof fn lemma_token_end_is_boundary(bytes: Seq<u8>, at: int)
    requires
        valid_utf8(bytes),
        0 <= at < bytes.len(),
    ensures
        is_char_boundary(bytes, token_end(bytes, at)),
{
    lemma_first_at(bytes, at + 1, TAG_CLOSE);
    lemma_first_at(bytes, at + 1, TAG_OPEN);
    is_char_boundary_start_end_of_seq(bytes);
    let end = token_end(bytes, at);
    if tag_at(bytes, at) {
        lemma_boundary_after_ascii(bytes, end - 1);
    } else if end < bytes.len() {
        lemma_boundary_after_ascii(bytes, end);
    }
}

/// A `[` that no `]` follows opens no tag: all that is left of the input is
/// one piece of text.
pub proof fn lemma_unterminated_tag_is_text<CustomTy>(bytes: Seq<u8>, at: nat)
    requires
        at < bytes.len(),
        bytes[at as int] == TAG_OPEN,
        forall|i: int| at < i < bytes.len() ==> bytes[i] != TAG_CLOSE,
    ensures
        raw_token::<CustomTy>(bytes, at) == (TokenView::<CustomTy> {
            span: bytes.subrange(at as int, bytes.len() as int),
            start: at,
            kind: KindView::Text,
        }),
{
    lemma_first_at(bytes, at as int + 1, TAG_CLOSE);
    lemma_first_at(bytes, at as int + 1, TAG_OPEN);
}

/// Text without any `[` is one token: from a byte at which no `[` follows,
/// the token that starts there is text and runs to the end of the input.
pub proof fn lemma_plain_text_is_one_token<CustomTy>(bytes: Seq<u8>, at: nat)
    requires
        at < bytes.len(),
        forall|i: int| at <= i < bytes.len() ==> bytes[i] != TAG_OPEN,
    ensures
        raw_token::<CustomTy>(bytes, at) == (TokenView::<CustomTy> {
            span: bytes.subrange(at as int, bytes.len() as int),
            start: at,
            kind: KindView::Text,
        }),
{
    lemma_first_at(bytes, at as int + 1, TAG_OPEN);
}

/// The kind of the tag whose brackets hold `body`, white space already
/// taken off both ends.
pub fn classify<'a, CustomTy>(body: &'a str) -> (kind: TokenKind<'a, CustomTy>)
    ensures
        kind@ == kind_of::<CustomTy>(body.spec_bytes()),
{
    let bytes = body.as_bytes();
    let n = bytes.len();
    let cut = find_separator(bytes);
    proof {
        encode_utf8_valid_utf8(body@);
        lemma_first_separator(bytes@, 0);
        is_char_boundary_start_end_of_seq(bytes@);
        if cut < n {
            lemma_boundary_after_ascii(bytes@, cut as int);
        }
    }
    let args = slice(body, cut, n);
    if cut > 0 && bytes[0] == SLASH {
        proof {
            lemma_boundary_after_ascii(bytes@, 0);
        }
        let tag = slice(body, 1, cut);
        assert(tag.spec_bytes() =~= bytes@.subrange(0, cut as int).subrange(1, cut as int));
        TokenKind::CloseBBTag(BBTag { tag, args }, None)
    } else if n > 0 && bytes[n - 1] == SLASH {
        proof {
            lemma_boundary_after_ascii(bytes@, n - 1);
        }
        if cut < n {
            let tag = slice(body, 0, cut);
            let args = slice(body, cut, n - 1);
            assert(args.spec_bytes() =~= bytes@.subrange(cut as int, n as int).drop_last());
            TokenKind::StandaloneBBTag(BBTag { tag, args })
        } else {
            let tag = slice(body, 0, n - 1);
            assert(tag.spec_bytes() =~= bytes@.subrange(0, n as int).drop_last());
            TokenKind::StandaloneBBTag(BBTag { tag, args })
        }
    } else {
        let tag = slice(body, 0, cut);
        TokenKind::OpenBBTag(BBTag { tag, args })
    }
}

/// The token that starts at byte `at` of `input`, before any rule or tag
/// tracking has seen it.
pub fn scan<'a, CustomTy: Clone>(input: &'a str, at: usize) -> (token: Token<'a, CustomTy>)
    requires
        at < input.spec_bytes().len(),
        is_char_boundary(input.spec_bytes(), at as int),
    ensures
        token@ == raw_token::<CustomTy>(input.spec_bytes(), at as nat),
        at < token@.end() <= input.spec_bytes().len(),
        is_char_boundary(input.spec_bytes(), token@.end() as int),
{
    let bytes = input.as_bytes();
    let n = bytes.len();
    proof {
        encode_utf8_valid_utf8(input@);
        is_char_boundary_start_end_of_seq(bytes@);
        lemma_first_at(bytes@, at + 1, TAG_CLOSE);
        lemma_first_at(bytes@, at + 1, TAG_OPEN);
    }
    let stop = find_byte(bytes, at + 1, TAG_OPEN);
    if bytes[at] == TAG_OPEN {
        let close = find_byte(bytes, at + 1, TAG_CLOSE);
        if close >= n {
            let span = slice(input, at, n);
            return Token { span, start: at, kind: TokenKind::Text };
        }
        if close < stop {
            proof {
                lemma_boundary_after_ascii(bytes@, at as int);
                lemma_boundary_after_ascii(bytes@, close as int);
            }
            let body = trim_text(slice(input, at + 1, close));
            let span = slice(input, at, close + 1);
            return Token { span, start: at, kind: classify(body) };
        }
    }
    proof {
        if stop < n {
            lemma_boundary_after_ascii(bytes@, stop as int);
        }
    }
    let span = slice(input, at, stop);
    Token { span, start: at, kind: TokenKind::Text }
}

} // verus!
