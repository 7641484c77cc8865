//! Byte-level reading of UTF-8 text: searching, slicing on character
//! boundaries, ASCII case folding and whitespace trimming.

use vstd::prelude::*;
use vstd::string::StringSliceAdditionalSpecFns;
use vstd::utf8::*;

verus! {

/// The byte that opens a tag, `[`.
pub const TAG_OPEN: u8 = 0x5B;

/// The byte that closes a tag, `]`.
pub const TAG_CLOSE: u8 = 0x5D;

/// The byte that marks a closing or a standalone tag, `/`.
pub const SLASH: u8 = 0x2F;

/// The byte `=`, which may part a tag's name from its arguments.
pub const EQUALS: u8 = 0x3D;

/// The byte of a plain space, which may part a tag's name from its arguments.
pub const SPACE: u8 = 0x20;

/// The position of the first byte equal to `b` at or after `from`, or the
/// length of `bytes` where there is none.
pub open spec fn first_at(bytes: Seq<u8>, from: int, b: u8) -> int
    decreases bytes.len() - from,
{
    if from < 0 || from >= bytes.len() {
        bytes.len() as int
    } else if bytes[from] == b {
        from
    } else {
        first_at(bytes, from + 1, b)
    }
}

/// Whether `b` parts a tag's name from its arguments.
pub open spec fn is_separator(b: u8) -> bool {
    b == EQUALS || b == SPACE
}

/// The position of the first separator in `bytes` at or after `from`, or the
/// length of `bytes` where there is none.
pub open spec fn first_separator(bytes: Seq<u8>, from: int) -> int
    decreases bytes.len() - from,
{
    if from < 0 || from >= bytes.len() {
        bytes.len() as int
    } else if is_separator(bytes[from]) {
        from
    } else {
        first_separator(bytes, from + 1)
    }
}

/// `b` with an ASCII capital letter replaced by its small letter.
pub open spec fn fold(b: u8) -> u8 {
    if 0x41 <= b <= 0x5A {
        (b + 0x20) as u8
    } else {
        b
    }
}

/// Whether `a` and `b` are the same text up to the case of ASCII letters.
pub open spec fn fold_eq(a: Seq<u8>, b: Seq<u8>) -> bool {
    &&& a.len() == b.len()
    &&& forall|i: int| 0 <= i < a.len() ==> fold(#[trigger] a[i]) == fold(b[i])
}

/// What `first_at` returns, said without recursion: no `b` lies between
/// `from` and the result, and the result is the end or holds `b`.
pub proof fn lemma_first_at(bytes: Seq<u8>, from: int, b: u8)
    requires
        0 <= from <= bytes.len(),
    ensures
        from <= first_at(bytes, from, b) <= bytes.len(),
        first_at(bytes, from, b) < bytes.len() ==> bytes[first_at(bytes, from, b)] == b,
        forall|i: int| from <= i < first_at(bytes, from, b) ==> bytes[i] != b,
    decreases bytes.len() - from,
{
    if from < bytes.len() && bytes[from] != b {
        lemma_first_at(bytes, from + 1, b);
    }
}

/// What `first_separator` returns, said without recursion.
pub proof fn lemma_first_separator(bytes: Seq<u8>, from: int)
    requires
        0 <= from <= bytes.len(),
    ensures
        from <= first_separator(bytes, from) <= bytes.len(),
        first_separator(bytes, from) < bytes.len() ==> is_separator(
            bytes[first_separator(bytes, from)],
        ),
        forall|i: int| from <= i < first_separator(bytes, from) ==> !is_separator(bytes[i]),
    decreases bytes.len() - from,
{
    if from < bytes.len() && !is_separator(bytes[from]) {
        lemma_first_separator(bytes, from + 1);
    }
}

/// Folding is an equivalence: a match holds in both directions.
pub proof fn lemma_fold_eq_symmetric(a: Seq<u8>, b: Seq<u8>)
    requires
        fold_eq(a, b),
    ensures
        fold_eq(b, a),
{
    assert forall|i: int| 0 <= i < b.len() implies fold(#[trigger] b[i]) == fold(a[i]) by {
        assert(fold(a[i]) == fold(b[i]));
    }
}

/// Folding is an equivalence: two texts that match a third match each other.
pub proof fn lemma_fold_eq_transitive(a: Seq<u8>, b: Seq<u8>, c: Seq<u8>)
    requires
        fold_eq(a, b),
        fold_eq(b, c),
    ensures
        fold_eq(a, c),
{
    assert forall|i: int| 0 <= i < a.len() implies fold(#[trigger] a[i]) == fold(c[i]) by {
        assert(fold(a[i]) == fold(b[i]));
        assert(fold(b[i]) == fold(c[i]));
    }
}

/// A position up to which the bytes are themselves valid UTF-8 is a
/// character boundary.
pub proof fn lemma_boundary_from_prefix(bytes: Seq<u8>, k: int)
    requires
        valid_utf8(bytes),
        0 <= k <= bytes.len(),
        valid_utf8(bytes.subrange(0, k)),
    ensures
        is_char_boundary(bytes, k),
    decreases bytes.len(),
{
    if k != 0 {
        let head = bytes.subrange(0, k);
        let width = length_of_first_scalar(bytes);
        assert(head[0] == bytes[0]);
        assert(length_of_first_scalar(head) == width);
        assert(valid_first_scalar(head));
        let rest = pop_first_scalar(bytes);
        assert(pop_first_scalar(head) =~= rest.subrange(0, k - width));
        lemma_boundary_from_prefix(rest, k - width);
    }
}

/// The position after an ASCII byte that starts a character is a character
/// boundary too.
pub proof fn lemma_boundary_after_ascii(bytes: Seq<u8>, i: int)
    requires
        valid_utf8(bytes),
        0 <= i < bytes.len(),
        bytes[i] < 0x80,
    ensures
        is_char_boundary(bytes, i),
        is_char_boundary(bytes, i + 1),
{
    is_char_boundary_iff_not_is_continuation_byte(bytes, i);
    valid_utf8_split(bytes, i);
    let head = bytes.subrange(0, i);
    let tail = bytes.subrange(i, bytes.len() as int);
    assert(tail[0] == bytes[i]);
    assert(is_leading_byte_width_1(tail[0]));
    let one = tail.subrange(0, 1);
    assert(valid_first_scalar(one)) by {
        assert(one[0] == tail[0]);
    }
    assert(pop_first_scalar(one) =~= Seq::<u8>::empty());
    assert(valid_utf8(one)) by {
        reveal_with_fuel(valid_utf8, 2);
    }
    valid_utf8_concat(head, one);
    assert(head + one =~= bytes.subrange(0, i + 1));
    lemma_boundary_from_prefix(bytes, i + 1);
}

/// Between two character boundaries lies valid UTF-8, and a boundary of the
/// whole that falls in the part is a boundary of the part.
pub proof fn lemma_boundary_in_part(bytes: Seq<u8>, from: int, at: int, to: int)
    requires
        valid_utf8(bytes),
        0 <= from <= at <= to <= bytes.len(),
        is_char_boundary(bytes, from),
        is_char_boundary(bytes, at),
        is_char_boundary(bytes, to),
    ensures
        valid_utf8(bytes.subrange(from, to)),
        is_char_boundary(bytes.subrange(from, to), at - from),
{
    let head = bytes.subrange(0, to);
    valid_utf8_split(bytes, to);
    assert(is_char_boundary(head, from)) by {
        if from < to {
            is_char_boundary_iff_not_is_continuation_byte(bytes, from);
            is_char_boundary_iff_not_is_continuation_byte(head, from);
        } else {
            is_char_boundary_start_end_of_seq(head);
        }
    }
    valid_utf8_split(head, from);
    let part = bytes.subrange(from, to);
    assert(head.subrange(from, head.len() as int) =~= part);
    if at < to {
        is_char_boundary_iff_not_is_continuation_byte(bytes, at);
        is_char_boundary_iff_not_is_continuation_byte(part, at - from);
    } else {
        is_char_boundary_start_end_of_seq(part);
    }
}

/// The position of the first `b` in `bytes` at or after `from`, or the length
/// of `bytes`.
pub fn find_byte(bytes: &[u8], from: usize, b: u8) -> (at: usize)
    requires
        from <= bytes@.len(),
    ensures
        at == first_at(bytes@, from as int, b),
        from <= at <= bytes@.len(),
{
    let mut i: usize = from;
    while i < bytes.len() && bytes[i] != b
        invariant
            from <= i <= bytes@.len(),
            first_at(bytes@, from as int, b) == first_at(bytes@, i as int, b),
        decreases bytes@.len() - i,
    {
        i = i + 1;
    }
    i
}

/// The position of the first separator in `bytes`, or the length of `bytes`.
pub fn find_separator(bytes: &[u8]) -> (at: usize)
    ensures
        at == first_separator(bytes@, 0),
        at <= bytes@.len(),
{
    let mut i: usize = 0;
    while i < bytes.len() && bytes[i] != EQUALS && bytes[i] != SPACE
        invariant
            i <= bytes@.len(),
            first_separator(bytes@, 0) == first_separator(bytes@, i as int),
        decreases bytes@.len() - i,
    {
        i = i + 1;
    }
    i
}

/// `b` with an ASCII capital letter replaced by its small letter.
pub fn fold_byte(b: u8) -> (r: u8)
    ensures
        r == fold(b),
{
    if 0x41 <= b && b <= 0x5A {
        b + 0x20
    } else {
        b
    }
}

/// Whether `a` and `b` are the same text up to the case of ASCII letters.
pub fn eq_ignore_case(a: &str, b: &str) -> (same: bool)
    ensures
        same == fold_eq(a.spec_bytes(), b.spec_bytes()),
{
    let x = a.as_bytes();
    let y = b.as_bytes();
    if x.len() != y.len() {
        return false;
    }
    let mut i: usize = 0;
    while i < x.len()
        invariant
            x@ == a.spec_bytes(),
            y@ == b.spec_bytes(),
            x@.len() == y@.len(),
            i <= x@.len(),
            forall|j: int| 0 <= j < i ==> fold(#[trigger] x@[j]) == fold(y@[j]),
        decreases x@.len() - i,
    {
        if fold_byte(x[i]) != fold_byte(y[i]) {
            assert(fold(x@[i as int]) != fold(y@[i as int]));
            return false;
        }
        i = i + 1;
    }
    true
}

/// The length of `s` in bytes.
pub fn byte_len(s: &str) -> (n: usize)
    ensures
        n == s.spec_bytes().len(),
{
    s.as_bytes().len()
}

/// The part of `s` from byte `from` up to, not including, byte `to`.
pub fn slice<'a>(s: &'a str, from: usize, to: usize) -> (part: &'a str)
    requires
        from <= to <= s.spec_bytes().len(),
        is_char_boundary(s.spec_bytes(), from as int),
        is_char_boundary(s.spec_bytes(), to as int),
    ensures
        part.spec_bytes() == s.spec_bytes().subrange(from as int, to as int),
{
    proof {
        encode_utf8_valid_utf8(s@);
        lemma_boundary_in_part(s.spec_bytes(), 0, from as int, to as int);
    }
    let (head, _) = s.split_at(to);
    let (_, part) = head.split_at(from);
    assert(part.spec_bytes() =~= s.spec_bytes().subrange(from as int, to as int));
    part
}

/// Whether a character is white space in the sense of Unicode's
/// `White_Space` property, by which `str::trim` goes.
pub uninterp spec fn white_space(c: char) -> bool;

/// `s` without the white space it starts with.
pub open spec fn skip_leading(s: Seq<char>) -> Seq<char>
    decreases s.len(),
{
    if s.len() > 0 && white_space(s[0]) {
        skip_leading(s.drop_first())
    } else {
        s
    }
}

/// `s` without the white space it ends with.
pub open spec fn skip_trailing(s: Seq<char>) -> Seq<char>
    decreases s.len(),
{
    if s.len() > 0 && white_space(s.last()) {
        skip_trailing(s.drop_last())
    } else {
        s
    }
}

/// `s` without the white space around it.
pub open spec fn trimmed(s: Seq<char>) -> Seq<char> {
    skip_trailing(skip_leading(s))
}

/// The bytes of a text without the white space around it.
pub open spec fn trimmed_bytes(bytes: Seq<u8>) -> Seq<u8> {
    encode_utf8(trimmed(decode_utf8(bytes)))
}

/// Calls `str::trim`, which hands back the part of `s` that is left when the
/// white space at both ends is taken away. Believed, not proved: that the
/// result is `s` from its first character outside `White_Space` through its
/// last one, so that it neither starts nor ends with white space.
#[verifier::external_body]
pub(crate) fn trim<'a>(s: &'a str) -> (part: &'a str)
    ensures
        part@ == trimmed(s@),
        part@.len() > 0 ==> !white_space(part@.first()) && !white_space(part@.last()),
{
    s.trim()
}

/// The text of `s` without the white space around it.
pub fn trim_text<'a>(s: &'a str) -> (part: &'a str)
    ensures
        part.spec_bytes() == trimmed_bytes(s.spec_bytes()),
        part@ == trimmed(s@),
{
    broadcast use encode_utf8_decode_utf8;

    trim(s)
}

} // verus!
