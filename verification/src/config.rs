//! What can be switched on in a parser.

use vstd::prelude::*;

verus! {

/// A set of parser features, one bit each.
#[derive(Debug, Clone, Copy, PartialEq, Eq, Hash)]
pub struct ParserFeature {
    bits: u32,
}

/// Configuration of a parser: the features that are switched on.
#[derive(Debug, Clone, Copy)]
pub struct ParserConfig {
    /// Feature flags for this configuration.
    pub feature_flags: ParserFeature,
}

impl View for ParserFeature {
    type V = u32;

    closed spec fn view(&self) -> u32 {
        self.bits
    }
}

impl ParserFeature {
    /// The bit of the feature that lets tags be closed out of order.
    pub const POP_UNORDERED: u32 = 0x2;

    /// The bit of the feature that turns close tags that close nothing into
    /// text, instead of keeping the token.
    pub const UNMATCHED_CLOSE_AS_TEXT: u32 = 0x4;

    /// The bits of all compatibility features of the first major version.
    pub const V1: u32 = 0x6;

    /// The bits of all current and future feature flags.
    pub const ALL: u32 = 0xFFFF_FFFF;

    /// The set without any feature.
    pub closed spec fn empty_spec() -> ParserFeature {
        ParserFeature { bits: 0 }
    }

    /// Whether every feature of `other` is in `self`.
    pub open spec fn has(self, other: ParserFeature) -> bool {
        self.has_bits(other@)
    }

    /// Whether every one of `bits` is set in `self`.
    pub open spec fn has_bits(self, bits: u32) -> bool {
        self@ & bits == bits
    }

    /// Allow tags to be closed out of order.
    pub fn pop_unordered() -> (r: ParserFeature)
        ensures
            r@ == ParserFeature::POP_UNORDERED,
    {
        ParserFeature { bits: ParserFeature::POP_UNORDERED }
    }

    /// Turn close tags that close nothing into text, instead of keeping the token.
    pub fn unmatched_close_as_text() -> (r: ParserFeature)
        ensures
            r@ == ParserFeature::UNMATCHED_CLOSE_AS_TEXT,
    {
        ParserFeature { bits: ParserFeature::UNMATCHED_CLOSE_AS_TEXT }
    }

    /// All compatibility features of the first major version.
    pub fn v1() -> (r: ParserFeature)
        ensures
            r@ == ParserFeature::V1,
    {
        ParserFeature { bits: ParserFeature::V1 }
    }

    /// The set without any feature.
    pub fn empty() -> (r: ParserFeature)
        ensures
            r == ParserFeature::empty_spec(),
            r@ == 0,
    {
        ParserFeature { bits: 0 }
    }

    /// All current and future feature flags.
    pub fn all() -> (r: ParserFeature)
        ensures
            r@ == ParserFeature::ALL,
    {
        ParserFeature { bits: ParserFeature::ALL }
    }

    /// The set as bits.
    pub fn bits(&self) -> (r: u32)
        ensures
            r == self@,
    {
        self.bits
    }

    /// The set that holds exactly the given bits.
    pub fn from_bits_retain(bits: u32) -> (r: ParserFeature)
        ensures
            r@ == bits,
    {
        ParserFeature { bits }
    }

    /// Whether every feature of `other` is in `self`.
    pub fn contains(&self, other: ParserFeature) -> (r: bool)
        ensures
            r == self.has(other),
    {
        self.bits & other.bits == other.bits
    }

    /// The features of `self` together with those of `other`.
    pub fn union(self, other: ParserFeature) -> (r: ParserFeature)
        ensures
            r@ == self@ | other@,
            r.has(self),
            r.has(other),
    {
        let a: u32 = self.bits;
        let b: u32 = other.bits;
        assert((a | b) & a == a) by (bit_vector);
        assert((a | b) & b == b) by (bit_vector);
        ParserFeature { bits: a | b }
    }
}

impl Default for ParserFeature {
    fn default() -> (r: ParserFeature)
        ensures
            r == ParserFeature::empty_spec(),
            r@ == 0,
    {
        ParserFeature { bits: 0 }
    }
}

impl Default for ParserConfig {
    fn default() -> (r: ParserConfig)
        ensures
            r == ParserConfig::default_spec(),
            r.feature_flags@ == 0,
    {
        ParserConfig { feature_flags: ParserFeature { bits: 0 } }
    }
}

impl ParserConfig {
    /// The configuration with no feature switched on.
    pub open spec fn default_spec() -> ParserConfig {
        ParserConfig { feature_flags: ParserFeature::empty_spec() }
    }

    /// Whether a close tag may close an open tag below the innermost one.
    pub open spec fn pop_unordered(self) -> bool {
        self.feature_flags.has_bits(ParserFeature::POP_UNORDERED)
    }

    /// Whether a close tag that closes nothing becomes text.
    pub open spec fn unmatched_close_as_text(self) -> bool {
        self.feature_flags.has_bits(ParserFeature::UNMATCHED_CLOSE_AS_TEXT)
    }
}

/// The versioned bundle holds both of the features it is made of, neither of
/// which holds the other, and the empty set holds none.
pub proof fn lemma_feature_bits(set: ParserFeature)
    ensures
        set@ == ParserFeature::V1 ==> set.has_bits(ParserFeature::POP_UNORDERED) && set.has_bits(
            ParserFeature::UNMATCHED_CLOSE_AS_TEXT,
        ),
        set@ == ParserFeature::ALL ==> set.has_bits(ParserFeature::V1),
        set@ == ParserFeature::POP_UNORDERED ==> set.has_bits(ParserFeature::POP_UNORDERED)
            && !set.has_bits(ParserFeature::UNMATCHED_CLOSE_AS_TEXT),
        set@ == ParserFeature::UNMATCHED_CLOSE_AS_TEXT ==> !set.has_bits(
            ParserFeature::POP_UNORDERED,
        ) && set.has_bits(ParserFeature::UNMATCHED_CLOSE_AS_TEXT),
        set@ == 0 ==> !set.has_bits(ParserFeature::POP_UNORDERED) && !set.has_bits(
            ParserFeature::UNMATCHED_CLOSE_AS_TEXT,
        ),
{
    assert(6u32 & 2u32 == 2u32) by (bit_vector);
    assert(6u32 & 4u32 == 4u32) by (bit_vector);
    assert(0xFFFF_FFFFu32 & 6u32 == 6u32) by (bit_vector);
    assert(2u32 & 2u32 == 2u32) by (bit_vector);
    assert(4u32 & 4u32 == 4u32) by (bit_vector);
    assert(2u32 & 4u32 != 4u32) by (bit_vector);
    assert(4u32 & 2u32 != 2u32) by (bit_vector);
    assert(0u32 & 2u32 != 2u32) by (bit_vector);
    assert(0u32 & 4u32 != 4u32) by (bit_vector);
}

} // verus!
