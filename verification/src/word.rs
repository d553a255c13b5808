//! Digests: words of four field elements, kept as their bytes.

use miden_core::utils::hash_string_to_word;
use miden_core::Word as CoreWord;
use vstd::prelude::*;

verus! {

/// The number of elements of the field: `2^64 - 2^32 + 1`.
pub const FIELD_ORDER: u64 = 0xffff_ffff_0000_0001;

/// The number that `bytes` stand for, the least significant byte first.
pub open spec fn le_value(bytes: Seq<u8>) -> nat
    decreases bytes.len(),
{
    if bytes.len() == 0 {
        0
    } else {
        bytes[0] as nat + 256 * le_value(bytes.drop_first())
    }
}

/// The `count` least significant bytes of `n`, the least significant one first.
pub open spec fn le_bytes(n: nat, count: nat) -> Seq<u8>
    decreases count,
{
    if count == 0 {
        Seq::empty()
    } else {
        seq![(n % 256) as u8] + le_bytes(n / 256, (count - 1) as nat)
    }
}

/// The four elements of a word, eight bytes each, are numbers below the order of the field.
pub open spec fn is_word(bytes: Seq<u8>) -> bool {
    &&& bytes.len() == 32
    &&& le_value(bytes.subrange(0, 8)) < FIELD_ORDER
    &&& le_value(bytes.subrange(8, 16)) < FIELD_ORDER
    &&& le_value(bytes.subrange(16, 24)) < FIELD_ORDER
    &&& le_value(bytes.subrange(24, 32)) < FIELD_ORDER
}

/// The lowercase hexadecimal digit of `n`.
pub open spec fn hex_digit(n: int) -> char {
    if n < 10 {
        ('0' as int + n) as char
    } else {
        ('a' as int + (n - 10)) as char
    }
}

/// Two lowercase hexadecimal digits for each byte.
pub open spec fn hex(bytes: Seq<u8>) -> Seq<char> {
    Seq::new(
        2 * bytes.len(),
        |i: int|
            if i % 2 == 0 {
                hex_digit(bytes[i / 2] as int / 16)
            } else {
                hex_digit(bytes[i / 2] as int % 16)
            },
    )
}

/// How a word is displayed.
pub open spec fn word_text(bytes: Seq<u8>) -> Seq<char> {
    "0x"@ + hex(bytes)
}

/// What `miden_core::utils::hash_string_to_word` returns for a text: the bytes of a word.
pub uninterp spec fn hash_of(text: Seq<char>) -> Seq<u8>;

/// A digest of four field elements.
#[derive(Clone, Copy, Debug, Eq)]
pub struct Word(pub(crate) [u8; 32]);

impl View for Word {
    type V = Seq<u8>;

    closed spec fn view(&self) -> Seq<u8> {
        self.0@
    }
}

impl PartialEq for Word {
    fn eq(&self, other: &Word) -> (equal: bool) {
        let mut i: usize = 0;
        while i < 32
            invariant
                i <= 32,
                forall|j: int| 0 <= j < i ==> self.0@[j] == other.0@[j],
            decreases 32 - i,
        {
            if self.0[i] != other.0[i] {
                return false;
            }
            i += 1;
        }
        assert(self@ =~= other@);
        true
    }
}

impl vstd::std_specs::cmp::PartialEqSpecImpl for Word {
    open spec fn obeys_eq_spec() -> bool {
        true
    }

    open spec fn eq_spec(&self, other: &Word) -> bool {
        self@ == other@
    }
}

proof fn lemma_le_value_bound(bytes: Seq<u8>)
    requires
        bytes.len() <= 8,
    ensures
        bytes.len() <= 7 ==> le_value(bytes) < 0x100_0000_0000_0000,
        le_value(bytes) < 0x1_0000_0000_0000_0000,
{
    reveal_with_fuel(le_value, 9);
}

/// The number that the eight bytes from `start` on stand for.
fn le_u64(bytes: &[u8; 32], start: usize) -> (value: u64)
    requires
        start <= 24,
    ensures
        value == le_value(bytes@.subrange(start as int, start + 8)),
{
    let mut value: u64 = 0;
    let mut left: usize = 8;
    assert(bytes@.subrange(start + 8, start + 8) =~= Seq::<u8>::empty());
    while left > 0
        invariant
            start <= 24,
            left <= 8,
            value == le_value(bytes@.subrange(start + left, start + 8)),
        decreases left,
    {
        let ghost tail = bytes@.subrange(start + left, start + 8);
        left -= 1;
        proof {
            lemma_le_value_bound(tail);
            assert(bytes@.subrange(start + left, start + 8).drop_first() =~= tail);
        }
        value = value * 256 + bytes[start + left] as u64;
    }
    value
}

impl Word {
    #[verifier::type_invariant]
    spec fn canonical(self) -> bool {
        is_word(self.0@)
    }

    /// The word with these bytes, if each of its four elements is below the order of the field.
    pub fn from_bytes(bytes: [u8; 32]) -> (word: Option<Word>)
        ensures
            word is Some <==> is_word(bytes@),
            word matches Some(w) ==> w@ == bytes@,
    {
        if le_u64(&bytes, 0) < FIELD_ORDER && le_u64(&bytes, 8) < FIELD_ORDER && le_u64(&bytes, 16)
            < FIELD_ORDER && le_u64(&bytes, 24) < FIELD_ORDER {
            Some(Word(bytes))
        } else {
            None
        }
    }

    /// The bytes of the word.
    pub fn as_bytes(&self) -> (bytes: [u8; 32])
        ensures
            bytes@ == self@,
            is_word(bytes@),
    {
        proof {
            use_type_invariant(self);
        }
        self.0
    }

    /// `miden_core::Word::to_string`: `0x` and two lowercase hexadecimal digits for each byte.
    #[verifier::external_body]
    pub(crate) fn text(&self) -> (text: String)
        ensures
            text@ == word_text(self@),
    {
        CoreWord::try_from(self.0).unwrap().to_string()
    }
}

/// `miden_core::utils::hash_string_to_word`: the digest of a text. The digest is a function of
/// the text alone.
#[verifier::external_body]
pub(crate) fn hash_text(text: &str) -> (word: Word)
    ensures
        word@ == hash_of(text@),
{
    Word(hash_string_to_word(text).as_bytes())
}

} // verus!
