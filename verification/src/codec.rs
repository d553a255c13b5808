//! The byte format of primitive values: integers of variable length, strings, words and flags.

use miden_core::serde::{ByteReader, Deserializable, DeserializationError, Serializable, SliceReader};
use miden_core::Word as CoreWord;
use vstd::arithmetic::power2::*;
use vstd::prelude::*;
use vstd::utf8::*;

use crate::text;
use crate::word;
use crate::word::{Word, FIELD_ORDER};

verus! {

/// A reader of a byte slice, which keeps its position.
#[verifier::external_type_specification]
#[verifier::external_body]
pub struct ExSliceReader<'a>(SliceReader<'a>);

/// The bytes that a reader has not read yet.
pub uninterp spec fn unread(reader: SliceReader<'_>) -> Seq<u8>;

/// The text of the error with which `String::from_utf8` refuses bytes that are not UTF-8.
pub uninterp spec fn utf8_error_text(bytes: Seq<u8>) -> Seq<char>;

/// Why bytes could not be decoded.
#[derive(Debug)]
pub enum DecodeError {
    /// The bytes end too early.
    UnexpectedEof,
    /// The bytes stand for no value.
    InvalidValue(String),
    /// Any other reason.
    Unknown(String),
}

/// The mathematical counterpart of [`DecodeError`].
pub enum DecodeErrorView {
    UnexpectedEof,
    InvalidValue(Seq<char>),
    Unknown(Seq<char>),
}

impl View for DecodeError {
    type V = DecodeErrorView;

    open spec fn view(&self) -> DecodeErrorView {
        match self {
            DecodeError::UnexpectedEof => DecodeErrorView::UnexpectedEof,
            DecodeError::InvalidValue(message) => DecodeErrorView::InvalidValue(message@),
            DecodeError::Unknown(message) => DecodeErrorView::Unknown(message@),
        }
    }
}

impl DecodeErrorView {
    /// The message of the error.
    pub open spec fn text(self) -> Seq<char> {
        match self {
            DecodeErrorView::UnexpectedEof => "unexpected end of file"@,
            DecodeErrorView::InvalidValue(message) => "invalid value: "@ + message,
            DecodeErrorView::Unknown(message) => "unknown error: "@ + message,
        }
    }
}

impl DecodeError {
    /// The message of the error.
    pub fn message(&self) -> (text: String)
        ensures
            text@ == self@.text(),
    {
        match self {
            DecodeError::UnexpectedEof => "unexpected end of file".to_string(),
            DecodeError::InvalidValue(message) => "invalid value: ".to_string().concat(message),
            DecodeError::Unknown(message) => "unknown error: ".to_string().concat(message),
        }
    }
}

/// A decoded value with the bytes behind it, or the reason why there is none.
pub type Decoded<T> = Result<(T, Seq<u8>), DecodeErrorView>;

/// The number of bytes that encode the integer `n`: seven bits of it for each byte, up to eight
/// bytes, and nine bytes for what does not fit.
pub open spec fn integer_size(n: nat) -> nat {
    if n < pow2(7) {
        1
    } else if n < pow2(14) {
        2
    } else if n < pow2(21) {
        3
    } else if n < pow2(28) {
        4
    } else if n < pow2(35) {
        5
    } else if n < pow2(42) {
        6
    } else if n < pow2(49) {
        7
    } else if n < pow2(56) {
        8
    } else {
        9
    }
}

/// The encoding of an integer below `2^64`. The lowest bits of the first byte tell its size: as
/// many zeros as bytes follow, and behind them a one.
pub open spec fn integer_encoding(n: nat) -> Seq<u8> {
    let size = integer_size(n);
    if size == 9 {
        seq![0u8] + word::le_bytes(n, 8)
    } else {
        word::le_bytes((2 * n + 1) * pow2((size - 1) as nat), size)
    }
}

/// The size of the encoding that begins with `first`.
pub open spec fn encoded_size(first: u8) -> nat {
    if first % 2 == 1 {
        1
    } else if first % 4 == 2 {
        2
    } else if first % 8 == 4 {
        3
    } else if first % 16 == 8 {
        4
    } else if first % 32 == 16 {
        5
    } else if first % 64 == 32 {
        6
    } else if first % 128 == 64 {
        7
    } else if first == 128 {
        8
    } else {
        9
    }
}

/// The integer at the beginning of `bytes`.
pub open spec fn read_integer(bytes: Seq<u8>) -> Decoded<nat> {
    if bytes.len() == 0 || bytes.len() < encoded_size(bytes[0]) {
        Err(DecodeErrorView::UnexpectedEof)
    } else {
        let size = encoded_size(bytes[0]);
        let n = if size == 9 {
            word::le_value(bytes.subrange(1, 9))
        } else {
            word::le_value(bytes.take(size as int)) / pow2(size)
        };
        if n > usize::MAX {
            Err(
                DecodeErrorView::InvalidValue(
                    "Encoded value must be less than "@ + text::decimal(usize::MAX as nat) + ", but "@
                        + text::decimal(n) + " was provided"@,
                ),
            )
        } else {
            Ok((n, bytes.skip(size as int)))
        }
    }
}

/// The encoding of a string: the length of its UTF-8 encoding, and that encoding.
pub open spec fn string_encoding(text: Seq<char>) -> Seq<u8> {
    integer_encoding(encode_utf8(text).len()) + encode_utf8(text)
}

/// The length at the beginning of `bytes`, and as many bytes.
#[verifier::opaque]
pub open spec fn read_bytes_value(bytes: Seq<u8>) -> Decoded<Seq<u8>> {
    match read_integer(bytes) {
        Err(error) => Err(error),
        Ok((len, rest)) => if rest.len() < len {
            Err(DecodeErrorView::UnexpectedEof)
        } else {
            Ok((rest.take(len as int), rest.skip(len as int)))
        },
    }
}

/// The string at the beginning of `bytes`.
pub open spec fn read_string_value(bytes: Seq<u8>) -> Decoded<Seq<char>> {
    match read_bytes_value(bytes) {
        Err(error) => Err(error),
        Ok((utf8, rest)) => if valid_utf8(utf8) {
            Ok((decode_utf8(utf8), rest))
        } else {
            Err(DecodeErrorView::InvalidValue(utf8_error_text(utf8)))
        },
    }
}

/// The word at the beginning of `bytes`: its elements are read one after the other.
pub open spec fn read_word_value(bytes: Seq<u8>) -> Decoded<Seq<u8>> {
    match word_error(bytes, 0) {
        Some(error) => Err(error),
        None => Ok((bytes.take(32), bytes.skip(32))),
    }
}

/// Why the elements from `i` on of the word at the beginning of `bytes` cannot be read: one is
/// cut off, or is not below the order of the field.
pub open spec fn word_error(bytes: Seq<u8>, i: int) -> Option<DecodeErrorView>
    decreases 4 - i,
{
    if i >= 4 {
        None
    } else if bytes.len() < 8 * i + 8 {
        Some(DecodeErrorView::UnexpectedEof)
    } else if word::le_value(bytes.subrange(8 * i, 8 * i + 8)) >= FIELD_ORDER {
        Some(DecodeErrorView::InvalidValue("value not in the appropriate range"@))
    } else {
        word_error(bytes, i + 1)
    }
}

/// The flag at the beginning of `bytes`.
pub open spec fn read_bool_value(bytes: Seq<u8>) -> Decoded<bool> {
    if bytes.len() == 0 {
        Err(DecodeErrorView::UnexpectedEof)
    } else if bytes[0] == 0 {
        Ok((false, bytes.skip(1)))
    } else if bytes[0] == 1 {
        Ok((true, bytes.skip(1)))
    } else {
        Err(DecodeErrorView::InvalidValue(text::decimal(bytes[0] as nat) + " is not a boolean value"@))
    }
}

/// The encoding of a flag.
pub open spec fn bool_encoding(b: bool) -> Seq<u8> {
    if b {
        seq![1u8]
    } else {
        seq![0u8]
    }
}

proof fn lemma_le_bytes(n: nat, count: nat)
    requires
        n < pow2(8 * count),
    ensures
        word::le_bytes(n, count).len() == count,
        word::le_value(word::le_bytes(n, count)) == n,
        count > 0 ==> word::le_bytes(n, count)[0] == n % 256,
    decreases count,
{
    lemma2_to64();
    if count > 0 {
        let rest = (count - 1) as nat;
        lemma_pow2_adds(8, 8 * rest);
        assert(pow2(8 * count) == 256 * pow2(8 * rest));
        assert(n / 256 < pow2(8 * rest)) by (nonlinear_arith)
            requires
                n < 256 * pow2(8 * rest),
        ;
        lemma_le_bytes(n / 256, rest);
        let bytes = word::le_bytes(n, count);
        assert(bytes.drop_first() =~= word::le_bytes(n / 256, rest));
    }
}

proof fn lemma_low_bits_1(n: nat)
    ensures
        (2 * n + 1) * 1 / 2 == n,
        encoded_size(((2 * n + 1) * 1 % 256) as u8) == 1,
{
    let byte = ((2 * n + 1) * 1 % 256) as u8;
    assert(byte as int % 2 == 1);
}

proof fn lemma_low_bits_2(n: nat)
    ensures
        (2 * n + 1) * 2 / 4 == n,
        encoded_size(((2 * n + 1) * 2 % 256) as u8) == 2,
{
    let byte = ((2 * n + 1) * 2 % 256) as u8;
    assert(byte as int % 4 == 2);
}

proof fn lemma_low_bits_4(n: nat)
    ensures
        (2 * n + 1) * 4 / 8 == n,
        encoded_size(((2 * n + 1) * 4 % 256) as u8) == 3,
{
    let byte = ((2 * n + 1) * 4 % 256) as u8;
    assert(byte as int % 8 == 4);
}

proof fn lemma_low_bits_8(n: nat)
    ensures
        (2 * n + 1) * 8 / 16 == n,
        encoded_size(((2 * n + 1) * 8 % 256) as u8) == 4,
{
    let byte = ((2 * n + 1) * 8 % 256) as u8;
    assert(byte as int % 16 == 8);
}

proof fn lemma_low_bits_16(n: nat)
    ensures
        (2 * n + 1) * 16 / 32 == n,
        encoded_size(((2 * n + 1) * 16 % 256) as u8) == 5,
{
    let byte = ((2 * n + 1) * 16 % 256) as u8;
    assert(byte as int % 32 == 16);
}

proof fn lemma_low_bits_32(n: nat)
    ensures
        (2 * n + 1) * 32 / 64 == n,
        encoded_size(((2 * n + 1) * 32 % 256) as u8) == 6,
{
    let byte = ((2 * n + 1) * 32 % 256) as u8;
    assert(byte as int % 64 == 32);
}

proof fn lemma_low_bits_64(n: nat)
    ensures
        (2 * n + 1) * 64 / 128 == n,
        encoded_size(((2 * n + 1) * 64 % 256) as u8) == 7,
{
    let byte = ((2 * n + 1) * 64 % 256) as u8;
    assert(byte as int % 128 == 64);
}

proof fn lemma_low_bits_128(n: nat)
    ensures
        (2 * n + 1) * 128 / 256 == n,
        encoded_size(((2 * n + 1) * 128 % 256) as u8) == 8,
{
    let byte = ((2 * n + 1) * 128 % 256) as u8;
    assert(byte as int % 256 == 128);
}

proof fn lemma_size_bits(n: nat, size: nat)
    requires
        size == integer_size(n),
        size < 9,
    ensures
        ({
            let shifted = (2 * n + 1) * pow2((size - 1) as nat);
            &&& shifted < pow2(8 * size)
            &&& encoded_size((shifted % 256) as u8) == size
            &&& shifted / pow2(size) == n
        }),
{
    lemma2_to64();
    lemma2_to64_rest();
    if size == 1 {
        lemma_low_bits_1(n);
    } else if size == 2 {
        lemma_low_bits_2(n);
    } else if size == 3 {
        lemma_low_bits_4(n);
    } else if size == 4 {
        lemma_low_bits_8(n);
    } else if size == 5 {
        lemma_low_bits_16(n);
    } else if size == 6 {
        lemma_low_bits_32(n);
    } else if size == 7 {
        lemma_low_bits_64(n);
    } else {
        lemma_low_bits_128(n);
    }
    lemma_pow2_adds((size - 1) as nat, 7 * size + 1);
    lemma_pow2_adds(1, 7 * size);
    let factor = pow2((size - 1) as nat);
    assert((2 * n + 1) * factor < factor * pow2(7 * size + 1)) by (nonlinear_arith)
        requires
            2 * n + 1 < pow2(7 * size + 1),
            factor > 0,
    ;
}

/// An integer is read back as it was written, and nothing behind it is taken.
pub proof fn integer_round_trip(n: nat, rest: Seq<u8>)
    requires
        n <= usize::MAX,
    ensures
        read_integer(integer_encoding(n) + rest) == Ok::<(nat, Seq<u8>), DecodeErrorView>((n, rest)),
{
    lemma2_to64();
    lemma2_to64_rest();
    let size = integer_size(n);
    let bytes = integer_encoding(n) + rest;
    if size == 9 {
        lemma_le_bytes(n, 8);
        assert(bytes.subrange(1, 9) =~= word::le_bytes(n, 8));
        assert(bytes.skip(9) =~= rest);
    } else {
        let shifted = (2 * n + 1) * pow2((size - 1) as nat);
        lemma_size_bits(n, size);
        lemma_le_bytes(shifted, size);
        assert(bytes[0] == shifted % 256);
        assert(bytes.take(size as int) =~= word::le_bytes(shifted, size));
        assert(bytes.skip(size as int) =~= rest);
    }
}

/// A string is read back as it was written, and nothing behind it is taken.
pub proof fn string_round_trip(text: Seq<char>, rest: Seq<u8>)
    requires
        encode_utf8(text).len() <= usize::MAX,
    ensures
        read_string_value(string_encoding(text) + rest) == Ok::<
            (Seq<char>, Seq<u8>),
            DecodeErrorView,
        >((text, rest)),
{
    reveal(read_bytes_value);
    let utf8 = encode_utf8(text);
    assert(string_encoding(text) + rest =~= integer_encoding(utf8.len()) + (utf8 + rest));
    integer_round_trip(utf8.len(), utf8 + rest);
    assert((utf8 + rest).take(utf8.len() as int) =~= utf8);
    assert((utf8 + rest).skip(utf8.len() as int) =~= rest);
    encode_utf8_valid_utf8(text);
    encode_utf8_decode_utf8(text);
}

/// A word is read back as it was written, and nothing behind it is taken.
pub proof fn word_round_trip(bytes: Seq<u8>, rest: Seq<u8>)
    requires
        word::is_word(bytes),
    ensures
        read_word_value(bytes + rest) == Ok::<(Seq<u8>, Seq<u8>), DecodeErrorView>((bytes, rest)),
{
    reveal_with_fuel(word_error, 5);
    let all = bytes + rest;
    assert(all.subrange(0, 8) =~= bytes.subrange(0, 8));
    assert(all.subrange(8, 16) =~= bytes.subrange(8, 16));
    assert(all.subrange(16, 24) =~= bytes.subrange(16, 24));
    assert(all.subrange(24, 32) =~= bytes.subrange(24, 32));
    assert(all.take(32) =~= bytes);
    assert(all.skip(32) =~= rest);
}

/// A flag is read back as it was written, and nothing behind it is taken.
pub proof fn bool_round_trip(b: bool, rest: Seq<u8>)
    ensures
        read_bool_value(bool_encoding(b) + rest) == Ok::<(bool, Seq<u8>), DecodeErrorView>(
            (b, rest),
        ),
{
    assert((bool_encoding(b) + rest).skip(1) =~= rest);
}

/// `SliceReader::new`: a reader of `bytes`, nothing of which is read yet.
#[verifier::external_body]
pub(crate) fn reader_of(bytes: &[u8]) -> (reader: SliceReader<'_>)
    ensures
        unread(reader) == bytes@,
{
    SliceReader::new(bytes)
}

/// `SliceReader::read_u8`: takes the next byte. After an error nothing is known of the reader.
#[verifier::external_body]
pub(crate) fn read_byte(reader: &mut SliceReader<'_>) -> (byte: Result<u8, DecodeError>)
    ensures
        match byte {
            Ok(value) => unread(*old(reader)).len() > 0 && value == unread(*old(reader))[0]
                && unread(*final(reader)) == unread(*old(reader)).skip(1),
            Err(error) => unread(*old(reader)).len() == 0 && error@
                == DecodeErrorView::UnexpectedEof,
        },
{
    reader.read_u8().map_err(
        |error| match error {
            DeserializationError::UnexpectedEOF => DecodeError::UnexpectedEof,
            DeserializationError::InvalidValue(message) => DecodeError::InvalidValue(message),
            DeserializationError::UnknownError(message) => DecodeError::Unknown(message),
        },
    )
}

/// `SliceReader::read_usize`: takes the next integer. After an error nothing is known of the reader.
#[verifier::external_body]
pub(crate) fn read_usize(reader: &mut SliceReader<'_>) -> (integer: Result<usize, DecodeError>)
    ensures
        match (integer, read_integer(unread(*old(reader)))) {
            (Ok(value), Ok((expected, rest))) => value == expected && unread(*final(reader))
                == rest,
            (Err(error), Err(expected)) => error@ == expected,
            _ => false,
        },
{
    reader.read_usize().map_err(
        |error| match error {
            DeserializationError::UnexpectedEOF => DecodeError::UnexpectedEof,
            DeserializationError::InvalidValue(message) => DecodeError::InvalidValue(message),
            DeserializationError::UnknownError(message) => DecodeError::Unknown(message),
        },
    )
}

/// The number of bytes of an integer that begins with this byte.
pub fn size_of_encoded(first: u8) -> (size: usize)
    ensures
        size == encoded_size(first),
{
    if first % 2 == 1 {
        1
    } else if first % 4 == 2 {
        2
    } else if first % 8 == 4 {
        3
    } else if first % 16 == 8 {
        4
    } else if first % 32 == 16 {
        5
    } else if first % 64 == 32 {
        6
    } else if first % 128 == 64 {
        7
    } else if first == 128 {
        8
    } else {
        9
    }
}

/// `SliceReader::read_bool`: takes the next byte, which is one for `true` and zero for `false`.
/// After an error nothing is known of the reader.
#[verifier::external_body]
pub(crate) fn read_bool(reader: &mut SliceReader<'_>) -> (flag: Result<bool, DecodeError>)
    ensures
        match (flag, read_bool_value(unread(*old(reader)))) {
            (Ok(value), Ok((expected, rest))) => value == expected && unread(*final(reader)) == rest,
            (Err(error), Err(expected)) => error@ == expected,
            _ => false,
        },
{
    reader.read_bool().map_err(
        |error| match error {
            DeserializationError::UnexpectedEOF => DecodeError::UnexpectedEof,
            DeserializationError::InvalidValue(message) => DecodeError::InvalidValue(message),
            DeserializationError::UnknownError(message) => DecodeError::Unknown(message),
        },
    )
}

/// `miden_core::Word::read_from`: takes the 32 bytes of a word, and refuses an element that is
/// not below the order of the field. After an error nothing is known of the reader.
#[verifier::external_body]
pub(crate) fn read_word(reader: &mut SliceReader<'_>) -> (word: Result<Word, DecodeError>)
    ensures
        match (word, read_word_value(unread(*old(reader)))) {
            (Ok(value), Ok((expected, rest))) => value@ == expected && unread(*final(reader))
                == rest,
            (Err(error), Err(expected)) => error@ == expected,
            _ => false,
        },
{
    CoreWord::read_from(reader).map(|word| Word(word.as_bytes())).map_err(
        |error| match error {
            DeserializationError::UnexpectedEOF => DecodeError::UnexpectedEof,
            DeserializationError::InvalidValue(message) => DecodeError::InvalidValue(message),
            DeserializationError::UnknownError(message) => DecodeError::Unknown(message),
        },
    )
}

/// `String::read_from` of `miden_core::serde`: takes the length of a string and as many bytes,
/// which have to be UTF-8. After an error nothing is known of the reader.
#[verifier::external_body]
pub(crate) fn read_string(reader: &mut SliceReader<'_>) -> (text: Result<String, DecodeError>)
    ensures
        match (text, read_bytes_value(unread(*old(reader)))) {
            (Ok(value), Ok((utf8, rest))) => valid_utf8(utf8) && value@ == decode_utf8(utf8)
                && unread(*final(reader)) == rest,
            (Err(error), Ok((utf8, _))) => !valid_utf8(utf8) && error@
                == DecodeErrorView::InvalidValue(utf8_error_text(utf8)),
            (Err(error), Err(expected)) => error@ == expected,
            _ => false,
        },
{
    String::read_from(reader).map_err(
        |error| match error {
            DeserializationError::UnexpectedEOF => DecodeError::UnexpectedEof,
            DeserializationError::InvalidValue(message) => DecodeError::InvalidValue(message),
            DeserializationError::UnknownError(message) => DecodeError::Unknown(message),
        },
    )
}

/// `String::write_into` of `miden_core::serde`: appends the length of the text and its bytes.
#[verifier::external_body]
pub(crate) fn write_string(value: &String, target: &mut Vec<u8>)
    ensures
        final(target)@ == old(target)@ + string_encoding(value@),
{
    value.write_into(target)
}

/// `miden_core::Word::write_into`: appends the 32 bytes of the word.
#[verifier::external_body]
pub(crate) fn write_word(value: &Word, target: &mut Vec<u8>)
    ensures
        final(target)@ == old(target)@ + value@,
{
    CoreWord::try_from(value.0).unwrap().write_into(target)
}

} // verus!
