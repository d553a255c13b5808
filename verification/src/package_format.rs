//! The layout of a serialized package, as far as it has to be known to read one.
//!
//! The reader of packages reserves room for as many exports, parameters and results as the bytes
//! announce, and computes the layout of every type. A number that is too large, or a type that has
//! no layout, would end it. So the bytes are walked before: up to the last export, in the order in
//! which the reader takes them.

use std::io::Cursor;

use miden_core::mast::MastForest;
use miden_core::serde::Deserializable;
use vstd::prelude::*;
use vstd::slice::slice_subrange;

use crate::codec;

verus! {

/// Why bytes are not handed to the reader of packages.
#[derive(Clone, Copy, Debug, PartialEq, Eq, Structural)]
pub enum Refusal {
    /// More is announced than there are bytes left.
    Announced,
    /// A type has no layout.
    Layout,
}

impl Refusal {
    /// The text of the refusal.
    pub open spec fn text(self) -> Seq<char> {
        match self {
            Refusal::Announced => "unexpected end of file"@,
            Refusal::Layout => "invalid type: its layout cannot be computed"@,
        }
    }

    /// The text of the refusal.
    pub fn message(&self) -> (text: &'static str)
        ensures
            text@ == self.text(),
    {
        match self {
            Refusal::Announced => "unexpected end of file",
            Refusal::Layout => "invalid type: its layout cannot be computed",
        }
    }
}

/// The deepest nesting of types that is read.
pub const MAX_TYPE_NESTING: u8 = 128;

/// Where a walk over bytes has come, with what it has found; or it does not go on, since the reader
/// refuses what stands there; or the bytes are refused.
pub enum Walked<T> {
    At(int, T),
    Stuck,
    Refused(Refusal),
}

/// The executable counterpart of [`Walked`].
enum Walk<T> {
    At(usize, T),
    Stuck,
    Refused(Refusal),
}

impl<T: View> View for Walk<T> {
    type V = Walked<T::V>;

    closed spec fn view(&self) -> Walked<T::V> {
        match self {
            Walk::At(at, found) => Walked::At(*at as int, found@),
            Walk::Stuck => Walked::Stuck,
            Walk::Refused(refusal) => Walked::Refused(*refusal),
        }
    }
}

/// The size of a type in bits, if it can be computed, and its alignment in bytes.
#[derive(Clone, Copy, Debug)]
pub struct Layout {
    pub bits: Option<usize>,
    pub align: u16,
}

impl View for Layout {
    type V = Layout;

    open spec fn view(&self) -> Layout {
        *self
    }
}

/// How the fields of a struct are laid out.
#[derive(Clone, Copy, Debug)]
pub enum Repr {
    /// As their alignment asks, in either order of the bytes.
    Natural,
    /// With at least this alignment.
    Align(u16),
    /// With at most this alignment.
    Packed(u16),
    /// As the only field that has a size.
    Transparent,
}

/// The byte at a position.
pub open spec fn byte_at(bytes: Seq<u8>, at: int) -> Option<(u8, int)> {
    if 0 <= at < bytes.len() {
        Some((bytes[at], at + 1))
    } else {
        None
    }
}

/// The position behind `count` bytes.
pub open spec fn skipped(bytes: Seq<u8>, at: int, count: nat) -> Option<int> {
    if 0 <= at && at + count <= bytes.len() {
        Some(at + count)
    } else {
        None
    }
}

/// The flag at a position.
pub open spec fn flag_at(bytes: Seq<u8>, at: int) -> Option<(bool, int)> {
    match byte_at(bytes, at) {
        Some((byte, at)) => if byte <= 1 {
            Some((byte == 1, at))
        } else {
            None
        },
        None => None,
    }
}

/// The number of two bytes at a position.
pub open spec fn short_at(bytes: Seq<u8>, at: int) -> Option<(u16, int)> {
    if 0 <= at && at + 2 <= bytes.len() {
        Some(((bytes[at] + 256 * bytes[at + 1]) as u16, at + 2))
    } else {
        None
    }
}

/// The integer of varying length at a position.
#[verifier::opaque]
pub open spec fn integer_at(bytes: Seq<u8>, at: int) -> Option<(nat, int)> {
    if 0 <= at < bytes.len() {
        match codec::read_integer(bytes.skip(at)) {
            Ok((n, _)) => Some((n, at + codec::encoded_size(bytes[at]))),
            Err(_) => None,
        }
    } else {
        None
    }
}

/// The position behind a length and as many bytes.
pub open spec fn counted_at(bytes: Seq<u8>, at: int) -> Option<int> {
    match integer_at(bytes, at) {
        Some((count, at)) => skipped(bytes, at, count),
        None => None,
    }
}

/// The position behind a flag and, where it is set, a length and as many bytes.
pub open spec fn optional_counted_at(bytes: Seq<u8>, at: int) -> Option<int> {
    match flag_at(bytes, at) {
        Some((true, at)) => counted_at(bytes, at),
        Some((false, at)) => Some(at),
        None => None,
    }
}

/// The position behind a path: a length of two bytes, and as many bytes.
pub open spec fn path_at(bytes: Seq<u8>, at: int) -> Option<int> {
    match short_at(bytes, at) {
        Some((count, at)) => skipped(bytes, at, count as nat),
        None => None,
    }
}

/// Computes [`skipped`].
fn read_skipped(bytes: &[u8], at: usize, count: usize) -> (next: Option<usize>)
    requires
        at <= bytes@.len(),
    ensures
        match (next, skipped(bytes@, at as int, count as nat)) {
            (Some(next), Some(expected)) => next == expected,
            (None, None) => true,
            _ => false,
        },
{
    if count <= bytes.len() - at {
        Some(at + count)
    } else {
        None
    }
}

/// Computes [`flag_at`].
fn read_flag(bytes: &[u8], at: usize) -> (flag: Option<(bool, usize)>)
    requires
        at <= bytes@.len(),
    ensures
        match (flag, flag_at(bytes@, at as int)) {
            (Some((flag, next)), Some((expected, after))) => flag == expected && next == after,
            (None, None) => true,
            _ => false,
        },
{
    if at < bytes.len() && bytes[at] <= 1 {
        Some((bytes[at] == 1, at + 1))
    } else {
        None
    }
}

/// Computes [`short_at`].
fn read_short(bytes: &[u8], at: usize) -> (short: Option<(u16, usize)>)
    requires
        at <= bytes@.len(),
    ensures
        match (short, short_at(bytes@, at as int)) {
            (Some((short, next)), Some((expected, after))) => short == expected && next == after,
            (None, None) => true,
            _ => false,
        },
{
    if bytes.len() - at >= 2 {
        Some((bytes[at] as u16 + 256 * (bytes[at + 1] as u16), at + 2))
    } else {
        None
    }
}

/// Computes [`integer_at`].
fn read_integer(bytes: &[u8], at: usize) -> (integer: Option<(usize, usize)>)
    requires
        at <= bytes@.len(),
    ensures
        match (integer, integer_at(bytes@, at as int)) {
            (Some((n, next)), Some((expected, after))) => n == expected && next == after && next
                <= bytes@.len(),
            (None, None) => true,
            _ => false,
        },
{
    proof {
        reveal(integer_at);
    }
    if at >= bytes.len() {
        return None;
    }
    let rest = slice_subrange(bytes, at, bytes.len());
    assert(rest@ =~= bytes@.skip(at as int));
    let mut reader = codec::reader_of(rest);
    let n = match codec::read_usize(&mut reader) {
        Ok(n) => n,
        Err(_) => return None,
    };
    let size: usize = codec::size_of_encoded(bytes[at]);
    Some((n, at + size))
}

/// Computes [`counted_at`].
fn read_counted(bytes: &[u8], at: usize) -> (next: Option<usize>)
    requires
        at <= bytes@.len(),
    ensures
        match (next, counted_at(bytes@, at as int)) {
            (Some(next), Some(expected)) => next == expected && next <= bytes@.len(),
            (None, None) => true,
            _ => false,
        },
{
    match read_integer(bytes, at) {
        Some((count, at)) => read_skipped(bytes, at, count),
        None => None,
    }
}

/// Computes [`optional_counted_at`].
fn read_optional_counted(bytes: &[u8], at: usize) -> (next: Option<usize>)
    requires
        at <= bytes@.len(),
    ensures
        match (next, optional_counted_at(bytes@, at as int)) {
            (Some(next), Some(expected)) => next == expected && next <= bytes@.len(),
            (None, None) => true,
            _ => false,
        },
{
    match read_flag(bytes, at) {
        Some((true, at)) => read_counted(bytes, at),
        Some((false, at)) => Some(at),
        None => None,
    }
}

/// Computes [`path_at`].
fn read_path(bytes: &[u8], at: usize) -> (next: Option<usize>)
    requires
        at <= bytes@.len(),
    ensures
        match (next, path_at(bytes@, at as int)) {
            (Some(next), Some(expected)) => next == expected && next <= bytes@.len(),
            (None, None) => true,
            _ => false,
        },
{
    match read_short(bytes, at) {
        Some((count, at)) => read_skipped(bytes, at, count as usize),
        None => None,
    }
}

// Layouts.

/// The layout of a type that has no parts, by its tag.
pub open spec fn plain_layout(tag: u8) -> Layout {
    if tag <= 1 {
        Layout { bits: Some(0), align: 1 }
    } else if tag == 2 {
        Layout { bits: Some(1), align: 1 }
    } else if tag <= 4 {
        Layout { bits: Some(8), align: 1 }
    } else if tag <= 6 {
        Layout { bits: Some(16), align: 2 }
    } else if tag <= 8 || tag == 15 {
        Layout { bits: Some(32), align: 4 }
    } else if tag <= 10 || tag == 14 {
        Layout { bits: Some(64), align: 4 }
    } else if tag <= 12 {
        Layout { bits: Some(128), align: 16 }
    } else {
        Layout { bits: Some(256), align: 16 }
    }
}

/// The layout of an address.
pub open spec fn address_layout() -> Layout {
    Layout { bits: Some(32), align: 4 }
}

/// A power of two that fits in sixteen bits.
pub open spec fn is_power_of_two(n: int) -> bool {
    ||| n == 1
    ||| n == 2
    ||| n == 4
    ||| n == 8
    ||| n == 16
    ||| n == 32
    ||| n == 64
    ||| n == 128
    ||| n == 256
    ||| n == 512
    ||| n == 1024
    ||| n == 2048
    ||| n == 4096
    ||| n == 8192
    ||| n == 16384
    ||| n == 32768
}

/// The least multiple of `align` that is not less than `n`.
pub open spec fn aligned(n: int, align: int) -> int {
    if n % align == 0 {
        n
    } else {
        n + (align - n % align)
    }
}

/// The size in bits of an array of `count` elements, if it can be computed.
#[verifier::opaque]
pub open spec fn array_bits(count: nat, element: Layout) -> Option<usize> {
    if count == 0 {
        Some(0)
    } else {
        match element.bits {
            None => None,
            Some(bits) => if count == 1 {
                Some(bits)
            } else if !is_power_of_two(element.align as int) {
                None
            } else {
                let total = bits + aligned(bits as int, 8 * element.align) * (count - 1);
                if total <= usize::MAX {
                    Some(total as usize)
                } else {
                    None
                }
            },
        }
    }
}

/// The size of a field in bytes, if it can be computed and fits in thirty-two bits.
pub open spec fn field_size(field: Layout) -> Option<nat> {
    match field.bits {
        Some(bits) => if (bits + 7) / 8 <= u32::MAX {
            Some(((bits + 7) / 8) as nat)
        } else {
            None
        },
        None => None,
    }
}

/// The alignment of a field.
pub open spec fn field_align(repr: Repr, field: Layout) -> int {
    match repr {
        Repr::Packed(most) => if most < field.align {
            most as int
        } else {
            field.align as int
        },
        Repr::Transparent => if field_size(field) == Some(0nat) {
            1
        } else {
            field.align as int
        },
        _ => field.align as int,
    }
}

/// The greatest alignment of the fields, and at least one.
pub open spec fn greatest_align(repr: Repr, fields: Seq<Layout>) -> int
    decreases fields.len(),
{
    if fields.len() == 0 {
        1
    } else {
        let rest = greatest_align(repr, fields.drop_last());
        let last = field_align(repr, fields.last());
        if last > rest {
            last
        } else {
            rest
        }
    }
}

/// The offset behind the last field, if the fields can be laid out.
pub open spec fn fields_end(repr: Repr, fields: Seq<Layout>) -> Option<int>
    decreases fields.len(),
{
    if fields.len() == 0 {
        Some(0)
    } else {
        let field = fields.last();
        match (fields_end(repr, fields.drop_last()), field_size(field)) {
            (Some(end), Some(size)) => if repr is Transparent {
                if size == 0 {
                    Some(end)
                } else if end == 0 {
                    Some(size as int)
                } else {
                    None
                }
            } else {
                let align = field_align(repr, field);
                if is_power_of_two(align) && aligned(end, align) + size <= u32::MAX {
                    Some(aligned(end, align) + size)
                } else {
                    None
                }
            },
            _ => None,
        }
    }
}

/// The size of a struct in bytes, if the fields can be laid out.
pub open spec fn struct_size(repr: Repr, fields: Seq<Layout>) -> Option<int> {
    match fields_end(repr, fields) {
        None => None,
        Some(end) => if repr is Transparent {
            Some(end)
        } else {
            let natural = greatest_align(Repr::Natural, fields);
            let align = match repr {
                Repr::Align(least) => if least > natural {
                    least as int
                } else {
                    natural
                },
                Repr::Packed(most) => if most < natural {
                    most as int
                } else {
                    natural
                },
                _ => natural,
            };
            if is_power_of_two(align) && aligned(end, align) <= u32::MAX {
                Some(aligned(end, align))
            } else {
                None
            }
        },
    }
}

/// The number of bits of a number of bytes, if it fits.
pub open spec fn bits_of(size: int) -> Option<usize> {
    if 8 * size <= usize::MAX {
        Some((8 * size) as usize)
    } else {
        None
    }
}

/// The layout of a struct, if it has one.
#[verifier::opaque]
pub open spec fn struct_layout(repr: Repr, fields: Seq<Layout>) -> Option<Layout> {
    match struct_size(repr, fields) {
        None => None,
        Some(size) => Some(
            Layout {
                bits: bits_of(size),
                align: match repr {
                    Repr::Align(align) => align,
                    Repr::Packed(align) => align,
                    _ => greatest_align(repr, fields) as u16,
                },
            },
        ),
    }
}

/// The size of a payload in bytes with room to align it; nothing for one without a size.
pub open spec fn padded_size(payload: Layout) -> int {
    match field_size(payload) {
        Some(size) => if size == 0 {
            0
        } else {
            size + payload.align
        },
        None => 0,
    }
}

/// The first of the largest payloads.
pub open spec fn largest(payloads: Seq<Option<Layout>>) -> Option<Layout>
    decreases payloads.len(),
{
    if payloads.len() == 0 {
        None
    } else {
        match (largest(payloads.drop_last()), payloads.last()) {
            (before, None) => before,
            (None, Some(last)) => Some(last),
            (Some(before), Some(last)) => if padded_size(last) > padded_size(before) {
                Some(last)
            } else {
                Some(before)
            },
        }
    }
}

/// The layout of a discriminant and a payload behind it.
pub open spec fn tagged_layout(discriminant: Layout, payload: Layout) -> Option<Layout> {
    struct_layout(Repr::Natural, seq![discriminant, payload])
}

/// Every payload can be laid out behind the discriminant.
pub open spec fn all_tagged(discriminant: Layout, payloads: Seq<Option<Layout>>) -> bool {
    forall|i: int|
        0 <= i < payloads.len() ==> match #[trigger] payloads[i] {
            Some(payload) => tagged_layout(discriminant, payload) is Some,
            None => true,
        }
}

/// The layout of an enumeration with one payload or none for each variant, if it has one.
#[verifier::opaque]
pub open spec fn enum_layout(discriminant: Layout, payloads: Seq<Option<Layout>>) -> Option<
    Layout,
> {
    if payloads.len() == 0 {
        Some(Layout { bits: Some(0), align: 1 })
    } else if !all_tagged(discriminant, payloads) {
        None
    } else {
        match largest(payloads) {
            Some(payload) => tagged_layout(discriminant, payload),
            None => match field_size(discriminant) {
                Some(size) => Some(
                    Layout { bits: bits_of(size as int), align: discriminant.align },
                ),
                None => None,
            },
        }
    }
}

/// Computes [`plain_layout`].
fn read_plain_layout(tag: u8) -> (layout: Layout)
    ensures
        layout == plain_layout(tag),
{
    if tag <= 1 {
        Layout { bits: Some(0), align: 1 }
    } else if tag == 2 {
        Layout { bits: Some(1), align: 1 }
    } else if tag <= 4 {
        Layout { bits: Some(8), align: 1 }
    } else if tag <= 6 {
        Layout { bits: Some(16), align: 2 }
    } else if tag <= 8 || tag == 15 {
        Layout { bits: Some(32), align: 4 }
    } else if tag <= 10 || tag == 14 {
        Layout { bits: Some(64), align: 4 }
    } else if tag <= 12 {
        Layout { bits: Some(128), align: 16 }
    } else {
        Layout { bits: Some(256), align: 16 }
    }
}

/// Computes [`is_power_of_two`].
fn power_of_two(n: u16) -> (power: bool)
    ensures
        power == is_power_of_two(n as int),
{
    n == 1 || n == 2 || n == 4 || n == 8 || n == 16 || n == 32 || n == 64 || n == 128 || n == 256
        || n == 512 || n == 1024 || n == 2048 || n == 4096 || n == 8192 || n == 16384 || n == 32768
}

/// Computes [`aligned`].
fn align_up(n: u64, align: u16) -> (multiple: u64)
    requires
        align > 0,
        n <= u32::MAX,
    ensures
        multiple == aligned(n as int, align as int),
        n <= multiple < n + align,
{
    let past = n % align as u64;
    if past == 0 {
        n
    } else {
        n + (align as u64 - past)
    }
}

/// Computes [`array_bits`].
fn compute_array_bits(count: usize, element: Layout) -> (bits: Option<usize>)
    ensures
        bits == array_bits(count as nat, element),
{
    proof {
        reveal(array_bits);
    }
    if count == 0 {
        return Some(0);
    }
    let bits = match element.bits {
        Some(bits) => bits,
        None => return None,
    };
    if count == 1 {
        return Some(bits);
    }
    if !power_of_two(element.align) {
        return None;
    }
    let align: usize = 8 * (element.align as usize);
    let past = bits % align;
    let padding: usize = if past == 0 {
        0
    } else {
        align - past
    };
    let ghost multiple = aligned(bits as int, 8 * element.align);
    assert(multiple == bits + padding);
    let padded = match bits.checked_add(padding) {
        Some(padded) => padded,
        None => {
            assert(multiple * (count - 1) >= multiple) by (nonlinear_arith)
                requires
                    count >= 2,
                    multiple >= 0,
            ;
            return None;
        },
    };
    let others = match padded.checked_mul(count - 1) {
        Some(others) => others,
        None => return None,
    };
    bits.checked_add(others)
}

/// Computes [`field_size`].
fn compute_field_size(field: Layout) -> (size: Option<u64>)
    ensures
        match (size, field_size(field)) {
            (Some(size), Some(expected)) => size == expected && size <= u32::MAX,
            (None, None) => true,
            _ => false,
        },
{
    match field.bits {
        Some(bits) => {
            let part: usize = if bits % 8 == 0 {
                0
            } else {
                1
            };
            let size: usize = bits / 8 + part;
            assert(size == (bits + 7) / 8);
            if size as u64 <= u32::MAX as u64 {
                Some(size as u64)
            } else {
                None
            }
        },
        None => None,
    }
}

/// Computes [`field_align`].
fn compute_field_align(repr: Repr, field: Layout) -> (align: u16)
    ensures
        align == field_align(repr, field),
{
    match repr {
        Repr::Packed(most) => if most < field.align {
            most
        } else {
            field.align
        },
        Repr::Transparent => match compute_field_size(field) {
            Some(0) => 1,
            _ => field.align,
        },
        _ => field.align,
    }
}

/// Computes [`greatest_align`].
fn compute_greatest_align(repr: Repr, fields: &Vec<Layout>) -> (greatest: u16)
    ensures
        greatest == greatest_align(repr, fields@),
{
    let mut greatest: u16 = 1;
    let mut i: usize = 0;
    while i < fields.len()
        invariant
            i <= fields@.len(),
            greatest == greatest_align(repr, fields@.take(i as int)),
        decreases fields.len() - i,
    {
        assert(fields@.take(i + 1).drop_last() =~= fields@.take(i as int));
        let align = compute_field_align(repr, fields[i]);
        if align > greatest {
            greatest = align;
        }
        i += 1;
    }
    assert(fields@.take(i as int) =~= fields@);
    greatest
}

/// Computes [`fields_end`].
fn compute_fields_end(repr: Repr, fields: &Vec<Layout>) -> (end: Option<u64>)
    ensures
        match (end, fields_end(repr, fields@)) {
            (Some(end), Some(expected)) => end == expected && end <= u32::MAX,
            (None, None) => true,
            _ => false,
        },
{
    let mut end: Option<u64> = Some(0);
    let mut i: usize = 0;
    while i < fields.len()
        invariant
            i <= fields@.len(),
            match (end, fields_end(repr, fields@.take(i as int))) {
                (Some(end), Some(expected)) => end == expected && end <= u32::MAX,
                (None, None) => true,
                _ => false,
            },
        decreases fields.len() - i,
    {
        assert(fields@.take(i + 1).drop_last() =~= fields@.take(i as int));
        let field = fields[i];
        assert(fields@.take(i + 1).last() == field);
        end = match (end, compute_field_size(field)) {
            (Some(end), Some(size)) => if matches!(repr, Repr::Transparent) {
                if size == 0 {
                    Some(end)
                } else if end == 0 {
                    Some(size)
                } else {
                    None
                }
            } else {
                let align = compute_field_align(repr, field);
                if !power_of_two(align) {
                    None
                } else {
                    let next = align_up(end, align) + size;
                    if next <= u32::MAX as u64 {
                        Some(next)
                    } else {
                        None
                    }
                }
            },
            _ => None,
        };
        i += 1;
    }
    assert(fields@.take(i as int) =~= fields@);
    end
}

/// Computes [`struct_layout`].
fn compute_struct_layout(repr: Repr, fields: &Vec<Layout>) -> (layout: Option<Layout>)
    ensures
        layout == struct_layout(repr, fields@),
{
    proof {
        reveal(struct_layout);
    }
    let end = match compute_fields_end(repr, fields) {
        Some(end) => end,
        None => return None,
    };
    let natural = compute_greatest_align(Repr::Natural, fields);
    let greatest = compute_greatest_align(repr, fields);
    let size: u64 = if matches!(repr, Repr::Transparent) {
        end
    } else {
        let align = match repr {
            Repr::Align(least) => if least > natural {
                least
            } else {
                natural
            },
            Repr::Packed(most) => if most < natural {
                most
            } else {
                natural
            },
            _ => natural,
        };
        if !power_of_two(align) {
            return None;
        }
        let size = align_up(end, align);
        if size > u32::MAX as u64 {
            return None;
        }
        size
    };
    let align = match repr {
        Repr::Align(align) => align,
        Repr::Packed(align) => align,
        _ => greatest,
    };
    Some(Layout { bits: (size as usize).checked_mul(8), align })
}

/// Computes [`tagged_layout`].
fn compute_tagged_layout(discriminant: Layout, payload: Layout) -> (layout: Option<Layout>)
    ensures
        layout == tagged_layout(discriminant, payload),
{
    let mut fields: Vec<Layout> = Vec::new();
    fields.push(discriminant);
    fields.push(payload);
    assert(fields@ =~= seq![discriminant, payload]);
    compute_struct_layout(Repr::Natural, &fields)
}

/// Computes [`padded_size`].
fn compute_padded_size(payload: Layout) -> (size: u64)
    ensures
        size == padded_size(payload),
{
    match compute_field_size(payload) {
        Some(size) => if size == 0 {
            0
        } else {
            size + payload.align as u64
        },
        None => 0,
    }
}

/// Computes [`enum_layout`].
fn compute_enum_layout(discriminant: Layout, payloads: &Vec<Option<Layout>>) -> (layout: Option<
    Layout,
>)
    ensures
        layout == enum_layout(discriminant, payloads@),
{
    proof {
        reveal(enum_layout);
    }
    if payloads.len() == 0 {
        return Some(Layout { bits: Some(0), align: 1 });
    }
    let mut found: Option<Layout> = None;
    let mut i: usize = 0;
    while i < payloads.len()
        invariant
            i <= payloads@.len(),
            all_tagged(discriminant, payloads@.take(i as int)),
            found == largest(payloads@.take(i as int)),
        decreases payloads.len() - i,
    {
        assert(payloads@.take(i + 1).drop_last() =~= payloads@.take(i as int));
        assert(payloads@.take(i + 1).last() == payloads@[i as int]);
        if let Some(payload) = payloads[i] {
            if compute_tagged_layout(discriminant, payload).is_none() {
                proof {
                    reveal(enum_layout);
                    assert(payloads@[i as int] is Some);
                }
                return None;
            }
            found = match found {
                None => Some(payload),
                Some(before) => if compute_padded_size(payload) > compute_padded_size(before) {
                    Some(payload)
                } else {
                    Some(before)
                },
            };
        }
        assert(all_tagged(discriminant, payloads@.take(i + 1))) by {
            assert forall|j: int| 0 <= j < i + 1 implies match #[trigger] payloads@.take(i + 1)[j] {
                Some(payload) => tagged_layout(discriminant, payload) is Some,
                None => true,
            } by {
                if j < i {
                    assert(payloads@.take(i as int)[j] == payloads@.take(i + 1)[j]);
                }
            }
        }
        i += 1;
    }
    assert(payloads@.take(i as int) =~= payloads@);
    match found {
        Some(payload) => compute_tagged_layout(discriminant, payload),
        None => match compute_field_size(discriminant) {
            Some(size) => Some(
                Layout { bits: (size as usize).checked_mul(8), align: discriminant.align },
            ),
            None => None,
        },
    }
}

// Types.

/// The representation of a struct.
pub open spec fn repr_at(bytes: Seq<u8>, at: int) -> Option<(Repr, int)> {
    match byte_at(bytes, at) {
        None => None,
        Some((tag, at)) => if tag == 0 || tag == 4 {
            Some((Repr::Natural, at))
        } else if tag == 3 {
            Some((Repr::Transparent, at))
        } else if tag == 1 || tag == 2 {
            match short_at(bytes, at) {
                Some((align, at)) => if align == 0 {
                    None
                } else if tag == 1 {
                    Some((Repr::Align(align), at))
                } else {
                    Some((Repr::Packed(align), at))
                },
                None => None,
            }
        } else {
            None
        },
    }
}

/// The type at a position, with at most `depth` levels of nesting.
pub open spec fn type_at(bytes: Seq<u8>, at: int, depth: nat) -> Walked<Layout>
    decreases depth, 0nat, 0nat,
{
    match byte_at(bytes, at) {
        None => Walked::Stuck,
        Some((tag, at)) => if tag < 16 {
            Walked::At(at, plain_layout(tag))
        } else if tag > 21 || depth == 0 {
            Walked::Stuck
        } else {
            let inner = (depth - 1) as nat;
            if tag == 16 {
                match byte_at(bytes, at) {
                    Some((space, at)) => if space <= 1 {
                        match type_at(bytes, at, inner) {
                            Walked::At(at, _) => Walked::At(at, address_layout()),
                            other => other,
                        }
                    } else {
                        Walked::Stuck
                    },
                    None => Walked::Stuck,
                }
            } else if tag == 17 {
                struct_at(bytes, at, inner)
            } else if tag == 18 {
                match integer_at(bytes, at) {
                    Some((count, at)) => match type_at(bytes, at, inner) {
                        Walked::At(at, element) => Walked::At(
                            at,
                            Layout { bits: array_bits(count, element), align: element.align },
                        ),
                        other => other,
                    },
                    None => Walked::Stuck,
                }
            } else if tag == 19 {
                match type_at(bytes, at, inner) {
                    Walked::At(at, element) => Walked::At(
                        at,
                        Layout { bits: None, align: element.align },
                    ),
                    other => other,
                }
            } else if tag == 20 {
                match function_at(bytes, at, inner) {
                    Walked::At(at, _) => Walked::At(at, address_layout()),
                    Walked::Stuck => Walked::Stuck,
                    Walked::Refused(refusal) => Walked::Refused(refusal),
                }
            } else {
                enum_at(bytes, at, inner)
            }
        },
    }
}

/// The struct at a position, behind its tag.
pub open spec fn struct_at(bytes: Seq<u8>, at: int, depth: nat) -> Walked<Layout>
    decreases depth, 3nat, 0nat,
{
    match optional_counted_at(bytes, at) {
        None => Walked::Stuck,
        Some(at) => match repr_at(bytes, at) {
            None => Walked::Stuck,
            Some((repr, at)) => match byte_at(bytes, at) {
                None => Walked::Stuck,
                Some((count, at)) => match fields_at(bytes, at, count as nat, depth, Seq::empty()) {
                    Walked::At(at, fields) => match struct_layout(repr, fields) {
                        Some(layout) => Walked::At(at, layout),
                        None => Walked::Refused(Refusal::Layout),
                    },
                    Walked::Stuck => Walked::Stuck,
                    Walked::Refused(refusal) => Walked::Refused(refusal),
                },
            },
        },
    }
}

/// The next `count` fields of a struct, behind those that are done.
pub open spec fn fields_at(
    bytes: Seq<u8>,
    at: int,
    count: nat,
    depth: nat,
    done: Seq<Layout>,
) -> Walked<Seq<Layout>>
    decreases depth, 1nat, count,
{
    if count == 0 {
        Walked::At(at, done)
    } else {
        match optional_counted_at(bytes, at) {
            None => Walked::Stuck,
            Some(at) => match type_at(bytes, at, depth) {
                Walked::At(at, field) => fields_at(
                    bytes,
                    at,
                    (count - 1) as nat,
                    depth,
                    done.push(field),
                ),
                Walked::Stuck => Walked::Stuck,
                Walked::Refused(refusal) => Walked::Refused(refusal),
            },
        }
    }
}

/// The function type at a position: the calling convention, the parameters and the results.
pub open spec fn function_at(bytes: Seq<u8>, at: int, depth: nat) -> Walked<()>
    decreases depth, 4nat, 0nat,
{
    match byte_at(bytes, at) {
        None => Walked::Stuck,
        Some((convention, at)) => if convention > 3 {
            Walked::Stuck
        } else {
            match announced_types_at(bytes, at, depth) {
                Walked::At(at, _) => announced_types_at(bytes, at, depth),
                other => other,
            }
        },
    }
}

/// A number, and as many types. There are at least as many bytes.
pub open spec fn announced_types_at(bytes: Seq<u8>, at: int, depth: nat) -> Walked<()>
    decreases depth, 2nat, 0nat,
{
    match integer_at(bytes, at) {
        None => Walked::Stuck,
        Some((count, at)) => if count > bytes.len() - at {
            Walked::Refused(Refusal::Announced)
        } else {
            types_at(bytes, at, count, depth)
        },
    }
}

/// The next `count` types.
pub open spec fn types_at(bytes: Seq<u8>, at: int, count: nat, depth: nat) -> Walked<()>
    decreases depth, 1nat, count,
{
    if count == 0 {
        Walked::At(at, ())
    } else {
        match type_at(bytes, at, depth) {
            Walked::At(at, _) => types_at(bytes, at, (count - 1) as nat, depth),
            Walked::Stuck => Walked::Stuck,
            Walked::Refused(refusal) => Walked::Refused(refusal),
        }
    }
}

/// The tag is that of an integer type that can be a discriminant.
pub open spec fn is_discriminant(tag: u8) -> bool {
    2 <= tag <= 12 || tag == 15
}

/// The number of bytes in which a discriminant is written.
pub open spec fn discriminant_width(bits: Option<usize>) -> nat {
    match bits {
        Some(bits) => if bits <= 8 {
            1
        } else if bits <= 16 {
            2
        } else if bits <= 32 {
            4
        } else if bits <= 64 {
            8
        } else {
            16
        },
        None => 16,
    }
}

/// The enumeration at a position, behind its tag.
pub open spec fn enum_at(bytes: Seq<u8>, at: int, depth: nat) -> Walked<Layout>
    decreases depth, 3nat, 0nat,
{
    match counted_at(bytes, at) {
        None => Walked::Stuck,
        Some(start) => match type_at(bytes, start, depth) {
            Walked::At(at, discriminant) => if !is_discriminant(bytes[start]) {
                Walked::Stuck
            } else {
                match integer_at(bytes, at) {
                    None => Walked::Stuck,
                    Some((count, at)) => match variants_at(
                        bytes,
                        at,
                        count,
                        depth,
                        discriminant_width(discriminant.bits),
                        Seq::empty(),
                    ) {
                        Walked::At(at, payloads) => match enum_layout(discriminant, payloads) {
                            Some(layout) => Walked::At(at, layout),
                            None => Walked::Refused(Refusal::Layout),
                        },
                        Walked::Stuck => Walked::Stuck,
                        Walked::Refused(refusal) => Walked::Refused(refusal),
                    },
                }
            },
            other => other,
        },
    }
}

/// The payload of a variant, if it has one: a flag, and the type where it is set.
pub open spec fn payload_at(bytes: Seq<u8>, at: int, depth: nat) -> Walked<Option<Layout>>
    decreases depth, 1nat, 0nat,
{
    match flag_at(bytes, at) {
        None => Walked::Stuck,
        Some((false, at)) => Walked::At(at, None),
        Some((true, at)) => match type_at(bytes, at, depth) {
            Walked::At(at, payload) => Walked::At(at, Some(payload)),
            Walked::Stuck => Walked::Stuck,
            Walked::Refused(refusal) => Walked::Refused(refusal),
        },
    }
}

/// The position behind the value of a discriminant: a flag, and the value where it is set.
pub open spec fn discriminant_at(bytes: Seq<u8>, at: int, width: nat) -> Option<int> {
    match flag_at(bytes, at) {
        Some((true, at)) => skipped(bytes, at, width),
        Some((false, at)) => Some(at),
        None => None,
    }
}

/// The next `count` variants of an enumeration, behind those whose payloads are done.
pub open spec fn variants_at(
    bytes: Seq<u8>,
    at: int,
    count: nat,
    depth: nat,
    width: nat,
    done: Seq<Option<Layout>>,
) -> Walked<Seq<Option<Layout>>>
    decreases depth, 2nat, count,
{
    if count == 0 {
        Walked::At(at, done)
    } else {
        match counted_at(bytes, at) {
            None => Walked::Stuck,
            Some(at) => match payload_at(bytes, at, depth) {
                Walked::At(at, payload) => match discriminant_at(bytes, at, width) {
                    None => Walked::Stuck,
                    Some(at) => variants_at(
                        bytes,
                        at,
                        (count - 1) as nat,
                        depth,
                        width,
                        done.push(payload),
                    ),
                },
                Walked::Stuck => Walked::Stuck,
                Walked::Refused(refusal) => Walked::Refused(refusal),
            },
        }
    }
}

/// A walk that has come somewhere has come to a position in the bytes.
spec fn in_bounds<T>(walk: Walk<T>, bytes: Seq<u8>) -> bool {
    match walk {
        Walk::At(at, _) => at <= bytes.len(),
        _ => true,
    }
}

/// Computes [`repr_at`].
fn read_repr(bytes: &[u8], at: usize) -> (repr: Option<(Repr, usize)>)
    requires
        at <= bytes@.len(),
    ensures
        match (repr, repr_at(bytes@, at as int)) {
            (Some((repr, next)), Some((expected, after))) => repr == expected && next == after
                && next <= bytes@.len(),
            (None, None) => true,
            _ => false,
        },
{
    if at >= bytes.len() {
        return None;
    }
    let tag = bytes[at];
    if tag == 0 || tag == 4 {
        Some((Repr::Natural, at + 1))
    } else if tag == 3 {
        Some((Repr::Transparent, at + 1))
    } else if tag == 1 || tag == 2 {
        match read_short(bytes, at + 1) {
            Some((align, at)) => if align == 0 {
                None
            } else if tag == 1 {
                Some((Repr::Align(align), at))
            } else {
                Some((Repr::Packed(align), at))
            },
            None => None,
        }
    } else {
        None
    }
}

/// Computes [`type_at`].
fn walk_type(bytes: &[u8], at: usize, depth: u8) -> (walk: Walk<Layout>)
    requires
        at <= bytes@.len(),
    ensures
        walk@ == type_at(bytes@, at as int, depth as nat),
        in_bounds(walk, bytes@),
        walk is At ==> at < bytes@.len(),
    decreases depth, 0nat,
{
    if at >= bytes.len() {
        return Walk::Stuck;
    }
    let tag = bytes[at];
    let at: usize = at + 1;
    if tag < 16 {
        return Walk::At(at, read_plain_layout(tag));
    }
    if tag > 21 || depth == 0 {
        return Walk::Stuck;
    }
    let inner: u8 = depth - 1;
    let address = Layout { bits: Some(32), align: 4 };
    if tag == 16 {
        if at >= bytes.len() || bytes[at] > 1 {
            return Walk::Stuck;
        }
        match walk_type(bytes, at + 1, inner) {
            Walk::At(at, _) => Walk::At(at, address),
            other => other,
        }
    } else if tag == 17 {
        walk_struct(bytes, at, inner)
    } else if tag == 18 {
        match read_integer(bytes, at) {
            Some((count, at)) => match walk_type(bytes, at, inner) {
                Walk::At(at, element) => Walk::At(
                    at,
                    Layout { bits: compute_array_bits(count, element), align: element.align },
                ),
                other => other,
            },
            None => Walk::Stuck,
        }
    } else if tag == 19 {
        match walk_type(bytes, at, inner) {
            Walk::At(at, element) => Walk::At(at, Layout { bits: None, align: element.align }),
            other => other,
        }
    } else if tag == 20 {
        match walk_function(bytes, at, inner) {
            Walk::At(at, _) => Walk::At(at, address),
            Walk::Stuck => Walk::Stuck,
            Walk::Refused(refusal) => Walk::Refused(refusal),
        }
    } else {
        walk_enum(bytes, at, inner)
    }
}

/// Computes [`struct_at`].
fn walk_struct(bytes: &[u8], at: usize, depth: u8) -> (walk: Walk<Layout>)
    requires
        at <= bytes@.len(),
    ensures
        walk@ == struct_at(bytes@, at as int, depth as nat),
        in_bounds(walk, bytes@),
    decreases depth, 2nat,
{
    let at = match read_optional_counted(bytes, at) {
        Some(at) => at,
        None => return Walk::Stuck,
    };
    let (repr, at) = match read_repr(bytes, at) {
        Some(found) => found,
        None => return Walk::Stuck,
    };
    if at >= bytes.len() {
        return Walk::Stuck;
    }
    match walk_fields(bytes, at + 1, bytes[at], depth) {
        Walk::At(at, fields) => match compute_struct_layout(repr, &fields) {
            Some(layout) => Walk::At(at, layout),
            None => Walk::Refused(Refusal::Layout),
        },
        Walk::Stuck => Walk::Stuck,
        Walk::Refused(refusal) => Walk::Refused(refusal),
    }
}

/// Computes [`fields_at`].
fn walk_fields(bytes: &[u8], start: usize, count: u8, depth: u8) -> (walk: Walk<Vec<Layout>>)
    requires
        start <= bytes@.len(),
    ensures
        walk@ == fields_at(bytes@, start as int, count as nat, depth as nat, Seq::empty()),
        in_bounds(walk, bytes@),
    decreases depth, 1nat,
{
    let mut at: usize = start;
    let mut left: u8 = count;
    let mut fields: Vec<Layout> = Vec::new();
    while left > 0
        invariant
            at <= bytes@.len(),
            fields_at(bytes@, start as int, count as nat, depth as nat, Seq::empty()) == fields_at(
                bytes@,
                at as int,
                left as nat,
                depth as nat,
                fields@,
            ),
        decreases left,
    {
        let next = match read_optional_counted(bytes, at) {
            Some(next) => next,
            None => return Walk::Stuck,
        };
        match walk_type(bytes, next, depth) {
            Walk::At(next, field) => {
                fields.push(field);
                at = next;
            },
            Walk::Stuck => return Walk::Stuck,
            Walk::Refused(refusal) => return Walk::Refused(refusal),
        }
        left -= 1;
    }
    Walk::At(at, fields)
}

/// Computes [`function_at`].
fn walk_function(bytes: &[u8], at: usize, depth: u8) -> (walk: Walk<()>)
    requires
        at <= bytes@.len(),
    ensures
        walk@ == function_at(bytes@, at as int, depth as nat),
        in_bounds(walk, bytes@),
    decreases depth, 3nat,
{
    if at >= bytes.len() || bytes[at] > 3 {
        return Walk::Stuck;
    }
    match walk_announced_types(bytes, at + 1, depth) {
        Walk::At(at, _) => walk_announced_types(bytes, at, depth),
        other => other,
    }
}

/// Computes [`announced_types_at`].
fn walk_announced_types(bytes: &[u8], at: usize, depth: u8) -> (walk: Walk<()>)
    requires
        at <= bytes@.len(),
    ensures
        walk@ == announced_types_at(bytes@, at as int, depth as nat),
        in_bounds(walk, bytes@),
    decreases depth, 2nat,
{
    let (count, start) = match read_integer(bytes, at) {
        Some(found) => found,
        None => return Walk::Stuck,
    };
    if count > bytes.len() - start {
        return Walk::Refused(Refusal::Announced);
    }
    walk_types(bytes, start, count, depth)
}

/// Computes [`types_at`].
fn walk_types(bytes: &[u8], start: usize, count: usize, depth: u8) -> (walk: Walk<()>)
    requires
        start <= bytes@.len(),
    ensures
        walk@ == types_at(bytes@, start as int, count as nat, depth as nat),
        in_bounds(walk, bytes@),
    decreases depth, 1nat,
{
    let mut at: usize = start;
    let mut left: usize = count;
    while left > 0
        invariant
            at <= bytes@.len(),
            types_at(bytes@, start as int, count as nat, depth as nat) == types_at(
                bytes@,
                at as int,
                left as nat,
                depth as nat,
            ),
        decreases left,
    {
        match walk_type(bytes, at, depth) {
            Walk::At(next, _) => at = next,
            Walk::Stuck => return Walk::Stuck,
            Walk::Refused(refusal) => return Walk::Refused(refusal),
        }
        left -= 1;
    }
    Walk::At(at, ())
}

/// Computes [`discriminant_width`].
fn read_discriminant_width(bits: Option<usize>) -> (width: usize)
    ensures
        width == discriminant_width(bits),
{
    match bits {
        Some(bits) => if bits <= 8 {
            1
        } else if bits <= 16 {
            2
        } else if bits <= 32 {
            4
        } else if bits <= 64 {
            8
        } else {
            16
        },
        None => 16,
    }
}

/// Computes [`enum_at`].
fn walk_enum(bytes: &[u8], at: usize, depth: u8) -> (walk: Walk<Layout>)
    requires
        at <= bytes@.len(),
    ensures
        walk@ == enum_at(bytes@, at as int, depth as nat),
        in_bounds(walk, bytes@),
    decreases depth, 3nat,
{
    let start = match read_counted(bytes, at) {
        Some(start) => start,
        None => return Walk::Stuck,
    };
    match walk_type(bytes, start, depth) {
        Walk::At(at, discriminant) => {
            let tag = bytes[start];
            if !((2 <= tag && tag <= 12) || tag == 15) {
                return Walk::Stuck;
            }
            let (count, at) = match read_integer(bytes, at) {
                Some(found) => found,
                None => return Walk::Stuck,
            };
            let width = read_discriminant_width(discriminant.bits);
            match walk_variants(bytes, at, count, depth, width) {
                Walk::At(at, payloads) => match compute_enum_layout(discriminant, &payloads) {
                    Some(layout) => Walk::At(at, layout),
                    None => Walk::Refused(Refusal::Layout),
                },
                Walk::Stuck => Walk::Stuck,
                Walk::Refused(refusal) => Walk::Refused(refusal),
            }
        },
        other => other,
    }
}

/// Computes [`discriminant_at`].
fn read_discriminant(bytes: &[u8], at: usize, width: usize) -> (next: Option<usize>)
    requires
        at <= bytes@.len(),
    ensures
        match (next, discriminant_at(bytes@, at as int, width as nat)) {
            (Some(next), Some(expected)) => next == expected && next <= bytes@.len(),
            (None, None) => true,
            _ => false,
        },
{
    match read_flag(bytes, at) {
        Some((true, at)) => read_skipped(bytes, at, width),
        Some((false, at)) => Some(at),
        None => None,
    }
}

/// Computes [`payload_at`].
fn walk_payload(bytes: &[u8], at: usize, depth: u8) -> (walk: Walk<Option<Layout>>)
    requires
        at <= bytes@.len(),
    ensures
        walk@ == payload_at(bytes@, at as int, depth as nat),
        in_bounds(walk, bytes@),
    decreases depth, 1nat,
{
    match read_flag(bytes, at) {
        None => Walk::Stuck,
        Some((false, at)) => Walk::At(at, None),
        Some((true, at)) => match walk_type(bytes, at, depth) {
            Walk::At(at, payload) => Walk::At(at, Some(payload)),
            Walk::Stuck => Walk::Stuck,
            Walk::Refused(refusal) => Walk::Refused(refusal),
        },
    }
}

/// Computes [`variants_at`].
fn walk_variants(bytes: &[u8], start: usize, count: usize, depth: u8, width: usize) -> (walk: Walk<
    Vec<Option<Layout>>,
>)
    requires
        start <= bytes@.len(),
    ensures
        walk@ == variants_at(
            bytes@,
            start as int,
            count as nat,
            depth as nat,
            width as nat,
            Seq::empty(),
        ),
        in_bounds(walk, bytes@),
    decreases depth, 2nat,
{
    let mut at: usize = start;
    let mut left: usize = count;
    let mut payloads: Vec<Option<Layout>> = Vec::new();
    while left > 0
        invariant
            at <= bytes@.len(),
            variants_at(
                bytes@,
                start as int,
                count as nat,
                depth as nat,
                width as nat,
                Seq::empty(),
            ) == variants_at(
                bytes@,
                at as int,
                left as nat,
                depth as nat,
                width as nat,
                payloads@,
            ),
        decreases left,
    {
        let named = match read_counted(bytes, at) {
            Some(named) => named,
            None => return Walk::Stuck,
        };
        let (payload, valued) = match walk_payload(bytes, named, depth) {
            Walk::At(next, payload) => (payload, next),
            Walk::Stuck => return Walk::Stuck,
            Walk::Refused(refusal) => return Walk::Refused(refusal),
        };
        match read_discriminant(bytes, valued, width) {
            Some(next) => {
                payloads.push(payload);
                at = next;
            },
            None => return Walk::Stuck,
        }
        left -= 1;
    }
    Walk::At(at, payloads)
}

// Exports.

/// The position behind an expression of an attribute: an identifier, a field element, a word or a
/// text.
pub open spec fn expression_at(bytes: Seq<u8>, at: int) -> Option<int> {
    match byte_at(bytes, at) {
        None => None,
        Some((tag, at)) => if tag == 0 || tag == 3 {
            counted_at(bytes, at)
        } else if tag == 1 {
            skipped(bytes, at, 8)
        } else if tag == 2 {
            skipped(bytes, at, 32)
        } else {
            None
        },
    }
}

/// The position behind the next `count` expressions, each behind an identifier or not.
pub open spec fn expressions_at(bytes: Seq<u8>, at: int, count: nat, keyed: bool) -> Option<int>
    decreases count,
{
    if count == 0 {
        Some(at)
    } else {
        let value = if keyed {
            counted_at(bytes, at)
        } else {
            Some(at)
        };
        match value {
            None => None,
            Some(at) => match expression_at(bytes, at) {
                None => None,
                Some(at) => expressions_at(bytes, at, (count - 1) as nat, keyed),
            },
        }
    }
}

/// The position behind an attribute: a marker, a list or pairs of keys and values.
pub open spec fn attribute_at(bytes: Seq<u8>, at: int) -> Option<int> {
    match byte_at(bytes, at) {
        None => None,
        Some((tag, at)) => if tag > 2 {
            None
        } else {
            match counted_at(bytes, at) {
                None => None,
                Some(at) => if tag == 0 {
                    Some(at)
                } else {
                    match integer_at(bytes, at) {
                        None => None,
                        Some((count, at)) => expressions_at(bytes, at, count, tag == 2),
                    }
                },
            }
        },
    }
}

/// The position behind the next `count` attributes.
pub open spec fn attributes_at(bytes: Seq<u8>, at: int, count: nat) -> Option<int>
    decreases count,
{
    if count == 0 {
        Some(at)
    } else {
        match attribute_at(bytes, at) {
            None => None,
            Some(at) => attributes_at(bytes, at, (count - 1) as nat),
        }
    }
}

/// The position behind the value of a constant: a field element, a text, a word, or a text that is
/// hashed.
pub open spec fn constant_at(bytes: Seq<u8>, at: int) -> Option<int> {
    match byte_at(bytes, at) {
        None => None,
        Some((tag, at)) => if tag == 1 {
            skipped(bytes, at, 8)
        } else if tag == 2 {
            counted_at(bytes, at)
        } else if tag == 3 {
            skipped(bytes, at, 32)
        } else if tag == 4 {
            match skipped(bytes, at, 1) {
                Some(at) => counted_at(bytes, at),
                None => None,
            }
        } else {
            None
        },
    }
}

/// A walk that goes on from a position, or gets stuck.
pub open spec fn reached(next: Option<int>) -> Walked<()> {
    match next {
        Some(at) => Walked::At(at, ()),
        None => Walked::Stuck,
    }
}

/// The signature of a procedure and its attributes: a flag, the function type where it is set, and
/// the attributes.
pub open spec fn procedure_at(bytes: Seq<u8>, at: int) -> Walked<()> {
    let signature = match flag_at(bytes, at) {
        None => Walked::Stuck,
        Some((true, at)) => function_at(bytes, at, MAX_TYPE_NESTING as nat),
        Some((false, at)) => Walked::At(at, ()),
    };
    match signature {
        Walked::At(at, _) => match integer_at(bytes, at) {
            None => Walked::Stuck,
            Some((count, at)) => reached(attributes_at(bytes, at, count)),
        },
        other => other,
    }
}

/// An export of the library or of the manifest: a tag, a path, and a procedure, a constant or a
/// type. A procedure has the number of its node in the library, and its digest in the manifest. The
/// tags of the manifest begin at one.
pub open spec fn export_at(bytes: Seq<u8>, at: int, manifest: bool) -> Walked<()> {
    match byte_at(bytes, at) {
        None => Walked::Stuck,
        Some((tag, at)) => match path_at(bytes, at) {
            None => Walked::Stuck,
            Some(at) => {
                let first: int = if manifest {
                    1
                } else {
                    0
                };
                if tag == first {
                    match skipped(
                        bytes,
                        at,
                        if manifest {
                            32
                        } else {
                            4
                        },
                    ) {
                        None => Walked::Stuck,
                        Some(at) => procedure_at(bytes, at),
                    }
                } else if tag == first + 1 {
                    reached(constant_at(bytes, at))
                } else if tag == first + 2 {
                    match type_at(bytes, at, MAX_TYPE_NESTING as nat) {
                        Walked::At(at, _) => Walked::At(at, ()),
                        Walked::Stuck => Walked::Stuck,
                        Walked::Refused(refusal) => Walked::Refused(refusal),
                    }
                } else {
                    Walked::Stuck
                }
            },
        },
    }
}

/// The next `count` exports.
pub open spec fn exports_at(bytes: Seq<u8>, at: int, count: nat, manifest: bool) -> Walked<()>
    decreases count,
{
    if count == 0 {
        Walked::At(at, ())
    } else {
        match export_at(bytes, at, manifest) {
            Walked::At(at, _) => exports_at(bytes, at, (count - 1) as nat, manifest),
            other => other,
        }
    }
}

/// The bytes with which a package begins: what it is, and the version of the format.
pub open spec fn package_header() -> Seq<u8> {
    seq![0x4du8, 0x41u8, 0x53u8, 0x50u8, 0u8, 4u8, 0u8, 0u8]
}

/// How many of the bytes the code at their beginning takes, if `miden_core` reads code there.
pub uninterp spec fn code_length(bytes: Seq<u8>) -> Option<nat>;

/// The position of the code of a package: behind the header, the name, the version, the description
/// and the target type.
pub open spec fn code_at(bytes: Seq<u8>) -> Option<int> {
    if bytes.len() < 8 || bytes.take(8) != package_header() {
        None
    } else {
        match counted_at(bytes, 8) {
            None => None,
            Some(at) => match counted_at(bytes, at) {
                None => None,
                Some(at) => match optional_counted_at(bytes, at) {
                    None => None,
                    Some(at) => skipped(bytes, at, 1),
                },
            },
        }
    }
}

/// The exports of the library and those of the manifest, behind the code. There are at least as many
/// bytes as exports of the manifest.
pub open spec fn all_exports_at(bytes: Seq<u8>, at: int) -> Walked<()> {
    match integer_at(bytes, at) {
        None => Walked::Stuck,
        Some((count, at)) => match exports_at(bytes, at, count, false) {
            Walked::At(at, _) => match integer_at(bytes, at) {
                None => Walked::Stuck,
                Some((count, at)) => if count > bytes.len() - at {
                    Walked::Refused(Refusal::Announced)
                } else {
                    exports_at(bytes, at, count, true)
                },
            },
            other => other,
        },
    }
}

/// Why bytes are not handed to the reader of packages, if they are not.
pub open spec fn refusal(bytes: Seq<u8>) -> Option<Refusal> {
    match code_at(bytes) {
        None => None,
        Some(at) => match code_length(bytes.skip(at)) {
            None => None,
            Some(length) => match all_exports_at(bytes, at + length) {
                Walked::Refused(refusal) => Some(refusal),
                _ => None,
            },
        },
    }
}

/// The bytes announce no more exports, parameters and results than there are bytes left, and every
/// type in them has a layout, up to the first thing that is no part of a package.
pub open spec fn is_readable(bytes: Seq<u8>) -> bool {
    refusal(bytes) is None
}

/// Computes [`expression_at`].
fn read_expression(bytes: &[u8], at: usize) -> (next: Option<usize>)
    requires
        at <= bytes@.len(),
    ensures
        match (next, expression_at(bytes@, at as int)) {
            (Some(next), Some(expected)) => next == expected && next <= bytes@.len(),
            (None, None) => true,
            _ => false,
        },
{
    if at >= bytes.len() {
        return None;
    }
    let tag = bytes[at];
    if tag == 0 || tag == 3 {
        read_counted(bytes, at + 1)
    } else if tag == 1 {
        read_skipped(bytes, at + 1, 8)
    } else if tag == 2 {
        read_skipped(bytes, at + 1, 32)
    } else {
        None
    }
}

/// Computes [`expressions_at`].
fn read_expressions(bytes: &[u8], start: usize, count: usize, keyed: bool) -> (next: Option<usize>)
    requires
        start <= bytes@.len(),
    ensures
        match (next, expressions_at(bytes@, start as int, count as nat, keyed)) {
            (Some(next), Some(expected)) => next == expected && next <= bytes@.len(),
            (None, None) => true,
            _ => false,
        },
{
    let mut at: usize = start;
    let mut left: usize = count;
    while left > 0
        invariant
            at <= bytes@.len(),
            expressions_at(bytes@, start as int, count as nat, keyed) == expressions_at(
                bytes@,
                at as int,
                left as nat,
                keyed,
            ),
        decreases left,
    {
        let value: usize = if keyed {
            match read_counted(bytes, at) {
                Some(value) => value,
                None => return None,
            }
        } else {
            at
        };
        match read_expression(bytes, value) {
            Some(next) => at = next,
            None => return None,
        }
        left -= 1;
    }
    Some(at)
}

/// Computes [`attribute_at`].
fn read_attribute(bytes: &[u8], at: usize) -> (next: Option<usize>)
    requires
        at <= bytes@.len(),
    ensures
        match (next, attribute_at(bytes@, at as int)) {
            (Some(next), Some(expected)) => next == expected && next <= bytes@.len(),
            (None, None) => true,
            _ => false,
        },
{
    if at >= bytes.len() || bytes[at] > 2 {
        return None;
    }
    let tag = bytes[at];
    let at = match read_counted(bytes, at + 1) {
        Some(at) => at,
        None => return None,
    };
    if tag == 0 {
        return Some(at);
    }
    match read_integer(bytes, at) {
        Some((count, at)) => read_expressions(bytes, at, count, tag == 2),
        None => None,
    }
}

/// Computes [`attributes_at`].
fn read_attributes(bytes: &[u8], start: usize, count: usize) -> (next: Option<usize>)
    requires
        start <= bytes@.len(),
    ensures
        match (next, attributes_at(bytes@, start as int, count as nat)) {
            (Some(next), Some(expected)) => next == expected && next <= bytes@.len(),
            (None, None) => true,
            _ => false,
        },
{
    let mut at: usize = start;
    let mut left: usize = count;
    while left > 0
        invariant
            at <= bytes@.len(),
            attributes_at(bytes@, start as int, count as nat) == attributes_at(
                bytes@,
                at as int,
                left as nat,
            ),
        decreases left,
    {
        match read_attribute(bytes, at) {
            Some(next) => at = next,
            None => return None,
        }
        left -= 1;
    }
    Some(at)
}

/// Computes [`constant_at`].
fn read_constant(bytes: &[u8], at: usize) -> (next: Option<usize>)
    requires
        at <= bytes@.len(),
    ensures
        match (next, constant_at(bytes@, at as int)) {
            (Some(next), Some(expected)) => next == expected && next <= bytes@.len(),
            (None, None) => true,
            _ => false,
        },
{
    if at >= bytes.len() {
        return None;
    }
    let tag = bytes[at];
    let at: usize = at + 1;
    if tag == 1 {
        read_skipped(bytes, at, 8)
    } else if tag == 2 {
        read_counted(bytes, at)
    } else if tag == 3 {
        read_skipped(bytes, at, 32)
    } else if tag == 4 {
        match read_skipped(bytes, at, 1) {
            Some(at) => read_counted(bytes, at),
            None => None,
        }
    } else {
        None
    }
}

/// Computes [`reached`].
fn walk_reached(next: Option<usize>) -> (walk: Walk<()>)
    ensures
        match next {
            Some(at) => walk == Walk::At(at, ()),
            None => walk == Walk::<()>::Stuck,
        },
{
    match next {
        Some(at) => Walk::At(at, ()),
        None => Walk::Stuck,
    }
}

/// Computes [`procedure_at`].
fn walk_procedure(bytes: &[u8], at: usize) -> (walk: Walk<()>)
    requires
        at <= bytes@.len(),
    ensures
        walk@ == procedure_at(bytes@, at as int),
        in_bounds(walk, bytes@),
{
    let signature = match read_flag(bytes, at) {
        None => return Walk::Stuck,
        Some((true, at)) => walk_function(bytes, at, MAX_TYPE_NESTING),
        Some((false, at)) => Walk::At(at, ()),
    };
    match signature {
        Walk::At(at, _) => match read_integer(bytes, at) {
            None => Walk::Stuck,
            Some((count, at)) => walk_reached(read_attributes(bytes, at, count)),
        },
        other => other,
    }
}

/// Computes [`export_at`].
fn walk_export(bytes: &[u8], at: usize, manifest: bool) -> (walk: Walk<()>)
    requires
        at <= bytes@.len(),
    ensures
        walk@ == export_at(bytes@, at as int, manifest),
        in_bounds(walk, bytes@),
{
    if at >= bytes.len() {
        return Walk::Stuck;
    }
    let tag = bytes[at];
    let at = match read_path(bytes, at + 1) {
        Some(at) => at,
        None => return Walk::Stuck,
    };
    let (first, width): (u8, usize) = if manifest {
        (1, 32)
    } else {
        (0, 4)
    };
    if tag == first {
        match read_skipped(bytes, at, width) {
            None => Walk::Stuck,
            Some(at) => walk_procedure(bytes, at),
        }
    } else if tag == first + 1 {
        walk_reached(read_constant(bytes, at))
    } else if tag == first + 2 {
        match walk_type(bytes, at, MAX_TYPE_NESTING) {
            Walk::At(at, _) => Walk::At(at, ()),
            Walk::Stuck => Walk::Stuck,
            Walk::Refused(refusal) => Walk::Refused(refusal),
        }
    } else {
        Walk::Stuck
    }
}

/// Computes [`exports_at`].
fn walk_exports(bytes: &[u8], start: usize, count: usize, manifest: bool) -> (walk: Walk<()>)
    requires
        start <= bytes@.len(),
    ensures
        walk@ == exports_at(bytes@, start as int, count as nat, manifest),
        in_bounds(walk, bytes@),
{
    let mut at: usize = start;
    let mut left: usize = count;
    while left > 0
        invariant
            at <= bytes@.len(),
            exports_at(bytes@, start as int, count as nat, manifest) == exports_at(
                bytes@,
                at as int,
                left as nat,
                manifest,
            ),
        decreases left,
    {
        match walk_export(bytes, at, manifest) {
            Walk::At(next, _) => at = next,
            other => return other,
        }
        left -= 1;
    }
    Walk::At(at, ())
}

/// `miden_core::mast::MastForest::read_from`: how many of the bytes the code at their beginning
/// takes. There is none where the code is refused. The number is a function of the bytes alone.
#[verifier::external_body]
fn read_code(bytes: &[u8]) -> (length: Option<usize>)
    ensures
        match (length, code_length(bytes@)) {
            (Some(length), Some(expected)) => length == expected && length <= bytes@.len(),
            (None, None) => true,
            _ => false,
        },
{
    let mut cursor = Cursor::new(bytes);
    MastForest::read_from(&mut cursor).ok().map(|_| cursor.position() as usize)
}

/// Computes [`code_at`].
fn find_code(bytes: &[u8]) -> (next: Option<usize>)
    ensures
        match (next, code_at(bytes@)) {
            (Some(next), Some(expected)) => next == expected && next <= bytes@.len(),
            (None, None) => true,
            _ => false,
        },
{
    if bytes.len() < 8 {
        return None;
    }
    let same = bytes[0] == 0x4d && bytes[1] == 0x41 && bytes[2] == 0x53 && bytes[3] == 0x50 && bytes[4]
        == 0 && bytes[5] == 4 && bytes[6] == 0 && bytes[7] == 0;
    if !same {
        assert(bytes@.take(8) != package_header()) by {
            if bytes@.take(8) == package_header() {
                assert(forall|i: int| 0 <= i < 8 ==> bytes@.take(8)[i] == package_header()[i]);
                assert(bytes@.take(8)[0] == 0x4d && bytes@.take(8)[1] == 0x41 && bytes@.take(8)[2]
                    == 0x53 && bytes@.take(8)[3] == 0x50);
                assert(bytes@.take(8)[4] == 0 && bytes@.take(8)[5] == 4 && bytes@.take(8)[6] == 0
                    && bytes@.take(8)[7] == 0);
            }
        }
        return None;
    }
    assert(bytes@.take(8) =~= package_header());
    let at = match read_counted(bytes, 8) {
        Some(at) => at,
        None => return None,
    };
    let at = match read_counted(bytes, at) {
        Some(at) => at,
        None => return None,
    };
    match read_optional_counted(bytes, at) {
        Some(at) => read_skipped(bytes, at, 1),
        None => None,
    }
}

/// Computes [`all_exports_at`].
fn walk_all_exports(bytes: &[u8], at: usize) -> (walk: Walk<()>)
    requires
        at <= bytes@.len(),
    ensures
        walk@ == all_exports_at(bytes@, at as int),
{
    let (count, at) = match read_integer(bytes, at) {
        Some(found) => found,
        None => return Walk::Stuck,
    };
    match walk_exports(bytes, at, count, false) {
        Walk::At(at, _) => {
            let (count, at) = match read_integer(bytes, at) {
                Some(found) => found,
                None => return Walk::Stuck,
            };
            if count > bytes.len() - at {
                Walk::Refused(Refusal::Announced)
            } else {
                walk_exports(bytes, at, count, true)
            }
        },
        other => other,
    }
}

/// Why bytes are not to be handed to the reader of packages, if they are not.
pub fn find_refusal(bytes: &[u8]) -> (found: Option<Refusal>)
    ensures
        found == refusal(bytes@),
{
    let at = match find_code(bytes) {
        Some(at) => at,
        None => return None,
    };
    let rest = slice_subrange(bytes, at, bytes.len());
    assert(rest@ =~= bytes@.skip(at as int));
    let length = match read_code(rest) {
        Some(length) => length,
        None => return None,
    };
    match walk_all_exports(bytes, at + length) {
        Walk::Refused(refusal) => Some(refusal),
        _ => None,
    }
}

} // verus!
