//! What holds of the layouts of types, and for what reasons bytes are refused.

use vstd::prelude::*;

use crate::linking::Linkage;
use crate::package;
use crate::package::{PackageView, TargetType};
use crate::package_format;
use crate::package_format::{Layout, Refusal, Repr, Walked};

verus! {

/// What is aligned is the least multiple of the alignment that is not less.
pub proof fn aligned_is_the_least_multiple(n: int, align: int)
    requires
        0 <= n,
        align > 0,
    ensures
        package_format::aligned(n, align) % align == 0,
        n <= package_format::aligned(n, align) < n + align,
{
    let r = n % align;
    if r != 0 {
        vstd::arithmetic::div_mod::lemma_fundamental_div_mod(n, align);
        let q = n / align;
        assert(n + (align - r) == align * (q + 1)) by (nonlinear_arith)
            requires
                n == align * q + r,
        ;
        vstd::arithmetic::div_mod::lemma_mod_multiples_basic(q + 1, align);
        assert(align * (q + 1) == (q + 1) * align) by (nonlinear_arith);
    }
}

/// The type has a size of at most sixty-four kilobytes, and is aligned to a power of two.
pub open spec fn is_small(layout: Layout) -> bool {
    &&& layout.bits is Some
    &&& layout.bits->0 <= 0x80000
    &&& package_format::is_power_of_two(layout.align as int)
}

proof fn lemma_greatest_align(fields: Seq<Layout>)
    requires
        forall|i: int| 0 <= i < fields.len() ==> is_small(#[trigger] fields[i]),
    ensures
        package_format::is_power_of_two(
            package_format::greatest_align(Repr::Natural, fields),
        ),
        forall|i: int|
            0 <= i < fields.len() ==> (#[trigger] fields[i]).align <= package_format::greatest_align(
                Repr::Natural,
                fields,
            ),
        package_format::greatest_align(Repr::Natural, fields) == 1 || exists|i: int|
            0 <= i < fields.len() && (#[trigger] fields[i]).align == package_format::greatest_align(
                Repr::Natural,
                fields,
            ),
    decreases fields.len(),
{
    if fields.len() > 0 {
        let rest = fields.drop_last();
        assert forall|i: int| 0 <= i < rest.len() implies is_small(#[trigger] rest[i]) by {
            assert(rest[i] == fields[i]);
        }
        lemma_greatest_align(rest);
        let last = fields[fields.len() - 1];
        assert(is_small(last));
        assert forall|i: int| 0 <= i < fields.len() implies (#[trigger] fields[i]).align
            <= package_format::greatest_align(Repr::Natural, fields) by {
            if i < rest.len() {
                assert(rest[i] == fields[i]);
            }
        }
        let greatest = package_format::greatest_align(Repr::Natural, fields);
        if greatest != 1 && last.align != greatest {
            let i = choose|i: int| 0 <= i < rest.len() && (#[trigger] rest[i]).align == greatest;
            assert(fields[i].align == greatest);
        }
    }
}

proof fn lemma_fields_end(fields: Seq<Layout>)
    requires
        fields.len() <= 255,
        forall|i: int| 0 <= i < fields.len() ==> is_small(#[trigger] fields[i]),
    ensures
        package_format::fields_end(Repr::Natural, fields) matches Some(end) && 0 <= end
            <= 0x18000 * fields.len(),
        forall|i: int|
            0 <= i < fields.len() ==> 8 * package_format::fields_end(Repr::Natural, fields)->0 >= (
            #[trigger] fields[i]).bits->0,
    decreases fields.len(),
{
    if fields.len() > 0 {
        let rest = fields.drop_last();
        assert forall|i: int| 0 <= i < rest.len() implies is_small(#[trigger] rest[i]) by {
            assert(rest[i] == fields[i]);
        }
        lemma_fields_end(rest);
        let last = fields[fields.len() - 1];
        assert(is_small(last));
        let end = package_format::fields_end(Repr::Natural, rest)->0;
        aligned_is_the_least_multiple(end, last.align as int);
        assert(last.align <= 0x8000);
        assert(package_format::field_size(last) is Some);
        assert forall|i: int| 0 <= i < fields.len() implies 8 * package_format::fields_end(
            Repr::Natural,
            fields,
        )->0 >= (#[trigger] fields[i]).bits->0 by {
            if i < rest.len() {
                assert(rest[i] == fields[i]);
            }
        }
    }
}

/// A struct of small fields has a layout: it is as strictly aligned as the strictest of them, has room
/// for each of them, and its size is a multiple of its alignment.
pub proof fn struct_of_small_fields_has_a_layout(fields: Seq<Layout>)
    requires
        fields.len() <= 255,
        forall|i: int| 0 <= i < fields.len() ==> is_small(#[trigger] fields[i]),
    ensures
        package_format::struct_layout(Repr::Natural, fields) matches Some(layout) && {
            &&& package_format::is_power_of_two(layout.align as int)
            &&& forall|i: int|
                0 <= i < fields.len() ==> (#[trigger] fields[i]).align <= layout.align
            &&& layout.align == 1 || exists|i: int|
                0 <= i < fields.len() && (#[trigger] fields[i]).align == layout.align
            &&& layout.bits is Some
            &&& layout.bits->0 % 8 == 0
            &&& (layout.bits->0 as int / 8) % (layout.align as int) == 0
            &&& forall|i: int|
                0 <= i < fields.len() ==> (#[trigger] fields[i]).bits->0 <= layout.bits->0
            &&& layout.bits->0 <= 8 * (0x18000 * fields.len() + layout.align)
        },
{
    reveal(package_format::struct_layout);
    lemma_greatest_align(fields);
    lemma_fields_end(fields);
    let align = package_format::greatest_align(Repr::Natural, fields);
    let end = package_format::fields_end(Repr::Natural, fields)->0;
    aligned_is_the_least_multiple(end, align);
    let size = package_format::aligned(end, align);
    assert(align <= 0x8000);
    assert(size <= 0x18000 * 255 + 0x8000);
    assert(package_format::struct_size(Repr::Natural, fields) == Some(size));
    assert(package_format::bits_of(size) == Some((8 * size) as usize));
    assert((8 * size) / 8 == size);
}

/// An array of small elements has a size: that of an element for each of them, at multiples of their
/// alignment.
pub proof fn array_of_small_elements_has_a_size(count: nat, element: Layout)
    requires
        is_small(element),
        count <= 0x1000,
    ensures
        package_format::array_bits(count, element) is Some,
        package_format::array_bits(count, element)->0 >= element.bits->0 * count,
        count <= 1 ==> package_format::array_bits(count, element)->0 == element.bits->0 * count,
        element.bits->0 % ((8 * element.align) as usize) == 0 ==> package_format::array_bits(
            count,
            element,
        )->0 == element.bits->0 * count,
{
    reveal(package_format::array_bits);
    let bits = element.bits->0 as int;
    let align = 8 * element.align as int;
    if count > 1 {
        assert(element.align <= 0x8000);
        aligned_is_the_least_multiple(bits, align);
        let step = package_format::aligned(bits, align);
        let more = count - 1;
        assert(step * more <= 0xc0000 * 0xfff) by (nonlinear_arith)
            requires
                0 <= step <= 0xc0000,
                0 <= more <= 0xfff,
        ;
        assert(bits * more <= step * more) by (nonlinear_arith)
            requires
                bits <= step,
                0 <= more,
        ;
        assert(bits * count == bits + bits * more) by (nonlinear_arith)
            requires
                more == count - 1,
        ;
    }
    assert(count == 0 ==> bits * count == 0) by (nonlinear_arith);
    assert(count == 1 ==> bits * count == bits) by (nonlinear_arith);
}

/// An enumeration of small payloads has a layout.
pub proof fn enumeration_of_small_payloads_has_a_layout(
    discriminant: Layout,
    payloads: Seq<Option<Layout>>,
)
    requires
        is_small(discriminant),
        forall|i: int|
            0 <= i < payloads.len() ==> ((#[trigger] payloads[i]) matches Some(payload) ==> is_small(
                payload,
            )),
    ensures
        package_format::enum_layout(discriminant, payloads) is Some,
{
    reveal(package_format::enum_layout);
    assert forall|i: int| 0 <= i < payloads.len() implies match #[trigger] payloads[i] {
        Some(payload) => package_format::tagged_layout(discriminant, payload) is Some,
        None => true,
    } by {
        if let Some(payload) = payloads[i] {
            lemma_tagged(discriminant, payload);
        }
    }
    lemma_largest(payloads);
    if let Some(payload) = package_format::largest(payloads) {
        lemma_tagged(discriminant, payload);
    }
}

proof fn lemma_tagged(discriminant: Layout, payload: Layout)
    requires
        is_small(discriminant),
        is_small(payload),
    ensures
        package_format::tagged_layout(discriminant, payload) is Some,
{
    struct_of_small_fields_has_a_layout(seq![discriminant, payload]);
}

proof fn lemma_largest(payloads: Seq<Option<Layout>>)
    requires
        forall|i: int|
            0 <= i < payloads.len() ==> ((#[trigger] payloads[i]) matches Some(payload) ==> is_small(
                payload,
            )),
    ensures
        package_format::largest(payloads) matches Some(payload) ==> is_small(payload),
    decreases payloads.len(),
{
    if payloads.len() > 0 {
        let rest = payloads.drop_last();
        assert forall|i: int| 0 <= i < rest.len() implies ((#[trigger] rest[i]) matches Some(
            payload,
        ) ==> is_small(payload)) by {
            assert(rest[i] == payloads[i]);
        }
        lemma_largest(rest);
        assert(payloads[payloads.len() - 1] matches Some(payload) ==> is_small(payload));
    }
}

/// At this position a number is announced that is greater than that of the bytes behind it.
pub open spec fn announces_too_much(bytes: Seq<u8>, at: int) -> bool {
    package_format::integer_at(bytes, at) matches Some((count, behind)) && count > bytes.len()
        - behind
}

/// At this position stand the fields of a struct that has no layout.
pub open spec fn is_struct_without_layout(
    bytes: Seq<u8>,
    at: int,
    count: nat,
    depth: nat,
    repr: Repr,
) -> bool {
    package_format::fields_at(bytes, at, count, depth, Seq::empty()) matches Walked::At(_, fields)
        && package_format::struct_layout(repr, fields) is None
}

/// At this position stand the variants of an enumeration that has no layout.
pub open spec fn is_enumeration_without_layout(
    bytes: Seq<u8>,
    at: int,
    count: nat,
    depth: nat,
    discriminant: Layout,
) -> bool {
    package_format::variants_at(
        bytes,
        at,
        count,
        depth,
        package_format::discriminant_width(discriminant.bits),
        Seq::empty(),
    ) matches Walked::At(_, payloads) && package_format::enum_layout(discriminant, payloads) is None
}

/// There is what the bytes are refused for.
pub open spec fn has_reason(bytes: Seq<u8>, refusal: Refusal) -> bool {
    match refusal {
        Refusal::Announced => exists|at: int| #[trigger] announces_too_much(bytes, at),
        Refusal::Layout => {
            ||| exists|at: int, count: nat, depth: nat, repr: Repr| #[trigger]
                is_struct_without_layout(bytes, at, count, depth, repr)
            ||| exists|at: int, count: nat, depth: nat, discriminant: Layout| #[trigger]
                is_enumeration_without_layout(bytes, at, count, depth, discriminant)
        },
    }
}

proof fn lemma_type(bytes: Seq<u8>, at: int, depth: nat)
    ensures
        package_format::type_at(bytes, at, depth) matches Walked::Refused(refusal) ==> has_reason(
            bytes,
            refusal,
        ),
    decreases depth, 0nat, 0nat,
{
    if package_format::byte_at(bytes, at) is Some && bytes[at] >= 16 && bytes[at] <= 21 && depth
        > 0 {
        let inner = (depth - 1) as nat;
        let tag = bytes[at];
        if tag == 16 {
            lemma_type(bytes, at + 2, inner);
        } else if tag == 17 {
            lemma_struct(bytes, at + 1, inner);
        } else if tag == 18 {
            if let Some((_, behind)) = package_format::integer_at(bytes, at + 1) {
                lemma_type(bytes, behind, inner);
            }
        } else if tag == 19 {
            lemma_type(bytes, at + 1, inner);
        } else if tag == 20 {
            lemma_function(bytes, at + 1, inner);
        } else {
            lemma_enumeration(bytes, at + 1, inner);
        }
    }
}

proof fn lemma_struct(bytes: Seq<u8>, at: int, depth: nat)
    ensures
        package_format::struct_at(bytes, at, depth) matches Walked::Refused(refusal) ==> has_reason(
            bytes,
            refusal,
        ),
    decreases depth, 3nat, 0nat,
{
    if let Some(at) = package_format::optional_counted_at(bytes, at) {
        if let Some((repr, at)) = package_format::repr_at(bytes, at) {
            if let Some((count, at)) = package_format::byte_at(bytes, at) {
                lemma_fields(bytes, at, count as nat, depth, Seq::empty());
                if let Walked::At(_, fields) = package_format::fields_at(
                    bytes,
                    at,
                    count as nat,
                    depth,
                    Seq::empty(),
                ) {
                    if package_format::struct_layout(repr, fields) is None {
                        assert(is_struct_without_layout(bytes, at, count as nat, depth, repr));
                    }
                }
            }
        }
    }
}

proof fn lemma_fields(bytes: Seq<u8>, at: int, count: nat, depth: nat, done: Seq<Layout>)
    ensures
        package_format::fields_at(bytes, at, count, depth, done) matches Walked::Refused(refusal)
            ==> has_reason(bytes, refusal),
    decreases depth, 1nat, count,
{
    if count > 0 {
        if let Some(at) = package_format::optional_counted_at(bytes, at) {
            lemma_type(bytes, at, depth);
            if let Walked::At(at, field) = package_format::type_at(bytes, at, depth) {
                lemma_fields(bytes, at, (count - 1) as nat, depth, done.push(field));
            }
        }
    }
}

proof fn lemma_function(bytes: Seq<u8>, at: int, depth: nat)
    ensures
        package_format::function_at(bytes, at, depth) matches Walked::Refused(refusal)
            ==> has_reason(bytes, refusal),
    decreases depth, 4nat, 0nat,
{
    lemma_announced(bytes, at + 1, depth);
    if let Walked::At(behind, _) = package_format::announced_types_at(bytes, at + 1, depth) {
        lemma_announced(bytes, behind, depth);
    }
}

proof fn lemma_announced(bytes: Seq<u8>, at: int, depth: nat)
    ensures
        package_format::announced_types_at(bytes, at, depth) matches Walked::Refused(refusal)
            ==> has_reason(bytes, refusal),
    decreases depth, 2nat, 0nat,
{
    if let Some((count, behind)) = package_format::integer_at(bytes, at) {
        if count > bytes.len() - behind {
            assert(announces_too_much(bytes, at));
        } else {
            lemma_types(bytes, behind, count, depth);
        }
    }
}

proof fn lemma_types(bytes: Seq<u8>, at: int, count: nat, depth: nat)
    ensures
        package_format::types_at(bytes, at, count, depth) matches Walked::Refused(refusal)
            ==> has_reason(bytes, refusal),
    decreases depth, 1nat, count,
{
    if count > 0 {
        lemma_type(bytes, at, depth);
        if let Walked::At(behind, _) = package_format::type_at(bytes, at, depth) {
            lemma_types(bytes, behind, (count - 1) as nat, depth);
        }
    }
}

proof fn lemma_enumeration(bytes: Seq<u8>, at: int, depth: nat)
    ensures
        package_format::enum_at(bytes, at, depth) matches Walked::Refused(refusal) ==> has_reason(
            bytes,
            refusal,
        ),
    decreases depth, 3nat, 0nat,
{
    if let Some(start) = package_format::counted_at(bytes, at) {
        lemma_type(bytes, start, depth);
        if let Walked::At(at, discriminant) = package_format::type_at(bytes, start, depth) {
            if let Some((count, at)) = package_format::integer_at(bytes, at) {
                let width = package_format::discriminant_width(discriminant.bits);
                lemma_variants(bytes, at, count, depth, width, Seq::empty());
                if let Walked::At(_, payloads) = package_format::variants_at(
                    bytes,
                    at,
                    count,
                    depth,
                    width,
                    Seq::empty(),
                ) {
                    if package_format::enum_layout(discriminant, payloads) is None {
                        assert(is_enumeration_without_layout(
                            bytes,
                            at,
                            count,
                            depth,
                            discriminant,
                        ));
                    }
                }
            }
        }
    }
}

proof fn lemma_variants(
    bytes: Seq<u8>,
    at: int,
    count: nat,
    depth: nat,
    width: nat,
    done: Seq<Option<Layout>>,
)
    ensures
        package_format::variants_at(bytes, at, count, depth, width, done) matches Walked::Refused(
            refusal,
        ) ==> has_reason(bytes, refusal),
    decreases depth, 2nat, count,
{
    if count > 0 {
        if let Some(at) = package_format::counted_at(bytes, at) {
            if let Some((true, behind)) = package_format::flag_at(bytes, at) {
                lemma_type(bytes, behind, depth);
            }
            if let Walked::At(at, payload) = package_format::payload_at(bytes, at, depth) {
                if let Some(at) = package_format::discriminant_at(bytes, at, width) {
                    lemma_variants(
                        bytes,
                        at,
                        (count - 1) as nat,
                        depth,
                        width,
                        done.push(payload),
                    );
                }
            }
        }
    }
}

proof fn lemma_export(bytes: Seq<u8>, at: int, manifest: bool)
    ensures
        package_format::export_at(bytes, at, manifest) matches Walked::Refused(refusal)
            ==> has_reason(bytes, refusal),
{
    if let Some((_, at)) = package_format::byte_at(bytes, at) {
        if let Some(at) = package_format::path_at(bytes, at) {
            let nesting = package_format::MAX_TYPE_NESTING as nat;
            lemma_type(bytes, at, nesting);
            let width: nat = if manifest {
                32
            } else {
                4
            };
            if let Some(at) = package_format::skipped(bytes, at, width) {
                if let Some((_, at)) = package_format::flag_at(bytes, at) {
                    lemma_function(bytes, at, nesting);
                }
            }
        }
    }
}

proof fn lemma_exports(bytes: Seq<u8>, at: int, count: nat, manifest: bool)
    ensures
        package_format::exports_at(bytes, at, count, manifest) matches Walked::Refused(refusal)
            ==> has_reason(bytes, refusal),
    decreases count,
{
    if count > 0 {
        lemma_export(bytes, at, manifest);
        if let Walked::At(behind, _) = package_format::export_at(bytes, at, manifest) {
            lemma_exports(bytes, behind, (count - 1) as nat, manifest);
        }
    }
}

/// Bytes are refused only if they announce more than there are bytes left, or hold a struct or an
/// enumeration that has no layout. All other bytes are handed to the reader of packages.
pub proof fn bytes_are_refused_for_a_reason(bytes: Seq<u8>)
    ensures
        package_format::refusal(bytes) matches Some(refusal) ==> has_reason(bytes, refusal),
{
    if let Some(at) = package_format::code_at(bytes) {
        if let Some(length) = package_format::code_length(bytes.skip(at)) {
            let at = at + length;
            if let Some((count, at)) = package_format::integer_at(bytes, at) {
                lemma_exports(bytes, at, count, false);
                if let Walked::At(at, _) = package_format::exports_at(bytes, at, count, false) {
                    if let Some((count, behind)) = package_format::integer_at(bytes, at) {
                        if count > bytes.len() - behind {
                            assert(announces_too_much(bytes, at));
                        } else {
                            lemma_exports(bytes, behind, count, true);
                        }
                    }
                }
            }
        }
    }
}

/// What the reader of packages reads from bytes that are not refused is what they hold.
pub proof fn other_bytes_hold_what_the_reader_reads(bytes: Seq<u8>)
    requires
        forall|at: int| !#[trigger] announces_too_much(bytes, at),
        forall|at: int, count: nat, depth: nat, repr: Repr|
            !#[trigger] is_struct_without_layout(bytes, at, count, depth, repr),
        forall|at: int, count: nat, depth: nat, discriminant: Layout|
            !#[trigger] is_enumeration_without_layout(bytes, at, count, depth, discriminant),
    ensures
        package::decoded_package(bytes) == package::deserialized_package(bytes),
{
    bytes_are_refused_for_a_reason(bytes);
}

/// The bytes hold a package if reading them gives it, whatever it was read from before.
pub proof fn package_is_held_where_it_is_read(bytes: Seq<u8>, package: PackageView)
    ensures
        package::holds(bytes, package) <==> (package::decoded_package(bytes) matches Ok(read) && {
            &&& read.name == package.name
            &&& read.version == package.version
            &&& read.description == package.description
            &&& read.kind == package.kind
            &&& read.digest == package.digest
            &&& read.dependencies == package.dependencies
            &&& read.sections == package.sections
            &&& read.encoded == package.encoded
            &&& read.source == bytes
        }),
{
}

/// Different types of targets are displayed differently, and so are different linkages.
pub proof fn types_and_linkages_are_told_apart(
    a: TargetType,
    b: TargetType,
    x: Linkage,
    y: Linkage,
)
    ensures
        a.name() == b.name() <==> a == b,
        x.name() == y.name() <==> x == y,
{
    reveal_strlit("library");
    reveal_strlit("executable");
    reveal_strlit("kernel");
    reveal_strlit("account-component");
    reveal_strlit("note");
    reveal_strlit("transaction-script");
    reveal_strlit("dynamic");
    reveal_strlit("static");
    assert("library"@.len() == 7 && "executable"@.len() == 10 && "kernel"@.len() == 6);
    assert("account-component"@.len() == 17 && "note"@.len() == 4);
    assert("transaction-script"@.len() == 18);
    assert("dynamic"@.len() == 7 && "static"@.len() == 6);
}

} // verus!
