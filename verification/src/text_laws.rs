//! What holds of the order of texts and of numerals.

use vstd::prelude::*;
use vstd::utf8::*;

use crate::text;

verus! {

/// The first place where two sequences of bytes differ: they agree in front of it, and one of them
/// ends there or has another byte.
pub open spec fn differ_at(a: Seq<u8>, b: Seq<u8>, k: int) -> bool {
    &&& 0 <= k <= a.len()
    &&& k <= b.len()
    &&& forall|i: int| 0 <= i < k ==> #[trigger] a[i] == b[i]
    &&& (k == a.len() && k < b.len()) || (k < a.len() && k == b.len()) || (k < a.len() && k
        < b.len() && a[k] != b[k])
}

/// Of two sequences of bytes the one comes first that ends, or has the lesser byte, where they first
/// differ.
pub proof fn bytes_are_ordered_by_their_first_difference(a: Seq<u8>, b: Seq<u8>, k: int)
    requires
        differ_at(a, b, k),
    ensures
        text::bytes_lt(a, b) <==> k < b.len() && (k == a.len() || a[k] < b[k]),
    decreases k,
{
    if k > 0 {
        assert(a[0] == b[0]);
        let (c, d) = (a.drop_first(), b.drop_first());
        assert forall|i: int| 0 <= i < k - 1 implies #[trigger] c[i] == d[i] by {
            assert(a[i + 1] == b[i + 1]);
        }
        bytes_are_ordered_by_their_first_difference(c, d, k - 1);
    }
}

/// Texts are ordered as the bytes that they are encoded in.
pub proof fn texts_are_ordered_by_their_bytes(a: Seq<char>, b: Seq<char>, k: int)
    requires
        differ_at(encode_utf8(a), encode_utf8(b), k),
    ensures
        text::text_lt(a, b) <==> k < encode_utf8(b).len() && (k == encode_utf8(a).len()
            || encode_utf8(a)[k] < encode_utf8(b)[k]),
{
    bytes_are_ordered_by_their_first_difference(encode_utf8(a), encode_utf8(b), k);
}

/// The number that a numeral stands for.
pub open spec fn number(numeral: Seq<char>) -> int
    decreases numeral.len(),
{
    if numeral.len() == 0 {
        0
    } else {
        10 * number(numeral.drop_last()) + (numeral.last() as int - '0' as int)
    }
}

/// The numeral of a number stands for it. It consists of digits, and only that of zero begins with
/// one.
pub proof fn numeral_stands_for_the_number(n: nat)
    ensures
        number(text::decimal(n)) == n,
        text::decimal(n).len() > 0,
        forall|i: int|
            0 <= i < text::decimal(n).len() ==> '0' <= #[trigger] text::decimal(n)[i] <= '9',
        n > 0 ==> text::decimal(n)[0] != '0',
    decreases n,
{
    reveal_with_fuel(number, 2);
    let numeral = text::decimal(n);
    if n >= 10 {
        numeral_stands_for_the_number(n / 10);
        assert(numeral.drop_last() =~= text::decimal(n / 10));
    } else {
        assert(numeral.drop_last() =~= Seq::<char>::empty());
    }
}

} // verus!
