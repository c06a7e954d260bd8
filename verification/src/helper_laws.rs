//! What the helpers come to, item by item.

use crate::bytes::splice;
use crate::counters::bumped;
use crate::text::{lemma_numerals_say_their_number, numeral_value, signed_decimal, texts};
use vstd::prelude::*;

verus! {

/// Bytes that are put into a buffer lie where they are put; every other byte stays,
/// and so does the length.
pub proof fn lemma_spliced_bytes(base: Seq<u8>, at: int, data: Seq<u8>, i: int)
    requires
        0 <= i < base.len(),
    ensures
        splice(base, at, data).len() == base.len(),
        at <= i < at + data.len() ==> splice(base, at, data)[i] == data[i - at],
        i < at || i >= at + data.len() ==> splice(base, at, data)[i] == base[i],
{
}

/// A counter goes up by one, and starts over at the end of its range.
pub proof fn lemma_counters_count(n: u32)
    ensures
        n < u32::MAX ==> bumped(n) == n + 1,
        n == u32::MAX ==> bumped(n) == 0,
{
}

/// The texts of a list are those of its items, one for one.
pub proof fn lemma_texts_of_a_list(v: Seq<String>, i: int)
    ensures
        texts(v).len() == v.len(),
        0 <= i < v.len() ==> texts(v)[i] == v[i]@,
{
}

/// A numeral with a sign says its number: without one it is the number itself, and
/// behind a minus sign its opposite.
pub proof fn lemma_signed_numerals(n: int)
    ensures
        n >= 0 ==> numeral_value(signed_decimal(n)) == n,
        n < 0 ==> signed_decimal(n)[0] == '-' && numeral_value(signed_decimal(n).skip(1)) == -n,
{
    if n >= 0 {
        lemma_numerals_say_their_number(n as nat);
    } else {
        lemma_numerals_say_their_number((-n) as nat);
        assert(signed_decimal(n).skip(1) =~= crate::text::decimal((-n) as nat));
    }
}

} // verus!
