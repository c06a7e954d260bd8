//! Text helpers: comparison, prefixes, suffixes, decimal numerals and C
//! strings.

use vstd::prelude::*;
use vstd::string::*;
use vstd::utf8::*;

verus! {

/// The decimal digit `d`, `0 <= d < 10`.
pub open spec fn digit(d: int) -> char {
    ('0' as u32 + d) as u32 as char
}

/// The decimal numeral of `n`, without leading zeros.
pub open spec fn decimal(n: nat) -> Seq<char>
    decreases n,
{
    if n < 10 {
        seq![digit(n as int)]
    } else {
        decimal(n / 10).push(digit((n % 10) as int))
    }
}

/// The decimal numeral of `n`, with a minus sign where it is negative.
pub open spec fn signed_decimal(n: int) -> Seq<char> {
    if n < 0 {
        seq!['-'] + decimal((-n) as nat)
    } else {
        decimal(n as nat)
    }
}

/// The one-character text of the digit `d`.
fn digit_str(d: u64) -> (r: &'static str)
    requires
        d < 10,
    ensures
        r@ == seq![digit(d as int)],
{
    proof {
        reveal_strlit("0");
        reveal_strlit("1");
        reveal_strlit("2");
        reveal_strlit("3");
        reveal_strlit("4");
        reveal_strlit("5");
        reveal_strlit("6");
        reveal_strlit("7");
        reveal_strlit("8");
        reveal_strlit("9");
    }
    let r = match d {
        0 => "0",
        1 => "1",
        2 => "2",
        3 => "3",
        4 => "4",
        5 => "5",
        6 => "6",
        7 => "7",
        8 => "8",
        _ => "9",
    };
    assert(r@ =~= seq![digit(d as int)]);
    r
}

/// Appends the decimal numeral of `n` to `s`.
pub fn push_decimal(s: &mut String, n: u64)
    ensures
        final(s)@ == old(s)@ + decimal(n as nat),
    decreases n,
{
    if n >= 10 {
        push_decimal(s, n / 10);
    }
    let ghost before = s@;
    s.append(digit_str(n % 10));
    proof {
        if n >= 10 {
            assert(s@ =~= old(s)@ + decimal(n as nat));
        }
    }
}

/// Appends the decimal numeral of `n` to `s`, with its sign if it is negative.
pub fn push_signed_decimal(s: &mut String, n: i64)
    ensures
        final(s)@ == old(s)@ + signed_decimal(n as int),
{
    if n < 0 {
        proof {
            reveal_strlit("-");
            assert("-"@ =~= seq!['-']);
        }
        s.append("-");
        if n == i64::MIN {
            push_decimal(s, 9223372036854775808u64);
        } else {
            push_decimal(s, (-n) as u64);
        }
        assert(s@ =~= old(s)@ + signed_decimal(n as int));
    } else {
        push_decimal(s, n as u64);
    }
}

/// Texts are equal exactly when their UTF-8 encodings are.
pub proof fn lemma_utf8_injective(a: Seq<char>, b: Seq<char>)
    ensures
        (encode_utf8(a) == encode_utf8(b)) == (a == b),
{
    encode_utf8_decode_utf8(a);
    encode_utf8_decode_utf8(b);
}

/// `a` and `b` hold the same bytes.
pub fn bytes_eq(a: &[u8], b: &[u8]) -> (r: bool)
    ensures
        r == (a@ == b@),
{
    if a.len() != b.len() {
        return false;
    }
    let mut i: usize = 0;
    while i < a.len()
        invariant
            a.len() == b.len(),
            i <= a.len(),
            forall|j: int| 0 <= j < i ==> a@[j] == b@[j],
        decreases a.len() - i,
    {
        if a[i] != b[i] {
            return false;
        }
        i += 1;
    }
    assert(a@ =~= b@);
    true
}

/// `a` and `b` are the same text.
pub fn str_eq(a: &str, b: &str) -> (r: bool)
    ensures
        r == (a@ == b@),
{
    proof {
        lemma_utf8_injective(a@, b@);
    }
    bytes_eq(a.as_bytes(), b.as_bytes())
}

/// `b` ends with the bytes `suffix`.
pub open spec fn ends_with(b: Seq<u8>, suffix: Seq<u8>) -> bool {
    &&& suffix.len() <= b.len()
    &&& b.subrange(b.len() - suffix.len(), b.len() as int) == suffix
}

/// `b` starts with the bytes `prefix`.
pub open spec fn starts_with(b: Seq<u8>, prefix: Seq<u8>) -> bool {
    &&& prefix.len() <= b.len()
    &&& b.subrange(0, prefix.len() as int) == prefix
}

/// `b` is `first` followed by something.
pub open spec fn continues(first: Seq<u8>, b: Seq<u8>) -> bool {
    exists|rest: Seq<u8>| b == #[trigger] (first + rest)
}

/// `b` is something followed by `last`.
pub open spec fn concludes(last: Seq<u8>, b: Seq<u8>) -> bool {
    exists|rest: Seq<u8>| b == #[trigger] (rest + last)
}

/// A text starts with a prefix exactly if it is the prefix followed by something,
/// and ends with a suffix exactly if it is something followed by the suffix.
pub proof fn lemma_starts_and_ends(b: Seq<u8>, p: Seq<u8>)
    ensures
        starts_with(b, p) <==> continues(p, b),
        ends_with(b, p) <==> concludes(p, b),
{
    if starts_with(b, p) {
        assert(b =~= p + b.skip(p.len() as int));
    }
    if continues(p, b) {
        let rest = choose|rest: Seq<u8>| b == #[trigger] (p + rest);
        assert(b.subrange(0, p.len() as int) =~= p);
    }
    if ends_with(b, p) {
        assert(b =~= b.take(b.len() - p.len()) + p);
    }
    if concludes(p, b) {
        let rest = choose|rest: Seq<u8>| b == #[trigger] (rest + p);
        assert(b.subrange(b.len() - p.len(), b.len() as int) =~= p);
    }
}

/// Whether `b` ends with `suffix`.
pub fn bytes_end_with(b: &[u8], suffix: &[u8]) -> (r: bool)
    ensures
        r == ends_with(b@, suffix@),
{
    if suffix.len() > b.len() {
        return false;
    }
    bytes_eq(vstd::slice::slice_subrange(b, b.len() - suffix.len(), b.len()), suffix)
}

/// Whether `b` starts with `prefix`.
pub fn bytes_start_with(b: &[u8], prefix: &[u8]) -> (r: bool)
    ensures
        r == starts_with(b@, prefix@),
{
    if prefix.len() > b.len() {
        return false;
    }
    bytes_eq(vstd::slice::slice_subrange(b, 0, prefix.len()), prefix)
}

/// Where the first NUL byte of `b` stands, if it holds one.
pub fn find_nul(b: &[u8]) -> (r: Option<usize>)
    ensures
        match r {
            Some(i) => i < b@.len() && b@[i as int] == 0 && forall|j: int|
                0 <= j < i ==> b@[j] != 0,
            None => !b@.contains(0u8),
        },
{
    let mut i: usize = 0;
    while i < b.len()
        invariant
            i <= b.len(),
            forall|j: int| 0 <= j < i ==> b@[j] != 0,
        decreases b.len() - i,
    {
        if b[i] == 0 {
            return Some(i);
        }
        i += 1;
    }
    None
}

/// The NUL-terminated form of the text `s`.
pub open spec fn c_bytes(s: Seq<char>) -> Seq<u8> {
    encode_utf8(s).push(0u8)
}

/// The NUL-terminated form of `s`, or `None` where `s` itself holds a NUL.
pub fn c_string(s: &str) -> (r: Option<Vec<u8>>)
    ensures
        match r {
            Some(v) => v@ == c_bytes(s@) && !encode_utf8(s@).contains(0u8),
            None => encode_utf8(s@).contains(0u8),
        },
{
    let bytes = s.as_bytes();
    match find_nul(bytes) {
        Some(i) => {
            assert(bytes@[i as int] == 0u8);
            None
        },
        None => {
            let mut v = vstd::slice::slice_to_vec(bytes);
            v.push(0u8);
            Some(v)
        },
    }
}

/// `std::str::from_utf8`: the text that `b` encodes, if `b` is valid UTF-8.
#[verifier::external_body]
pub(crate) fn utf8_text(b: &[u8]) -> (r: Option<&str>)
    ensures
        match r {
            Some(s) => valid_utf8(b@) && s@ == decode_utf8(b@),
            None => !valid_utf8(b@),
        },
{
    match std::str::from_utf8(b) {
        Ok(s) => Some(s),
        Err(_) => None,
    }
}

/// Different numbers have different numerals.
pub proof fn lemma_decimal_injective(a: nat, b: nat)
    requires
        decimal(a) == decimal(b),
    ensures
        a == b,
    decreases a,
{
    assert(decimal(a).len() > 0);
    assert(decimal(a).last() == digit((a % 10) as int)) by {
        if a < 10 {
            assert(decimal(a) == seq![digit(a as int)]);
        }
    }
    assert(decimal(b).last() == digit((b % 10) as int)) by {
        if b < 10 {
            assert(decimal(b) == seq![digit(b as int)]);
        }
    }
    assert(a % 10 == b % 10);
    lemma_decimal_len(a);
    lemma_decimal_len(b);
    if a >= 10 && b >= 10 {
        assert(decimal(a).drop_last() =~= decimal(a / 10));
        assert(decimal(b).drop_last() =~= decimal(b / 10));
        lemma_decimal_injective(a / 10, b / 10);
    }
}

/// A numeral has one digit exactly below ten.
proof fn lemma_decimal_len(n: nat)
    ensures
        decimal(n).len() >= 1,
        n < 10 <==> decimal(n).len() == 1,
    decreases n,
{
    if n >= 10 {
        lemma_decimal_len(n / 10);
    }
}

/// What the digits of `s` say, read from the left.
pub open spec fn numeral_value(s: Seq<char>) -> int
    decreases s.len(),
{
    if s.len() == 0 {
        0
    } else {
        10 * numeral_value(s.drop_last()) + (s.last() as u32 - 48)
    }
}

/// A numeral says the number that it is the numeral of, has only digits, and starts
/// with a zero only if it is zero.
pub proof fn lemma_numerals_say_their_number(n: nat)
    ensures
        numeral_value(decimal(n)) == n,
        decimal(n).len() > 0,
        forall|i: int| 0 <= i < decimal(n).len() ==> '0' <= #[trigger] decimal(n)[i] <= '9',
        n > 0 ==> decimal(n)[0] != '0',
    decreases n,
{
    let s = decimal(n);
    let d = (n % 10) as int;
    assert(digit(d) as u32 == 48 + d);
    if n >= 10 {
        lemma_numerals_say_their_number(n / 10);
        assert(s.drop_last() =~= decimal(n / 10));
    } else {
        assert(s.drop_last() =~= Seq::empty());
        assert(numeral_value(Seq::empty()) == 0);
    }
}

/// Different numbers have different numerals, negative ones too.
pub proof fn lemma_signed_decimal_injective(a: int, b: int)
    requires
        signed_decimal(a) == signed_decimal(b),
    ensures
        a == b,
{
    let da = decimal(if a < 0 { (-a) as nat } else { a as nat });
    let db = decimal(if b < 0 { (-b) as nat } else { b as nat });
    lemma_numerals_say_their_number(if a < 0 { (-a) as nat } else { a as nat });
    lemma_numerals_say_their_number(if b < 0 { (-b) as nat } else { b as nat });
    if a < 0 {
        assert(signed_decimal(a)[0] == '-');
        assert(signed_decimal(a).skip(1) =~= da);
    } else {
        assert(signed_decimal(a)[0] == da[0]);
    }
    if b < 0 {
        assert(signed_decimal(b)[0] == '-');
        assert(signed_decimal(b).skip(1) =~= db);
    } else {
        assert(signed_decimal(b)[0] == db[0]);
    }
}

/// The texts of `v`.
pub open spec fn texts(v: Seq<String>) -> Seq<Seq<char>> {
    v.map_values(|s: String| s@)
}

/// One more text.
pub proof fn lemma_texts_push(v: Seq<String>, s: String)
    ensures
        texts(v.push(s)) == texts(v).push(s@),
{
    assert(texts(v.push(s)) =~= texts(v).push(s@));
}

/// A copy of `v`.
pub fn copy_texts(v: &Vec<String>) -> (r: Vec<String>)
    ensures
        texts(r@) == texts(v@),
{
    let mut r: Vec<String> = Vec::new();
    let mut i: usize = 0;
    while i < v.len()
        invariant
            i <= v.len(),
            texts(r@) =~= texts(v@).take(i as int),
        decreases v.len() - i,
    {
        let s: String = v[i].clone();
        proof {
            lemma_texts_push(r@, s);
            assert(texts(v@).take(i + 1) =~= texts(v@).take(i as int).push(s@));
        }
        r.push(s);
        i = i + 1;
    }
    assert(texts(v@).take(i as int) =~= texts(v@));
    r
}

/// The text that `String::from_utf8_lossy` reads out of `b`.
pub uninterp spec fn lossy_text(b: Seq<u8>) -> Seq<char>;

/// `String::from_utf8_lossy`: what is not valid UTF-8 is replaced; valid UTF-8
/// is read as it is.
#[verifier::external_body]
pub(crate) fn lossy(b: &[u8]) -> (r: String)
    ensures
        r@ == lossy_text(b@),
        valid_utf8(b@) ==> r@ == decode_utf8(b@),
{
    String::from_utf8_lossy(b).into_owned()
}

/// `c` has the Unicode property White_Space.
pub open spec fn is_white(c: char) -> bool {
    ||| '\u{9}' <= c <= '\u{d}'
    ||| c == ' '
    ||| c == '\u{85}'
    ||| c == '\u{a0}'
    ||| c == '\u{1680}'
    ||| '\u{2000}' <= c <= '\u{200a}'
    ||| c == '\u{2028}'
    ||| c == '\u{2029}'
    ||| c == '\u{202f}'
    ||| c == '\u{205f}'
    ||| c == '\u{3000}'
}

/// `s` without the white space at its start.
pub open spec fn trim_start(s: Seq<char>) -> Seq<char>
    decreases s.len(),
{
    if s.len() > 0 && is_white(s[0]) {
        trim_start(s.skip(1))
    } else {
        s
    }
}

/// `s` without the white space at its end.
pub open spec fn trim_end(s: Seq<char>) -> Seq<char>
    decreases s.len(),
{
    if s.len() > 0 && is_white(s.last()) {
        trim_end(s.drop_last())
    } else {
        s
    }
}

/// `str::trim`: the text without the white space at its start and end.
#[verifier::external_body]
pub(crate) fn trim(s: &str) -> (r: &str)
    ensures
        r@ == trim_end(trim_start(s@)),
{
    s.trim()
}

/// The encoding of two texts after one another is that of the first followed by
/// that of the second.
pub proof fn lemma_encode_concat(a: Seq<char>, b: Seq<char>)
    ensures
        encode_utf8(a + b) == encode_utf8(a) + encode_utf8(b),
    decreases a.len(),
{
    if a.len() == 0 {
        assert(a + b =~= b);
        assert(encode_utf8(a) =~= Seq::<u8>::empty());
    } else {
        assert((a + b).drop_first() =~= a.drop_first() + b);
        lemma_encode_concat(a.drop_first(), b);
        assert(encode_utf8(a + b) =~= encode_utf8(a) + encode_utf8(b));
    }
}

/// A character takes at most four bytes.
pub proof fn lemma_encode_len(a: Seq<char>)
    ensures
        encode_utf8(a).len() <= 4 * a.len(),
    decreases a.len(),
{
    if a.len() > 0 {
        lemma_encode_len(a.drop_first());
    }
}

/// Only the empty text has an empty encoding.
pub proof fn lemma_encode_nonempty(a: Seq<char>)
    requires
        a.len() > 0,
    ensures
        encode_utf8(a).len() > 0,
{
    if encode_utf8(a).len() == 0 {
        let none = Seq::<char>::empty();
        assert(encode_utf8(none) =~= encode_utf8(a));
        encode_utf8_decode_utf8(a);
        encode_utf8_decode_utf8(none);
    }
}

} // verus!
