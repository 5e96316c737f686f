//! Verified text utilities shared by the parsers and the command
//! planner: first/last occurrence of a character, substring search,
//! decimal parsing and whitespace trimming, each with a specification
//! over the character sequence.

use vstd::prelude::*;
use vstd::string::StrSliceExecFns;
use vstd::utf8::{decode_utf8, valid_utf8};

verus! {

/// Index of the first occurrence of `c` in `s`, or `s.len()` when `c`
/// does not occur.
pub open spec fn find_char(s: Seq<char>, c: char) -> int
    decreases s.len(),
{
    if s.len() == 0 {
        0
    } else if s[0] == c {
        0
    } else {
        1 + find_char(s.drop_first(), c)
    }
}

pub proof fn lemma_find_char(s: Seq<char>, c: char)
    ensures
        0 <= find_char(s, c) <= s.len(),
        find_char(s, c) < s.len() ==> s[find_char(s, c)] == c,
        forall|j: int| 0 <= j < find_char(s, c) ==> s[j] != c,
    decreases s.len(),
{
    if s.len() != 0 && s[0] != c {
        lemma_find_char(s.drop_first(), c);
        assert forall|j: int| 0 <= j < find_char(s, c) implies s[j] != c by {
            if j > 0 {
                assert(s.drop_first()[j - 1] == s[j]);
            }
        }
    }
}

/// A position that holds `c` and has no `c` before it is the first one.
pub proof fn lemma_find_char_is(s: Seq<char>, c: char, k: int)
    requires
        0 <= k <= s.len(),
        forall|j: int| 0 <= j < k ==> s[j] != c,
        k < s.len() ==> s[k] == c,
    ensures
        find_char(s, c) == k,
{
    lemma_find_char(s, c);
    let f = find_char(s, c);
    if f < k {
        assert(s[f] != c);
    }
    if k < f {
        assert(s[k] != c);
    }
}

/// Index of the last occurrence of `c` in `s`, or `-1` when `c` does
/// not occur.
pub open spec fn rfind_char(s: Seq<char>, c: char) -> int
    decreases s.len(),
{
    if s.len() == 0 {
        -1
    } else if s.last() == c {
        s.len() - 1
    } else {
        rfind_char(s.drop_last(), c)
    }
}

pub proof fn lemma_rfind_char(s: Seq<char>, c: char)
    ensures
        -1 <= rfind_char(s, c) < s.len(),
        rfind_char(s, c) >= 0 ==> s[rfind_char(s, c)] == c,
        forall|j: int| rfind_char(s, c) < j < s.len() ==> s[j] != c,
    decreases s.len(),
{
    if s.len() != 0 && s.last() != c {
        lemma_rfind_char(s.drop_last(), c);
        assert forall|j: int| rfind_char(s, c) < j < s.len() implies s[j] != c by {
            if j < s.len() - 1 {
                assert(s.drop_last()[j] == s[j]);
            }
        }
    }
}

/// A position that holds `c` and has no `c` after it is the last one;
/// a sequence with no `c` at all has none.
pub proof fn lemma_rfind_char_is(s: Seq<char>, c: char, k: int)
    requires
        -1 <= k < s.len(),
        forall|j: int| k < j < s.len() ==> s[j] != c,
        k >= 0 ==> s[k] == c,
    ensures
        rfind_char(s, c) == k,
{
    lemma_rfind_char(s, c);
    let f = rfind_char(s, c);
    if f < k {
        assert(s[k] != c);
    }
    if k < f {
        assert(s[f] != c);
    }
}

/// Whether `n` occurs as a contiguous subsequence of `h`.
pub open spec fn has_substring(h: Seq<char>, n: Seq<char>) -> bool {
    exists|i: int|
        0 <= i && i + n.len() <= h.len() && #[trigger] h.subrange(i, i + n.len() as int) == n
}

/// Whether `s` begins with `p`.
pub open spec fn has_prefix(s: Seq<char>, p: Seq<char>) -> bool {
    p.len() <= s.len() && s.subrange(0, p.len() as int) == p
}

/// Whether the characters of `h` starting at `i` equal `n`.
fn matches_at(h: &str, i: usize, hlen: usize, n: &str, nlen: usize) -> (r: bool)
    requires
        hlen == h@.len(),
        nlen == n@.len(),
        i + nlen <= hlen,
    ensures
        r == (h@.subrange(i as int, i as int + nlen as int) == n@),
{
    let ghost want = h@.subrange(i as int, i as int + nlen as int);
    let mut j: usize = 0;
    while j < nlen
        invariant
            hlen == h@.len(),
            nlen == n@.len(),
            i + nlen <= hlen,
            0 <= j <= nlen,
            want == h@.subrange(i as int, i as int + nlen as int),
            forall|k: int| 0 <= k < j ==> want[k] == n@[k],
        decreases nlen - j,
    {
        if h.get_char(i + j) != n.get_char(j) {
            assert(want[j as int] != n@[j as int]);
            return false;
        }
        j += 1;
    }
    proof {
        assert(want =~= n@);
    }
    true
}

/// Substring search; the result is exactly whether `n` occurs in `h`.
pub fn str_contains(h: &str, n: &str) -> (r: bool)
    ensures
        r == has_substring(h@, n@),
{
    let hlen = h.unicode_len();
    let nlen = n.unicode_len();
    if nlen > hlen {
        assert(!has_substring(h@, n@));
        return false;
    }
    let end = hlen - nlen;
    let mut i: usize = 0;
    loop
        invariant
            hlen == h@.len(),
            nlen == n@.len(),
            nlen <= hlen,
            end == hlen - nlen,
            0 <= i <= end,
            forall|k: int| 0 <= k < i ==> #[trigger] h@.subrange(k, k + n@.len() as int) != n@,
        decreases end - i,
    {
        if matches_at(h, i, hlen, n, nlen) {
            return true;
        }
        if i == end {
            assert(!has_substring(h@, n@));
            return false;
        }
        i += 1;
    }
}

/// Character-wise string equality.
pub fn str_equal(a: &str, b: &str) -> (r: bool)
    ensures
        r == (a@ == b@),
{
    let al = a.unicode_len();
    let bl = b.unicode_len();
    if al != bl {
        return false;
    }
    let r = matches_at(a, 0, al, b, bl);
    proof {
        assert(a@.subrange(0, bl as int) =~= a@);
    }
    r
}

/// Prefix test; the result is exactly whether `s` begins with `p`.
pub fn str_has_prefix(s: &str, p: &str) -> (r: bool)
    ensures
        r == has_prefix(s@, p@),
{
    let slen = s.unicode_len();
    let plen = p.unicode_len();
    if plen > slen {
        return false;
    }
    matches_at(s, 0, slen, p, plen)
}

pub open spec fn is_digit(c: char) -> bool {
    '0' <= c && c <= '9'
}

pub open spec fn digit_val(c: char) -> int {
    c as int - '0' as int
}

pub open spec fn all_digits(s: Seq<char>) -> bool {
    forall|i: int| 0 <= i < s.len() ==> is_digit(#[trigger] s[i])
}

/// The value of a digit string read in base ten.
pub open spec fn digits_val(s: Seq<char>) -> int
    decreases s.len(),
{
    if s.len() == 0 {
        0
    } else {
        digits_val(s.drop_last()) * 10 + digit_val(s.last())
    }
}

/// A non-empty, all-digit string whose value fits in 32 bits parses;
/// everything else does not.
pub open spec fn spec_parse_u32(s: Seq<char>) -> Option<u32> {
    if s.len() > 0 && all_digits(s) && digits_val(s) <= u32::MAX {
        Some(digits_val(s) as u32)
    } else {
        None
    }
}

proof fn lemma_all_digits_take(s: Seq<char>, i: int)
    requires
        all_digits(s),
        0 <= i <= s.len(),
    ensures
        all_digits(s.take(i)),
{
    assert forall|j: int| 0 <= j < s.take(i).len() implies is_digit(#[trigger] s.take(i)[j]) by {
        assert(s.take(i)[j] == s[j]);
    }
}

proof fn lemma_digits_val_nonneg(s: Seq<char>)
    requires
        all_digits(s),
    ensures
        digits_val(s) >= 0,
    decreases s.len(),
{
    if s.len() > 0 {
        assert forall|i: int|
            0 <= i < s.drop_last().len() implies is_digit(#[trigger] s.drop_last()[i]) by {
            assert(s.drop_last()[i] == s[i]);
        }
        lemma_digits_val_nonneg(s.drop_last());
    }
}

/// Extending a digit string cannot shrink its value.
proof fn lemma_digits_val_grows(s: Seq<char>, i: int)
    requires
        all_digits(s),
        0 <= i <= s.len(),
    ensures
        digits_val(s) >= digits_val(s.take(i)),
    decreases s.len() - i,
{
    if i < s.len() {
        lemma_digits_val_grows(s, i + 1);
        lemma_all_digits_take(s, i);
        lemma_digits_val_nonneg(s.take(i));
        assert(s.take(i + 1).drop_last() =~= s.take(i));
        assert(s.take(i + 1).last() == s[i]);
        assert(digits_val(s.take(i + 1)) == digits_val(s.take(i)) * 10 + digit_val(s[i]));
        assert(digit_val(s[i]) >= 0);
        assert(digits_val(s.take(i)) * 10 >= digits_val(s.take(i))) by (nonlinear_arith)
            requires
                digits_val(s.take(i)) >= 0,
        ;
    } else {
        assert(s.take(i) =~= s);
    }
}

/// Base-ten parse into 32 bits; exactly the strings that
/// `spec_parse_u32` accepts are accepted.
pub fn parse_u32(s: &str) -> (r: Option<u32>)
    ensures
        r == spec_parse_u32(s@),
{
    let len = s.unicode_len();
    if len == 0 {
        return None;
    }
    let mut acc: u64 = 0;
    let mut i: usize = 0;
    while i < len
        invariant
            len == s@.len(),
            0 <= i <= len,
            all_digits(s@.take(i as int)),
            acc == digits_val(s@.take(i as int)),
            acc <= u32::MAX,
        decreases len - i,
    {
        let c = s.get_char(i);
        if !('0' <= c && c <= '9') {
            assert(!all_digits(s@));
            return None;
        }
        let d: u64 = (c as u32 as u64) - ('0' as u32 as u64);
        assert(d == digit_val(s@[i as int]));
        let next: u64 = acc * 10 + d;
        proof {
            assert(s@.take(i + 1).drop_last() =~= s@.take(i as int));
            assert(digits_val(s@.take(i + 1)) == next);
            assert(all_digits(s@.take(i + 1)));
        }
        if next > 0xffff_ffff {
            proof {
                if all_digits(s@) {
                    lemma_digits_val_grows(s@, i + 1);
                    assert(digits_val(s@) > u32::MAX);
                }
            }
            return None;
        }
        acc = next;
        i += 1;
    }
    proof {
        assert(s@.take(len as int) =~= s@);
    }
    Some(acc as u32)
}

/// The character of one decimal digit.
pub open spec fn dec_digit(d: int) -> char {
    ((0x30 + d) as u32) as char
}

/// The decimal rendering of a non-negative number, most significant
/// digit first.
pub open spec fn dec_chars(n: int) -> Seq<char>
    decreases n,
{
    if n < 10 {
        seq![dec_digit(n)]
    } else {
        dec_chars(n / 10).push(dec_digit(n % 10))
    }
}

/// The characters an all-ASCII byte sequence spells.
pub open spec fn ascii_chars(bytes: Seq<u8>) -> Seq<char> {
    bytes.map_values(|b: u8| b as char)
}

/// ASCII bytes are valid UTF-8 and decode to themselves.
pub proof fn lemma_ascii_utf8(bytes: Seq<u8>)
    requires
        forall|i: int| 0 <= i < bytes.len() ==> #[trigger] bytes[i] < 0x80,
    ensures
        valid_utf8(bytes),
        decode_utf8(bytes) =~= ascii_chars(bytes),
    decreases bytes.len(),
{
    if bytes.len() > 0 {
        assert(vstd::utf8::is_leading_byte_width_1(bytes[0]));
        assert(vstd::utf8::length_of_first_scalar(bytes) == 1);
        assert(vstd::utf8::valid_first_scalar(bytes));
        assert(vstd::utf8::pop_first_scalar(bytes) =~= bytes.drop_first());
        assert forall|i: int|
            0 <= i < bytes.drop_first().len() implies #[trigger] bytes.drop_first()[i]
            < 0x80 by {
            assert(bytes.drop_first()[i] == bytes[i + 1]);
        }
        lemma_ascii_utf8(bytes.drop_first());
        let b0 = bytes[0];
        assert(b0 & 0x7f == b0) by (bit_vector)
            requires
                b0 < 0x80,
        ;
        assert(vstd::utf8::decode_first_scalar(bytes) == bytes[0] as u32);
        assert((bytes[0] as u32) as char == bytes[0] as char);
        assert(decode_utf8(bytes) == seq![bytes[0] as char] + decode_utf8(bytes.drop_first()));
    }
}

/// Relies on String::from_utf8: it accepts exactly the valid UTF-8
/// byte sequences, and decodes them to their scalar values.
#[verifier::external_body]
pub fn string_from_utf8(bytes: Vec<u8>) -> (r: Option<String>)
    ensures
        r is Some <==> valid_utf8(bytes@),
        r matches Some(s) ==> s@ == decode_utf8(bytes@),
{
    String::from_utf8(bytes).ok()
}

/// Render a number in decimal.
pub fn u32_to_string(n: u32) -> (r: String)
    ensures
        r@ == dec_chars(n as int),
{
    if n == 0 {
        let r = "0".to_owned();
        proof {
            reveal_strlit("0");
            assert((0x30 as u32) as char == '0');
            assert(r@ =~= dec_chars(0));
        }
        return r;
    }
    let mut digits: Vec<u8> = Vec::new();
    let mut m: u32 = n;
    proof {
        assert(ascii_chars(digits@.reverse()) =~= Seq::<char>::empty());
        assert(dec_chars(n as int) =~= dec_chars(n as int) + ascii_chars(digits@.reverse()));
    }
    while m > 0
        invariant
            forall|i: int| 0 <= i < digits@.len() ==> 0x30 <= #[trigger] digits@[i] <= 0x39,
            m > 0 ==> dec_chars(n as int) == dec_chars(m as int) + ascii_chars(
                digits@.reverse(),
            ),
            m == 0 ==> digits@.len() > 0 && dec_chars(n as int) == ascii_chars(
                digits@.reverse(),
            ),
            m <= n,
            m > 0 || digits@.len() > 0,
        decreases m,
    {
        let d: u8 = (m % 10) as u8 + 0x30;
        let ghost before = digits@;
        digits.push(d);
        let m2: u32 = m / 10;
        proof {
            let s_new = ascii_chars(digits@.reverse());
            let s_old = ascii_chars(before.reverse());
            assert(digits@.reverse() =~= seq![d] + before.reverse());
            assert(s_new =~= seq![d as char] + s_old);
            assert(d as char == dec_digit((m % 10) as int)) by {
                assert((d as u32) as char == d as char);
            }
            if m >= 10 {
                assert(dec_chars(m as int) == dec_chars(m2 as int).push(dec_digit((m % 10) as int)));
                assert(dec_chars(m2 as int) + s_new =~= (dec_chars(m2 as int).push(
                    dec_digit((m % 10) as int),
                )) + s_old);
            } else {
                assert(dec_chars(m as int) == seq![dec_digit((m % 10) as int)]);
                assert(dec_chars(m as int) + s_old =~= s_new);
            }
        }
        m = m2;
    }
    let mut bytes: Vec<u8> = Vec::new();
    let mut k: usize = digits.len();
    while k > 0
        invariant
            forall|i: int| 0 <= i < digits@.len() ==> 0x30 <= #[trigger] digits@[i] <= 0x39,
            0 <= k <= digits@.len(),
            bytes@.len() == digits@.len() - k,
            forall|i: int|
                0 <= i < bytes@.len() ==> #[trigger] bytes@[i] == digits@[digits@.len() - 1
                    - i],
        decreases k,
    {
        bytes.push(digits[k - 1]);
        k -= 1;
    }
    proof {
        assert(bytes@ =~= digits@.reverse());
        assert forall|i: int| 0 <= i < bytes@.len() implies #[trigger] bytes@[i] < 0x80 by {
            assert(bytes@[i] == digits@[digits@.len() - 1 - i]);
        }
        lemma_ascii_utf8(bytes@);
        assert(ascii_chars(bytes@) =~= ascii_chars(digits@.reverse()));
        assert(dec_chars(n as int) == ascii_chars(digits@.reverse()));
    }
    let r = string_from_utf8(bytes);
    proof {
        assert(r is Some);
    }
    let s = r.unwrap();
    proof {
        assert(s@ == dec_chars(n as int));
    }
    s
}

pub open spec fn is_space(c: char) -> bool {
    c == ' ' || c == '\t' || c == '\n' || c == '\r'
}

/// `s` with leading whitespace removed.
pub open spec fn trim_front(s: Seq<char>) -> Seq<char>
    decreases s.len(),
{
    if s.len() > 0 && is_space(s[0]) {
        trim_front(s.drop_first())
    } else {
        s
    }
}

/// `s` with trailing whitespace removed.
pub open spec fn trim_back(s: Seq<char>) -> Seq<char>
    decreases s.len(),
{
    if s.len() > 0 && is_space(s.last()) {
        trim_back(s.drop_last())
    } else {
        s
    }
}

/// `s` with whitespace removed at both ends.
pub open spec fn trim_spaces(s: Seq<char>) -> Seq<char> {
    trim_back(trim_front(s))
}

proof fn lemma_trim_front_is(s: Seq<char>, a: int)
    requires
        0 <= a <= s.len(),
        forall|j: int| 0 <= j < a ==> is_space(#[trigger] s[j]),
        a < s.len() ==> !is_space(s[a]),
    ensures
        trim_front(s) =~= s.subrange(a, s.len() as int),
    decreases a,
{
    if a == 0 {
        if s.len() > 0 && is_space(s[0]) {
            assert(false);
        }
        assert(trim_front(s) =~= s.subrange(0, s.len() as int));
    } else {
        assert(is_space(s[0]));
        let t = s.drop_first();
        assert(forall|j: int| 0 <= j < a - 1 ==> t[j] == #[trigger] s[j + 1]);
        lemma_trim_front_is(t, a - 1);
        assert(t.subrange(a - 1, t.len() as int) =~= s.subrange(a, s.len() as int));
    }
}

proof fn lemma_trim_back_is(s: Seq<char>, b: int)
    requires
        0 <= b <= s.len(),
        forall|j: int| b <= j < s.len() ==> is_space(#[trigger] s[j]),
        b > 0 ==> !is_space(s[b - 1]),
    ensures
        trim_back(s) =~= s.subrange(0, b),
    decreases s.len() - b,
{
    if b == s.len() {
        if s.len() > 0 && is_space(s.last()) {
            assert(!is_space(s[b - 1]));
            assert(false);
        }
        assert(trim_back(s) =~= s.subrange(0, b));
    } else {
        assert(is_space(s.last()));
        let t = s.drop_last();
        assert(forall|j: int| 0 <= j < t.len() ==> t[j] == #[trigger] s[j]);
        lemma_trim_back_is(t, b);
        assert(t.subrange(0, b) =~= s.subrange(0, b));
    }
}

/// Whether the character of `s` at `i` is whitespace.
fn space_at(s: &str, i: usize) -> (r: bool)
    requires
        i < s@.len(),
    ensures
        r == is_space(s@[i as int]),
{
    let c = s.get_char(i);
    c == ' ' || c == '\t' || c == '\n' || c == '\r'
}

/// Copy of `s` with whitespace removed at both ends.
pub fn trim(s: &str) -> (r: String)
    ensures
        r@ == trim_spaces(s@),
{
    let len = s.unicode_len();
    let mut a: usize = 0;
    while a < len && space_at(s, a)
        invariant
            len == s@.len(),
            0 <= a <= len,
            forall|j: int| 0 <= j < a ==> is_space(#[trigger] s@[j]),
        decreases len - a,
    {
        a += 1;
    }
    let mut b: usize = len;
    while b > a && space_at(s, b - 1)
        invariant
            len == s@.len(),
            a <= b <= len,
            forall|j: int| 0 <= j < a ==> is_space(#[trigger] s@[j]),
            a < len ==> !is_space(s@[a as int]),
            forall|j: int| b <= j < len ==> is_space(#[trigger] s@[j]),
        decreases b,
    {
        b -= 1;
    }
    let r = s.substring_char(a, b).to_owned();
    proof {
        lemma_trim_front_is(s@, a as int);
        let f = s@.subrange(a as int, s@.len() as int);
        if b == a {
            lemma_trim_back_is(f, 0);
        } else {
            assert(forall|j: int|
                0 <= j < f.len() ==> f[j] == #[trigger] s@[j + a]);
            lemma_trim_back_is(f, b - a);
        }
        assert(f.subrange(0, b - a) =~= s@.subrange(a as int, b as int));
    }
    r
}

} // verus!
