//! Searching, trimming and comparing raw bytes.

use vstd::prelude::*;
use vstd::string::{is_ascii_spec_bytes, StringSliceAdditionalSpecFns};
use vstd::utf8::is_ascii_chars;

verus! {

pub const CR: u8 = 13;

pub const LF: u8 = 10;

pub const SPACE: u8 = 32;

pub const COLON: u8 = 58;

pub const SLASH: u8 = 47;

pub const PLUS: u8 = 43;

pub const ZERO: u8 = 48;

pub const NINE: u8 = 57;

/// `needle` stands in `hay` at offset `at`.
pub open spec fn occurs_at(hay: Seq<u8>, needle: Seq<u8>, at: int) -> bool {
    &&& 0 <= at
    &&& at + needle.len() <= hay.len()
    &&& hay.subrange(at, at + needle.len()) == needle
}

/// `needle` stands in `hay` at `at` and at no smaller offset.
pub open spec fn is_first_occurrence(hay: Seq<u8>, needle: Seq<u8>, at: int) -> bool {
    &&& occurs_at(hay, needle, at)
    &&& forall|j: int| 0 <= j < at ==> !occurs_at(hay, needle, j)
}

/// The smallest offset at which `needle` stands in `hay`, if there is one.
pub open spec fn first_occurrence(hay: Seq<u8>, needle: Seq<u8>) -> Option<int> {
    if exists|i: int| is_first_occurrence(hay, needle, i) {
        Some(choose|i: int| is_first_occurrence(hay, needle, i))
    } else {
        None
    }
}

/// `hay` holds `needle` somewhere.
pub open spec fn contains_seq(hay: Seq<u8>, needle: Seq<u8>) -> bool {
    exists|i: int| occurs_at(hay, needle, i)
}

/// `b` stands in `s` at index `at` and at no smaller index.
pub open spec fn is_first_index(s: Seq<u8>, b: u8, at: int) -> bool {
    &&& 0 <= at < s.len()
    &&& s[at] == b
    &&& forall|j: int| 0 <= j < at ==> s[j] != b
}

/// The smallest index of `b` in `s`, if `b` occurs.
pub open spec fn first_index(s: Seq<u8>, b: u8) -> Option<int> {
    if exists|i: int| is_first_index(s, b, i) {
        Some(choose|i: int| is_first_index(s, b, i))
    } else {
        None
    }
}

/// A first occurrence is the one that `first_occurrence` names.
pub proof fn lemma_first_occurrence_is(hay: Seq<u8>, needle: Seq<u8>, at: int)
    requires
        is_first_occurrence(hay, needle, at),
    ensures
        first_occurrence(hay, needle) == Some(at),
{
    let c = choose|i: int| is_first_occurrence(hay, needle, i);
    assert(is_first_occurrence(hay, needle, c));
    if c < at {
        assert(!occurs_at(hay, needle, c));
    }
    if at < c {
        assert(!occurs_at(hay, needle, at));
    }
}

/// Where nothing occurs, `first_occurrence` is `None`, and the other way round.
pub proof fn lemma_first_occurrence_none(hay: Seq<u8>, needle: Seq<u8>)
    ensures
        first_occurrence(hay, needle) is None <==> !contains_seq(hay, needle),
{
    if contains_seq(hay, needle) {
        let w = choose|i: int| occurs_at(hay, needle, i);
        lemma_least_occurrence(hay, needle, w);
    } else {
        assert forall|i: int| !is_first_occurrence(hay, needle, i) by {
            assert(!occurs_at(hay, needle, i));
        }
    }
}

proof fn lemma_least_occurrence(hay: Seq<u8>, needle: Seq<u8>, w: int)
    requires
        occurs_at(hay, needle, w),
    ensures
        exists|i: int| is_first_occurrence(hay, needle, i),
    decreases w,
{
    if exists|j: int| 0 <= j < w && occurs_at(hay, needle, j) {
        let j = choose|j: int| 0 <= j < w && occurs_at(hay, needle, j);
        lemma_least_occurrence(hay, needle, j);
    } else {
        assert(is_first_occurrence(hay, needle, w));
    }
}

/// A first index is the one that `first_index` names.
pub proof fn lemma_first_index_is(s: Seq<u8>, b: u8, at: int)
    requires
        is_first_index(s, b, at),
    ensures
        first_index(s, b) == Some(at),
{
    let c = choose|i: int| is_first_index(s, b, i);
    assert(is_first_index(s, b, c));
}

/// Where `b` does not occur, `first_index` is `None`, and the other way round.
pub proof fn lemma_first_index_none(s: Seq<u8>, b: u8)
    ensures
        first_index(s, b) is None <==> !s.contains(b),
{
    if s.contains(b) {
        let w = choose|i: int| 0 <= i < s.len() && s[i] == b;
        lemma_least_index(s, b, w);
    } else {
        assert forall|i: int| !is_first_index(s, b, i) by {
            if 0 <= i < s.len() && s[i] == b {
                assert(s.contains(b));
            }
        }
    }
}

proof fn lemma_least_index(s: Seq<u8>, b: u8, w: int)
    requires
        0 <= w < s.len(),
        s[w] == b,
    ensures
        exists|i: int| is_first_index(s, b, i),
    decreases w,
{
    if exists|j: int| 0 <= j < w && s[j] == b {
        let j = choose|j: int| 0 <= j < w && s[j] == b;
        lemma_least_index(s, b, j);
    } else {
        assert(is_first_index(s, b, w));
    }
}

/// Finds the first place where `needle` stands in `hay`.
pub fn find(hay: &[u8], needle: &[u8]) -> (r: Option<usize>)
    ensures
        match r {
            Some(i) => first_occurrence(hay@, needle@) == Some(i as int),
            None => first_occurrence(hay@, needle@) is None,
        },
{
    let n = needle.len();
    if n > hay.len() {
        proof {
            lemma_first_occurrence_none(hay@, needle@);
        }
        return None;
    }
    let last = hay.len() - n;
    let mut i: usize = 0;
    while i <= last
        invariant
            n == needle@.len(),
            last == hay@.len() - n,
            hay@.len() == hay.len(),
            i <= last + 1,
            forall|j: int| 0 <= j < i ==> !occurs_at(hay@, needle@, j),
        decreases last + 1 - i,
    {
        let mut k: usize = 0;
        while k < n && hay[i + k] == needle[k]
            invariant
                n == needle@.len(),
                last == hay@.len() - n,
                hay@.len() == hay.len(),
                i <= last,
                k <= n,
                forall|m: int| 0 <= m < k ==> hay@[i + m] == needle@[m],
            decreases n - k,
        {
            k += 1;
        }
        if k == n {
            proof {
                assert(hay@.subrange(i as int, i + n) =~= needle@);
                lemma_first_occurrence_is(hay@, needle@, i as int);
            }
            return Some(i);
        }
        proof {
            assert(hay@.subrange(i as int, i + n)[k as int] == hay@[i + k]);
        }
        i += 1;
    }
    proof {
        lemma_first_occurrence_none(hay@, needle@);
    }
    None
}

/// Finds the first index of the byte `b` in `s`.
pub fn position(s: &[u8], b: u8) -> (r: Option<usize>)
    ensures
        match r {
            Some(i) => first_index(s@, b) == Some(i as int),
            None => first_index(s@, b) is None,
        },
{
    let mut i: usize = 0;
    while i < s.len()
        invariant
            i <= s@.len(),
            forall|j: int| 0 <= j < i ==> s@[j] != b,
        decreases s@.len() - i,
    {
        if s[i] == b {
            proof {
                lemma_first_index_is(s@, b, i as int);
            }
            return Some(i);
        }
        i += 1;
    }
    proof {
        lemma_first_index_none(s@, b);
    }
    None
}

pub open spec fn is_digit(b: u8) -> bool {
    ZERO <= b <= NINE
}

pub open spec fn all_digits(s: Seq<u8>) -> bool {
    forall|i: int| 0 <= i < s.len() ==> is_digit(#[trigger] s[i])
}

/// The number that the decimal digits `s` write, most significant first.
pub open spec fn digits_value(s: Seq<u8>) -> nat
    decreases s.len(),
{
    if s.len() == 0 {
        0
    } else {
        digits_value(s.drop_last()) * 10 + (s.last() - ZERO) as nat
    }
}

/// `s` without one leading `+`, if it has one.
pub open spec fn unsigned_part(s: Seq<u8>) -> Seq<u8> {
    if s.len() > 0 && s[0] == PLUS {
        s.subrange(1, s.len() as int)
    } else {
        s
    }
}

/// The number that `s` writes: an optional `+`, then one decimal digit or
/// more and nothing else, the number being at most `max`.
pub open spec fn decimal(s: Seq<u8>, max: nat) -> Option<nat> {
    let d = unsigned_part(s);
    if d.len() > 0 && all_digits(d) && digits_value(d) <= max {
        Some(digits_value(d))
    } else {
        None
    }
}

/// A prefix of a digit string writes no larger a number than the whole.
pub proof fn lemma_digits_prefix(d: Seq<u8>, k: int)
    requires
        all_digits(d),
        0 <= k <= d.len(),
    ensures
        digits_value(d.take(k)) <= digits_value(d),
    decreases d.len(),
{
    if k == d.len() {
        assert(d.take(k) =~= d);
    } else {
        assert(d.drop_last().take(k) =~= d.take(k));
        assert(is_digit(d.last()));
        lemma_digits_prefix(d.drop_last(), k);
    }
}

/// Reads a decimal number no larger than `max`.
pub fn parse_decimal(s: &[u8], max: u64) -> (r: Option<u64>)
    ensures
        r == match decimal(s@, max as nat) {
            Some(v) => Some(v as u64),
            None => None,
        },
{
    let start: usize = if s.len() > 0 && s[0] == PLUS {
        1
    } else {
        0
    };
    let ghost d = unsigned_part(s@);
    assert(d =~= s@.subrange(start as int, s@.len() as int));
    if start == s.len() {
        return None;
    }
    let mut acc: u64 = 0;
    let mut i: usize = start;
    while i < s.len()
        invariant
            start <= i <= s@.len(),
            s@.len() == s.len(),
            d == s@.subrange(start as int, s@.len() as int),
            d == unsigned_part(s@),
            all_digits(d.take(i - start)),
            acc == digits_value(d.take(i - start)),
            acc <= max,
        decreases s@.len() - i,
    {
        let b = s[i];
        let ghost k = i - start;
        assert(d[k] == b);
        if b < ZERO || b > NINE {
            assert(!is_digit(d[k]));
            return None;
        }
        let dg: u64 = (b - ZERO) as u64;
        proof {
            assert(d.take(k + 1).drop_last() =~= d.take(k));
            assert(d.take(k + 1).last() == b);
            assert(digits_value(d.take(k + 1)) == acc * 10 + dg);
            assert forall|j: int| 0 <= j < k + 1 implies is_digit(#[trigger] d.take(k + 1)[j]) by {
                if j < k {
                    assert(d.take(k)[j] == d.take(k + 1)[j]);
                }
            }
        }
        if dg > max || acc > (max - dg) / 10 {
            proof {
                if all_digits(d) {
                    lemma_digits_prefix(d, k + 1);
                }
            }
            return None;
        }
        acc = acc * 10 + dg;
        i += 1;
    }
    assert(d.take(i - start) =~= d);
    Some(acc)
}

/// The white space of ASCII: space, and the five control characters from
/// tab to carriage return, vertical tab and form feed among them.
pub open spec fn is_space(b: u8) -> bool {
    b == 32 || 9 <= b <= 13
}

/// The characters that Unicode gives the property `White_Space`: the white
/// space of ASCII, next line, the no-break spaces, the spaces of fixed
/// width, and the line and paragraph separators.
pub open spec fn is_white_space(c: char) -> bool {
    let u = c as u32;
    ||| 0x09 <= u <= 0x0d
    ||| u == 0x20
    ||| u == 0x85
    ||| u == 0xa0
    ||| u == 0x1680
    ||| 0x2000 <= u <= 0x200a
    ||| u == 0x2028
    ||| u == 0x2029
    ||| u == 0x202f
    ||| u == 0x205f
    ||| u == 0x3000
}

/// `s` without the white space at its start.
pub open spec fn trim_chars_start(s: Seq<char>) -> Seq<char>
    decreases s.len(),
{
    if s.len() > 0 && is_white_space(s[0]) {
        trim_chars_start(s.drop_first())
    } else {
        s
    }
}

/// `s` without the white space at its end.
pub open spec fn trim_chars_end(s: Seq<char>) -> Seq<char>
    decreases s.len(),
{
    if s.len() > 0 && is_white_space(s.last()) {
        trim_chars_end(s.drop_last())
    } else {
        s
    }
}

/// A text without the white space at either end, white space being what
/// Unicode calls so.
pub open spec fn trim_chars(s: Seq<char>) -> Seq<char> {
    trim_chars_end(trim_chars_start(s))
}

/// `s` without the white space at its start.
pub open spec fn trim_start(s: Seq<u8>) -> Seq<u8>
    decreases s.len(),
{
    if s.len() > 0 && is_space(s[0]) {
        trim_start(s.drop_first())
    } else {
        s
    }
}

/// `s` without the white space at its end.
pub open spec fn trim_end(s: Seq<u8>) -> Seq<u8>
    decreases s.len(),
{
    if s.len() > 0 && is_space(s.last()) {
        trim_end(s.drop_last())
    } else {
        s
    }
}

/// `s` without the white space at either end.
pub open spec fn trim(s: Seq<u8>) -> Seq<u8> {
    trim_end(trim_start(s))
}

/// The lower-case form of an ASCII capital, any other byte as it is.
pub open spec fn lower(b: u8) -> u8 {
    if 65 <= b <= 90 {
        (b + 32) as u8
    } else {
        b
    }
}

pub open spec fn lower_seq(s: Seq<u8>) -> Seq<u8> {
    Seq::new(s.len(), |i: int| lower(s[i]))
}

/// Equal but for the case of ASCII letters.
pub open spec fn eq_ignore_case(a: Seq<u8>, b: Seq<u8>) -> bool {
    lower_seq(a) == lower_seq(b)
}

pub fn is_space_byte(b: u8) -> (r: bool)
    ensures
        r == is_space(b),
{
    b == 32 || (9 <= b && b <= 13)
}

pub fn is_white_space_char(c: char) -> (r: bool)
    ensures
        r == is_white_space(c),
{
    let u: u32 = c as u32;
    (0x09 <= u && u <= 0x0d) || u == 0x20 || u == 0x85 || u == 0xa0 || u == 0x1680 || (0x2000
        <= u && u <= 0x200a) || u == 0x2028 || u == 0x2029 || u == 0x202f || u == 0x205f || u
        == 0x3000
}

/// The part of a text that is left when the white space at both ends is
/// cut off.
pub fn trim_text(s: &str) -> (r: &str)
    ensures
        r@ == trim_chars(s@),
{
    let n = s.unicode_len();
    let mut i: usize = 0;
    assert(s@.skip(0) =~= s@);
    while i < n && is_white_space_char(s.get_char(i))
        invariant
            i <= n,
            n == s@.len(),
            trim_chars_start(s@) == trim_chars_start(s@.skip(i as int)),
        decreases n - i,
    {
        assert(s@.skip(i as int).drop_first() =~= s@.skip(i + 1));
        i += 1;
    }
    assert(trim_chars_start(s@) == s@.skip(i as int));
    let mut j: usize = n;
    assert(s@.subrange(i as int, j as int) =~= s@.skip(i as int));
    while j > i && is_white_space_char(s.get_char(j - 1))
        invariant
            i <= j <= n,
            n == s@.len(),
            trim_chars(s@) == trim_chars_end(s@.subrange(i as int, j as int)),
        decreases j,
    {
        assert(s@.subrange(i as int, j as int).drop_last() =~= s@.subrange(i as int, j - 1));
        j -= 1;
    }
    s.substring_char(i, j)
}

pub fn to_lower(b: u8) -> (r: u8)
    ensures
        r == lower(b),
{
    if 65 <= b && b <= 90 {
        b + 32
    } else {
        b
    }
}

/// The part of `s` that is left when the white space at both ends is cut off.
pub fn trimmed(s: &[u8]) -> (r: &[u8])
    ensures
        r@ == trim(s@),
{
    let mut i: usize = 0;
    assert(s@.skip(0) =~= s@);
    while i < s.len() && is_space_byte(s[i])
        invariant
            i <= s@.len(),
            s@.len() == s.len(),
            trim_start(s@) == trim_start(s@.skip(i as int)),
        decreases s@.len() - i,
    {
        assert(s@.skip(i as int).drop_first() =~= s@.skip(i + 1));
        i += 1;
    }
    assert(trim_start(s@) == s@.skip(i as int));
    let mut j: usize = s.len();
    assert(s@.subrange(i as int, j as int) =~= s@.skip(i as int));
    while j > i && is_space_byte(s[j - 1])
        invariant
            i <= j <= s@.len(),
            s@.len() == s.len(),
            trim(s@) == trim_end(s@.subrange(i as int, j as int)),
        decreases j,
    {
        assert(s@.subrange(i as int, j as int).drop_last() =~= s@.subrange(i as int, j - 1));
        j -= 1;
    }
    vstd::slice::slice_subrange(s, i, j)
}

/// Whether two strings of bytes are equal but for the case of ASCII letters.
pub fn eq(given: &[u8], stored: &[u8]) -> (r: bool)
    ensures
        r == eq_ignore_case(given@, stored@),
{
    if given.len() != stored.len() {
        assert(lower_seq(given@).len() != lower_seq(stored@).len());
        return false;
    }
    let mut i: usize = 0;
    while i < given.len()
        invariant
            i <= given@.len(),
            given@.len() == given.len(),
            given@.len() == stored@.len(),
            forall|j: int| 0 <= j < i ==> lower(given@[j]) == lower(stored@[j]),
        decreases given@.len() - i,
    {
        let g = to_lower(given[i]);
        let s = to_lower(stored[i]);
        if g != s {
            assert(lower_seq(given@)[i as int] != lower_seq(stored@)[i as int]);
            return false;
        }
        i += 1;
    }
    assert(lower_seq(given@) =~= lower_seq(stored@));
    true
}

/// The bytes of an ASCII text, one for each character.
pub open spec fn ascii_bytes(text: Seq<char>) -> Seq<u8> {
    Seq::new(text.len(), |i: int| text[i] as u8)
}

/// The bytes of a text that is known to be ASCII.
pub fn ascii(text: &str) -> (r: &[u8])
    requires
        is_ascii_chars(text@),
    ensures
        r@ == ascii_bytes(text@),
        r@ == text.spec_bytes(),
{
    proof {
        is_ascii_spec_bytes(text);
    }
    let r = text.as_bytes();
    assert(r@ =~= ascii_bytes(text@));
    r
}

/// Every byte is below 128.
pub open spec fn all_ascii(s: Seq<u8>) -> bool {
    forall|i: int| 0 <= i < s.len() ==> #[trigger] s[i] < 128
}

pub fn is_all_ascii(s: &[u8]) -> (r: bool)
    ensures
        r == all_ascii(s@),
{
    let mut i: usize = 0;
    while i < s.len()
        invariant
            i <= s@.len(),
            s@.len() == s.len(),
            forall|j: int| 0 <= j < i ==> #[trigger] s@[j] < 128,
        decreases s@.len() - i,
    {
        if s[i] >= 128 {
            return false;
        }
        i += 1;
    }
    true
}

/// `n` in decimal digits, without leading zeros.
pub open spec fn decimal_digits(n: nat) -> Seq<u8>
    decreases n,
{
    if n < 10 {
        seq![(ZERO + n) as u8]
    } else {
        decimal_digits(n / 10).push((ZERO + n % 10) as u8)
    }
}

/// Appends `n` in decimal digits.
pub fn push_decimal(dest: &mut Vec<u8>, n: u64)
    ensures
        final(dest)@ == old(dest)@ + decimal_digits(n as nat),
    decreases n,
{
    if n >= 10 {
        push_decimal(dest, n / 10);
    }
    let d: u8 = (n % 10) as u8;
    dest.push(ZERO + d);
    proof {
        assert(dest@ =~= old(dest)@ + decimal_digits(n as nat));
    }
}

/// The digits of a number are digits, and they write that number.
pub proof fn lemma_decimal_digits_value(n: nat)
    ensures
        decimal_digits(n).len() > 0,
        all_digits(decimal_digits(n)),
        digits_value(decimal_digits(n)) == n,
        decimal_digits(n)[0] != PLUS,
    decreases n,
{
    if n < 10 {
        let s = decimal_digits(n);
        assert(s.drop_last() =~= Seq::<u8>::empty());
        assert(digits_value(s.drop_last()) == 0);
    } else {
        lemma_decimal_digits_value(n / 10);
        let s = decimal_digits(n);
        assert(s.drop_last() =~= decimal_digits(n / 10));
        assert(s[0] == decimal_digits(n / 10)[0]);
    }
}

/// A number that is written out and read again is the same number.
pub proof fn lemma_decimal_round_trip(n: nat, max: nat)
    requires
        n <= max,
    ensures
        decimal(decimal_digits(n), max) == Some(n),
{
    lemma_decimal_digits_value(n);
}

/// `b` stands in `s` at index `at` and at no larger index.
pub open spec fn is_last_index(s: Seq<u8>, b: u8, at: int) -> bool {
    &&& 0 <= at < s.len()
    &&& s[at] == b
    &&& forall|j: int| at < j < s.len() ==> s[j] != b
}

/// The largest index of `b` in `s`, if `b` occurs.
pub open spec fn last_index(s: Seq<u8>, b: u8) -> Option<int> {
    if exists|i: int| is_last_index(s, b, i) {
        Some(choose|i: int| is_last_index(s, b, i))
    } else {
        None
    }
}

/// Finds the last index of the byte `b` in `s`.
pub fn rposition(s: &[u8], b: u8) -> (r: Option<usize>)
    ensures
        match r {
            Some(i) => last_index(s@, b) == Some(i as int) && is_last_index(s@, b, i as int),
            None => last_index(s@, b) is None && !s@.contains(b),
        },
{
    let mut i: usize = s.len();
    while i > 0
        invariant
            i <= s@.len(),
            s@.len() == s.len(),
            forall|j: int| i <= j < s@.len() ==> s@[j] != b,
        decreases i,
    {
        i -= 1;
        if s[i] == b {
            proof {
                assert(is_last_index(s@, b, i as int));
                let c = choose|k: int| is_last_index(s@, b, k);
                assert(is_last_index(s@, b, c));
            }
            return Some(i);
        }
    }
    proof {
        assert forall|k: int| !is_last_index(s@, b, k) by {}
        assert(!s@.contains(b));
    }
    None
}

} // verus!
