//! Character-level utilities shared by the dialect parsers.
//!
//! The parsers work on `Vec<char>` buffers whose view is the same
//! `Seq<char>` as the view of the `&str` they came from, so every
//! contract can speak about the original text.

use vstd::prelude::*;

verus! {

use vstd::arithmetic::power::pow;
use vstd::utf8::is_scalar;

/// Relies on `str::chars`: it yields exactly the characters of the
/// string, in order.
#[verifier::external_body]
pub fn chars_of(s: &str) -> (r: Vec<char>)
    ensures
        r@ == s@,
{
    s.chars().collect()
}

/// Relies on `String`'s `FromIterator<char>`: collecting characters
/// builds the string of exactly those characters, in order.
#[verifier::external_body]
pub fn string_of(v: &Vec<char>) -> (r: String)
    ensures
        r@ == v@,
{
    v.iter().copied().collect()
}

/// Relies on `char::from_u32`: it returns `Some` exactly for Unicode
/// scalar values (at most 0x10FFFF and not a surrogate), and the
/// returned character has the given scalar value.
#[verifier::external_body]
pub fn char_from_u32(code: u32) -> (r: Option<char>)
    ensures
        r is Some <==> is_scalar(code),
        r is Some ==> r->0 == code as char,
{
    char::from_u32(code)
}

/// Relies on `String::from_utf8`: it succeeds exactly when the bytes
/// are valid UTF-8, and the string then holds their decoding.
#[verifier::external_body]
pub fn string_from_utf8(bytes: Vec<u8>) -> (r: Option<String>)
    ensures
        r is Some <==> vstd::utf8::valid_utf8(bytes@),
        r is Some ==> r->0@ == vstd::utf8::decode_utf8(bytes@),
{
    String::from_utf8(bytes).ok()
}

/// The result of `char::is_whitespace`, a function of the character
/// alone (the Unicode `White_Space` property).
pub uninterp spec fn is_unicode_whitespace(c: char) -> bool;

/// Relies on `char::is_whitespace`: true exactly for characters with
/// the Unicode `White_Space` property.  Of the characters below 0x80
/// those are documented to be space, tab, line feed, vertical tab,
/// form feed and carriage return.
#[verifier::external_body]
pub fn unicode_whitespace(c: char) -> (r: bool)
    ensures
        r == is_unicode_whitespace(c),
        (c as u32) < 0x80 ==> (r <==> (c == ' ' || c == '\t' || c == '\n' || c == '\u{B}'
            || c == '\u{C}' || c == '\r')),
{
    c.is_whitespace()
}

/// The result of `char::is_alphanumeric`, a function of the character
/// alone (the Unicode `Alphabetic` property or a general number
/// category).
pub uninterp spec fn is_unicode_alphanumeric(c: char) -> bool;

/// Relies on `char::is_alphanumeric`: true exactly for characters in
/// one of the Unicode letter or number categories.  Of the characters
/// below 0x80 those are documented to be the ASCII letters and digits.
#[verifier::external_body]
pub fn unicode_alphanumeric(c: char) -> (r: bool)
    ensures
        r == is_unicode_alphanumeric(c),
        (c as u32) < 0x80 ==> (r <==> (('a' <= c && c <= 'z') || ('A' <= c && c <= 'Z') || ('0'
            <= c && c <= '9'))),
{
    c.is_alphanumeric()
}

/// A copy of the characters `v[start..end]`.
pub fn subvec<T: Copy>(v: &Vec<T>, start: usize, end: usize) -> (r: Vec<T>)
    requires
        start <= end <= v@.len(),
    ensures
        r@ == v@.subrange(start as int, end as int),
{
    let mut r: Vec<T> = Vec::new();
    let mut i: usize = start;
    while i < end
        invariant
            start <= i <= end <= v@.len(),
            r@ == v@.subrange(start as int, i as int),
        decreases end - i,
    {
        r.push(v[i]);
        proof {
            assert(r@ =~= v@.subrange(start as int, i + 1));
        }
        i = i + 1;
    }
    r
}

/// Appends the characters `src[start..end]` to `dst`.
pub fn push_range<T: Copy>(dst: &mut Vec<T>, src: &Vec<T>, start: usize, end: usize)
    requires
        start <= end <= src@.len(),
    ensures
        final(dst)@ == old(dst)@ + src@.subrange(start as int, end as int),
{
    let mut i: usize = start;
    while i < end
        invariant
            start <= i <= end <= src@.len(),
            dst@ == old(dst)@ + src@.subrange(start as int, i as int),
        decreases end - i,
    {
        dst.push(src[i]);
        proof {
            assert(dst@ =~= old(dst)@ + src@.subrange(start as int, i + 1));
        }
        i = i + 1;
    }
}

/// Appends all of `src` to `dst`.
pub fn push_all<T: Copy>(dst: &mut Vec<T>, src: &Vec<T>)
    ensures
        final(dst)@ == old(dst)@ + src@,
{
    let n = src.len();
    push_range(dst, src, 0, n);
    proof {
        assert(src@.subrange(0, n as int) =~= src@);
    }
}

/// Whether the character sequences are equal.
pub fn chars_eq(a: &Vec<char>, b: &Vec<char>) -> (r: bool)
    ensures
        r == (a@ == b@),
{
    if a.len() != b.len() {
        proof {
            assert(a@ != b@);
        }
        return false;
    }
    let n = a.len();
    let mut i: usize = 0;
    while i < n
        invariant
            n == a@.len() == b@.len(),
            i <= n,
            forall|j: int| 0 <= j < i ==> a@[j] == b@[j],
        decreases n - i,
    {
        if a[i] != b[i] {
            proof {
                assert(a@ != b@);
            }
            return false;
        }
        i = i + 1;
    }
    proof {
        assert(a@ =~= b@);
    }
    true
}

/// The numeric value of a digit character under the given base, if it
/// is one.
pub open spec fn digit_val(c: char, base: int) -> Option<int> {
    let u = c as u32;
    let v: int = if 48 <= u && u <= 57 {
        u - 48
    } else if 97 <= u && u <= 122 {
        u - 87
    } else if 65 <= u && u <= 90 {
        u - 55
    } else {
        99
    };
    if v < base {
        Some(v)
    } else {
        None
    }
}

/// The value of the digit run `s[i..]` accumulated onto `acc`, or
/// nothing if a character is no digit of the base.
pub open spec fn radix_run(s: Seq<char>, i: int, acc: int, base: int) -> Option<int>
    decreases s.len() - i,
{
    if i < 0 || i >= s.len() {
        Some(acc)
    } else {
        match digit_val(s[i], base) {
            None => None,
            Some(d) => radix_run(s, i + 1, acc * base + d, base),
        }
    }
}

/// The number a text denotes under the given base: digits, optionally
/// after a plus sign, as `from_str_radix` reads them.
pub open spec fn spec_from_radix(s: Seq<char>, base: int) -> Option<int> {
    if s.len() == 0 {
        None
    } else if s[0] == '+' {
        if s.len() == 1 {
            None
        } else {
            radix_run(s, 1, 0, base)
        }
    } else {
        radix_run(s, 0, 0, base)
    }
}

/// The sixth power of sixteen, the largest value six hex digits can
/// denote, plus one.
pub proof fn lemma_pow16(k: nat)
    requires
        k <= 6,
    ensures
        pow(16, k) <= 16777216,
        pow(16, k) >= 1,
{
    reveal_with_fuel(vstd::arithmetic::power::pow, 8);
    assert(pow(16, 0) == 1);
    assert(pow(16, 1) == 16 * pow(16, 0));
    assert(pow(16, 2) == 16 * pow(16, 1));
    assert(pow(16, 3) == 16 * pow(16, 2));
    assert(pow(16, 4) == 16 * pow(16, 3));
    assert(pow(16, 5) == 16 * pow(16, 4));
    assert(pow(16, 6) == 16 * pow(16, 5));
}

/// A digit run's value is bounded by the base raised to its length.
pub proof fn lemma_radix_value_bound(s: Seq<char>, i: int, acc: int, base: int)
    requires
        0 <= i <= s.len(),
        2 <= base,
        0 <= acc,
    ensures
        radix_run(s, i, acc, base) is Some ==> radix_run(s, i, acc, base)->0 < (acc + 1) * pow(
            base,
            (s.len() - i) as nat,
        ),
        radix_run(s, i, acc, base) is Some ==> radix_run(s, i, acc, base)->0 >= acc,
    decreases s.len() - i,
{
    if i >= s.len() {
        vstd::arithmetic::power::lemma_pow0(base);
        assert((acc + 1) * 1 == acc + 1) by (nonlinear_arith);
    } else if radix_run(s, i, acc, base) is Some {
        match digit_val(s[i], base) {
            None => {},
            Some(d) => {
                let acc2 = acc * base + d;
                assert(0 <= d < base);
                assert(0 <= acc && acc <= acc2) by (nonlinear_arith)
                    requires
                        0 <= acc,
                        0 <= d,
                        2 <= base,
                        acc2 == acc * base + d,
                ;
                lemma_radix_value_bound(s, i + 1, acc2, base);
                let k = (s.len() - i - 1) as nat;
                assert(pow(base, k + 1) == base * pow(base, k)) by {
                    vstd::arithmetic::power::lemma_pow_adds(base, 1, k);
                    vstd::arithmetic::power::lemma_pow1(base);
                }
                vstd::arithmetic::power::lemma_pow_positive(base, k);
                if radix_run(s, i, acc, base) is Some {
                    assert((acc2 + 1) * pow(base, k) <= (acc + 1) * pow(base, k + 1))
                        by (nonlinear_arith)
                        requires
                            acc2 == acc * base + d,
                            0 <= d < base,
                            2 <= base,
                            0 <= acc,
                            pow(base, k) >= 1,
                            pow(base, k + 1) == base * pow(base, k),
                    ;
                }
            },
        }
    }
}

/// The value `from_str_radix` reads from at most two hex digits fits
/// a byte.
pub proof fn lemma_from_radix_byte(s: Seq<char>)
    requires
        s.len() <= 2,
    ensures
        spec_from_radix(s, 16) is Some ==> 0 <= spec_from_radix(s, 16)->0 <= 255,
{
    reveal_with_fuel(vstd::arithmetic::power::pow, 3);
    assert(pow(16, 0) == 1);
    assert(pow(16, 1) == 16 * pow(16, 0));
    assert(pow(16, 2) == 16 * pow(16, 1));
    if s.len() > 0 {
        if s[0] == '+' {
            if s.len() > 1 {
                lemma_radix_value_bound(s, 1, 0, 16);
            }
        } else {
            lemma_radix_value_bound(s, 0, 0, 16);
        }
    }
}

/// Reads `v[start..end]` as a number under the given base, as
/// `from_str_radix` would, for runs of at most six digits.
pub fn from_radix(v: &Vec<char>, start: usize, end: usize, base: u32) -> (r: Option<u32>)
    requires
        start <= end <= v@.len(),
        end - start <= 6,
        2 <= base <= 16,
    ensures
        ({
            let s = spec_from_radix(v@.subrange(start as int, end as int), base as int);
            match r {
                None => s is None,
                Some(x) => s == Some(x as int),
            }
        }),
{
    let ghost s = v@.subrange(start as int, end as int);
    if start == end {
        return None;
    }
    let mut j = start;
    if v[start] == '+' {
        if end - start == 1 {
            return None;
        }
        j = start + 1;
    }
    let ghost j0 = j as int;
    let mut acc: u32 = 0;
    proof {
        vstd::arithmetic::power::lemma_pow0(16);
    }
    while j < end
        invariant
            start <= j0 <= j <= end <= v@.len(),
            end - start <= 6,
            j0 - start <= 1,
            2 <= base <= 16,
            s == v@.subrange(start as int, end as int),
            s.len() == end - start,
            if s[0] == '+' {
                j0 == start + 1
            } else {
                j0 == start as int
            },
            radix_run(s, j0 - start, 0, base as int) == radix_run(
                s,
                j - start,
                acc as int,
                base as int,
            ),
            acc < pow(16, (j - j0) as nat),
            acc < 16777216,
        decreases end - j,
    {
        let c = v[j];
        let cu = c as u32;
        let dv: u32 = if cu >= 48 && cu <= 57 {
            cu - 48
        } else if cu >= 97 && cu <= 122 {
            cu - 87
        } else if cu >= 65 && cu <= 90 {
            cu - 55
        } else {
            99
        };
        proof {
            assert(s[j - start as int] == v@[j as int]);
        }
        if dv >= base {
            proof {
                assert(s[0] == v@[start as int]);
                assert(digit_val(s[j - start as int], base as int) is None);
                assert(radix_run(s, j - start as int, acc as int, base as int) is None);
            }
            return None;
        }
        proof {
            assert(digit_val(s[j - start as int], base as int) == Some(dv as int));
            let k = (j - j0) as nat;
            assert(pow(16, k + 1) == 16 * pow(16, k)) by {
                vstd::arithmetic::power::lemma_pow_adds(16, 1, k);
                vstd::arithmetic::power::lemma_pow1(16);
            }
            assert((acc as int) * (base as int) + (dv as int) < pow(16, k + 1)) by (nonlinear_arith)
                requires
                    0 <= (acc as int) < pow(16, k),
                    0 <= (dv as int) < (base as int),
                    (base as int) <= 16,
                    pow(16, k + 1) == 16 * pow(16, k),
            ;
            lemma_pow16(k + 1);
        }
        acc = acc * base + dv;
        j = j + 1;
    }
    Some(acc)
}

/// The first position whose character is not Unicode whitespace.
pub open spec fn uni_trim_start(s: Seq<char>) -> int {
    crate::model::scan_until(s, 0, |c: char| !is_unicode_whitespace(c))
}

/// The end of the text after trimming, scanning from `j` down past
/// Unicode whitespace.
pub open spec fn uni_trim_end(s: Seq<char>, j: int) -> int
    decreases j,
{
    if j <= 0 {
        0
    } else if is_unicode_whitespace(s[j - 1]) {
        uni_trim_end(s, j - 1)
    } else {
        j
    }
}

/// The text with Unicode whitespace stripped from both ends, the
/// behaviour of `str::trim`.
pub open spec fn uni_trim(s: Seq<char>) -> Seq<char> {
    let a = uni_trim_start(s);
    if a >= s.len() {
        Seq::empty()
    } else {
        s.subrange(a, uni_trim_end(s, s.len() as int))
    }
}

/// The start of the trimmed text.
fn uni_trim_start_pos(v: &Vec<char>) -> (r: usize)
    ensures
        r == uni_trim_start(v@),
        r <= v@.len(),
        r < v@.len() ==> !is_unicode_whitespace(v@[r as int]),
{
    let n = v.len();
    let mut a: usize = 0;
    while a < n
        invariant
            a <= n,
            n == v@.len(),
            uni_trim_start(v@) == crate::model::scan_until(
                v@,
                a as int,
                |c: char| !is_unicode_whitespace(c),
            ),
        decreases n - a,
    {
        if !unicode_whitespace(v[a]) {
            return a;
        }
        a = a + 1;
    }
    a
}

pub proof fn lemma_uni_trim_end_above(s: Seq<char>, j: int, a: int)
    requires
        0 <= a < s.len(),
        !is_unicode_whitespace(s[a]),
        a < j <= s.len(),
    ensures
        uni_trim_end(s, j) > a,
    decreases j,
{
    if is_unicode_whitespace(s[j - 1]) {
        if j - 1 > a {
            lemma_uni_trim_end_above(s, j - 1, a);
        }
    }
}

pub proof fn lemma_uni_trim_end_le(s: Seq<char>, j: int)
    requires
        0 <= j,
    ensures
        uni_trim_end(s, j) <= j,
    decreases j,
{
    if j > 0 && is_unicode_whitespace(s[j - 1]) {
        lemma_uni_trim_end_le(s, j - 1);
    }
}

/// Strips Unicode whitespace from both ends, as `str::trim` does.
pub fn trim_unicode(v: &Vec<char>) -> (r: Vec<char>)
    ensures
        r@ == uni_trim(v@),
{
    let n = v.len();
    let a = uni_trim_start_pos(v);
    if a >= n {
        let r: Vec<char> = Vec::new();
        proof {
            assert(r@ =~= uni_trim(v@));
        }
        return r;
    }
    let mut b: usize = n;
    while b > 0 && unicode_whitespace(v[b - 1])
        invariant
            0 <= b <= n,
            n == v@.len(),
            uni_trim_end(v@, n as int) == uni_trim_end(v@, b as int),
        decreases b,
    {
        b = b - 1;
    }
    proof {
        lemma_uni_trim_end_above(v@, n as int, a as int);
        lemma_uni_trim_end_le(v@, b as int);
    }
    subvec(v, a, b)
}

/// The prefix of `v` before its first null character.
pub fn cut_nul_vec(v: &Vec<char>) -> (r: Vec<char>)
    ensures
        r@ == crate::model::cut_nul(v@),
{
    let n = v.len();
    let mut i: usize = 0;
    while i < n
        invariant
            i <= n,
            n == v@.len(),
            crate::model::nul_pos(v@, 0) == crate::model::nul_pos(v@, i as int),
        decreases n - i,
    {
        if v[i] == '\0' {
            proof {
                assert(crate::model::nul_pos(v@, i as int) == i as int);
            }
            return subvec(v, 0, i);
        }
        i = i + 1;
    }
    proof {
        assert(crate::model::nul_pos(v@, n as int) == n as int);
    }
    subvec(v, 0, n)
}

/// The scalar value of the character after ASCII lower-casing.
pub open spec fn lower_u32(c: char) -> u32 {
    if 'A' <= c && c <= 'Z' {
        (c as u32 + 32) as u32
    } else {
        c as u32
    }
}

/// The sequence of scalar values after ASCII lower-casing, the model of
/// case-insensitive comparison.
pub open spec fn lower_seq(s: Seq<char>) -> Seq<u32> {
    s.map_values(|c: char| lower_u32(c))
}

/// Whether two characters are equal up to ASCII case.
pub fn char_eq_ignore_case(a: char, b: char) -> (r: bool)
    ensures
        r == (lower_u32(a) == lower_u32(b)),
{
    let au = a as u32;
    let bu = b as u32;
    let al = if au >= 65 && au <= 90 {
        au + 32
    } else {
        au
    };
    let bl = if bu >= 65 && bu <= 90 {
        bu + 32
    } else {
        bu
    };
    al == bl
}

/// Whether the texts are equal up to ASCII case, the behaviour of
/// `eq_ignore_ascii_case`.
pub fn eq_ignore_case(a: &str, b: &str) -> (r: bool)
    ensures
        r == (lower_seq(a@) == lower_seq(b@)),
{
    let av = chars_of(a);
    let bv = chars_of(b);
    if av.len() != bv.len() {
        proof {
            assert(lower_seq(a@).len() != lower_seq(b@).len());
        }
        return false;
    }
    let n = av.len();
    let mut i: usize = 0;
    while i < n
        invariant
            av@ == a@,
            bv@ == b@,
            n == a@.len() == b@.len(),
            i <= n,
            forall|j: int| 0 <= j < i ==> lower_u32(a@[j]) == lower_u32(b@[j]),
        decreases n - i,
    {
        if !char_eq_ignore_case(av[i], bv[i]) {
            proof {
                assert(lower_seq(a@)[i as int] != lower_seq(b@)[i as int]);
            }
            return false;
        }
        i = i + 1;
    }
    proof {
        assert(lower_seq(a@) =~= lower_seq(b@));
    }
    true
}

} // verus!
