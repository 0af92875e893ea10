//! Characters and strings: whitespace, case-insensitive matching of command
//! words, decimal numbers, and building strings from characters.
use vstd::prelude::*;

verus! {

// ---------------------------------------------------------------------------
// Whitespace
// ---------------------------------------------------------------------------

/// The Unicode `White_Space` property, which `str::trim_start` strips.
pub open spec fn is_whitespace(c: char) -> bool {
    ||| ('\u{9}' <= c && c <= '\u{d}')
    ||| c == ' '
    ||| c == '\u{85}'
    ||| c == '\u{a0}'
    ||| c == '\u{1680}'
    ||| ('\u{2000}' <= c && c <= '\u{200a}')
    ||| c == '\u{2028}'
    ||| c == '\u{2029}'
    ||| c == '\u{202f}'
    ||| c == '\u{205f}'
    ||| c == '\u{3000}'
}

pub fn whitespace(c: char) -> (r: bool)
    ensures
        r == is_whitespace(c),
{
    ('\u{9}' <= c && c <= '\u{d}') || c == ' ' || c == '\u{85}' || c == '\u{a0}' || c
        == '\u{1680}' || ('\u{2000}' <= c && c <= '\u{200a}') || c == '\u{2028}' || c
        == '\u{2029}' || c == '\u{202f}' || c == '\u{205f}' || c == '\u{3000}'
}

/// `s` without its leading whitespace.
pub open spec fn trim_start(s: Seq<char>) -> Seq<char>
    decreases s.len(),
{
    if s.len() > 0 && is_whitespace(s[0]) {
        trim_start(s.drop_first())
    } else {
        s
    }
}

/// Trimming takes off exactly the leading whitespace: what is left is a
/// suffix of `s`, everything before it is whitespace, and it does not start
/// with whitespace.
pub proof fn trim_start_law(s: Seq<char>)
    ensures
        trim_start(s).len() <= s.len(),
        trim_start(s) == s.skip(s.len() - trim_start(s).len()),
        forall|i: int|
            0 <= i < s.len() - trim_start(s).len() ==> #[trigger] is_whitespace(s[i]),
        trim_start(s).len() > 0 ==> !is_whitespace(trim_start(s)[0]),
    decreases s.len(),
{
    if s.len() > 0 && is_whitespace(s[0]) {
        trim_start_law(s.drop_first());
        let t = s.drop_first();
        assert(s.skip(s.len() - trim_start(s).len()) == t.skip(
            t.len() - trim_start(t).len(),
        ));
        assert forall|i: int| 0 <= i < s.len() - trim_start(s).len() implies #[trigger] is_whitespace(
            s[i],
        ) by {
            if i > 0 {
                assert(s[i] == t[i - 1]);
            }
        }
    } else {
        assert(s.skip(0) == s);
    }
}

/// Number of leading whitespace characters of `v`, from position `from` on.
pub fn skip_whitespace(v: &[char], from: usize) -> (k: usize)
    requires
        from <= v.len(),
    ensures
        from <= k <= v.len(),
        v@.skip(k as int) == trim_start(v@.skip(from as int)),
{
    let mut k = from;
    while k < v.len() && whitespace(v[k])
        invariant
            from <= k <= v.len(),
            trim_start(v@.skip(k as int)) == trim_start(v@.skip(from as int)),
        decreases v.len() - k,
    {
        assert(v@.skip(k as int).drop_first() == v@.skip(k + 1));
        k += 1;
    }
    k
}

// ---------------------------------------------------------------------------
// Case-insensitive matching of lower-case command words
// ---------------------------------------------------------------------------

/// ASCII upper-case letters mapped to lower case, every other character kept.
pub open spec fn ascii_lower(c: char) -> char {
    if 'A' <= c && c <= 'Z' {
        ((c as u32) + 32) as char
    } else {
        c
    }
}

/// Whether `c` matches the pattern character `p` (given in lower case) when
/// case is ignored: the upper-case ASCII letter matches its lower-case form,
/// and the two further characters that Unicode simple case folding sends to
/// ASCII letters, KELVIN SIGN to `k` and LATIN SMALL LETTER LONG S to `s`.
pub open spec fn folds_to(c: char, p: char) -> bool {
    ||| ascii_lower(c) == p
    ||| (p == 'k' && c == '\u{212a}')
    ||| (p == 's' && c == '\u{17f}')
}

/// `s` spells the lower-case pattern `p` when case is ignored.
pub open spec fn matches_ci(s: Seq<char>, p: Seq<char>) -> bool {
    &&& s.len() == p.len()
    &&& forall|i: int| 0 <= i < s.len() ==> folds_to(#[trigger] s[i], p[i])
}

/// `s`, from position `at` on, begins with the lower-case pattern `p` when case
/// is ignored.
pub open spec fn has_ci_at(s: Seq<char>, at: int, p: Seq<char>) -> bool {
    &&& 0 <= at
    &&& at + p.len() <= s.len()
    &&& matches_ci(s.subrange(at, at + p.len()), p)
}

pub open spec fn starts_with_ci(s: Seq<char>, p: Seq<char>) -> bool {
    has_ci_at(s, 0, p)
}

pub fn char_folds_to(c: char, p: char) -> (r: bool)
    ensures
        r == folds_to(c, p),
{
    let lower = if 'A' <= c && c <= 'Z' {
        ((c as u8) + 32) as char
    } else {
        c
    };
    lower == p || (p == 'k' && c == '\u{212a}') || (p == 's' && c == '\u{17f}')
}

/// Whether `v` holds the lower-case pattern `p`, case ignored, at position `at`.
pub fn ci_at(v: &[char], at: usize, p: &[char]) -> (r: bool)
    ensures
        r == has_ci_at(v@, at as int, p@),
{
    if at > v.len() || p.len() > v.len() - at {
        return false;
    }
    let mut i: usize = 0;
    while i < p.len()
        invariant
            at + p.len() <= v.len(),
            i <= p.len(),
            forall|j: int| 0 <= j < i ==> folds_to(v@[at + j], p@[j]),
        decreases p.len() - i,
    {
        if !char_folds_to(v[at + i], p[i]) {
            assert(!folds_to(v@.subrange(at as int, at + p.len())[i as int], p@[i as int]));
            return false;
        }
        i += 1;
    }
    assert forall|j: int| 0 <= j < p.len() implies folds_to(
        #[trigger] v@.subrange(at as int, at + p.len())[j],
        p@[j],
    ) by {
        assert(v@.subrange(at as int, at + p.len())[j] == v@[at + j]);
    }
    true
}

/// `a` and `b` differ at most in the case of ASCII letters.
pub open spec fn same_but_case(a: Seq<char>, b: Seq<char>) -> bool {
    &&& a.len() == b.len()
    &&& forall|i: int| 0 <= i < a.len() ==> ascii_lower(#[trigger] a[i]) == ascii_lower(b[i])
}

/// Two characters that differ at most in ASCII case match the same pattern
/// characters, and are the same where either is no ASCII letter.
pub proof fn lemma_folds_same_case(c1: char, c2: char, p: char)
    requires
        ascii_lower(c1) == ascii_lower(c2),
    ensures
        folds_to(c1, p) == folds_to(c2, p),
        !('A' <= c1 && c1 <= 'Z') && !('a' <= c1 && c1 <= 'z') ==> c1 == c2,
{
    if 'A' <= c1 && c1 <= 'Z' {
        assert((c1 as u32) + 32 <= 122);
    }
    if 'A' <= c2 && c2 <= 'Z' {
        assert((c2 as u32) + 32 <= 122);
    }
}

/// Whether a lower-case pattern occurs at a position does not depend on the
/// case of ASCII letters.
pub proof fn lemma_has_ci_at_same_case(a: Seq<char>, b: Seq<char>, at: int, p: Seq<char>)
    requires
        same_but_case(a, b),
    ensures
        has_ci_at(a, at, p) == has_ci_at(b, at, p),
{
    if 0 <= at && at + p.len() <= a.len() {
        let sa = a.subrange(at, at + p.len());
        let sb = b.subrange(at, at + p.len());
        assert forall|i: int| 0 <= i < p.len() implies folds_to(#[trigger] sa[i], p[i]) == folds_to(
            sb[i],
            p[i],
        ) by {
            assert(sa[i] == a[at + i]);
            assert(sb[i] == b[at + i]);
            lemma_folds_same_case(a[at + i], b[at + i], p[i]);
        }
        if matches_ci(sa, p) {
            assert forall|i: int| 0 <= i < sb.len() implies folds_to(#[trigger] sb[i], p[i]) by {
                assert(folds_to(sa[i], p[i]));
            }
        }
        if matches_ci(sb, p) {
            assert forall|i: int| 0 <= i < sa.len() implies folds_to(#[trigger] sa[i], p[i]) by {
                assert(folds_to(sb[i], p[i]));
            }
        }
    }
}

/// A pattern without upper-case ASCII letters matches itself in any ASCII
/// case: where `t`, from `at` on, lower-cases to `p`, `p` occurs there.
pub proof fn lemma_has_ci_at_casing(t: Seq<char>, at: int, p: Seq<char>)
    requires
        0 <= at,
        at + p.len() <= t.len(),
        forall|i: int| 0 <= i < p.len() ==> ascii_lower(#[trigger] t[at + i]) == p[i],
    ensures
        has_ci_at(t, at, p),
{
    let s = t.subrange(at, at + p.len());
    assert forall|i: int| 0 <= i < s.len() implies folds_to(#[trigger] s[i], p[i]) by {
        assert(s[i] == t[at + i]);
        assert(ascii_lower(t[at + i]) == p[i]);
    }
}

/// Whether `v` is the lower-case pattern `p`, case ignored.
pub fn ci_eq(v: &[char], p: &[char]) -> (r: bool)
    ensures
        r == matches_ci(v@, p@),
{
    let r = v.len() == p.len() && ci_at(v, 0, p);
    assert(v.len() == p.len() ==> v@.subrange(0, p.len() as int) == v@);
    r
}

/// `s`, from position `at` on, begins with `p` exactly.
pub open spec fn has_at(s: Seq<char>, at: int, p: Seq<char>) -> bool {
    &&& 0 <= at
    &&& at + p.len() <= s.len()
    &&& s.subrange(at, at + p.len()) == p
}

/// Whether `v` holds `p` at position `at`.
pub fn exact_at(v: &[char], at: usize, p: &[char]) -> (r: bool)
    ensures
        r == has_at(v@, at as int, p@),
{
    if at > v.len() || p.len() > v.len() - at {
        return false;
    }
    let mut i: usize = 0;
    while i < p.len()
        invariant
            at + p.len() <= v.len(),
            i <= p.len(),
            forall|j: int| 0 <= j < i ==> v@[at + j] == p@[j],
        decreases p.len() - i,
    {
        if v[at + i] != p[i] {
            assert(v@.subrange(at as int, at + p.len())[i as int] != p@[i as int]);
            return false;
        }
        i += 1;
    }
    assert(v@.subrange(at as int, at + p.len()) =~= p@);
    true
}

/// Whether the lower-case pattern `p` occurs, case ignored, anywhere in `v`.
pub open spec fn contains_ci(s: Seq<char>, p: Seq<char>) -> bool {
    exists|i: int| #[trigger] has_ci_at(s, i, p)
}

pub fn find_ci(v: &[char], p: &[char]) -> (r: bool)
    ensures
        r == contains_ci(v@, p@),
{
    let mut i: usize = 0;
    while i < v.len()
        invariant
            i <= v.len(),
            forall|j: int| 0 <= j < i ==> !#[trigger] has_ci_at(v@, j, p@),
        decreases v.len() - i,
    {
        if ci_at(v, i, p) {
            return true;
        }
        i += 1;
    }
    if ci_at(v, v.len(), p) {
        return true;
    }
    assert forall|j: int| !#[trigger] has_ci_at(v@, j, p@) by {
        if 0 <= j < v.len() {
        } else if j == v.len() {
        } else {
        }
    }
    false
}

// ---------------------------------------------------------------------------
// Building strings
// ---------------------------------------------------------------------------

/// Appends one character to a string (`String::push`).
#[verifier::external_body]
pub(crate) fn push_char(s: &mut String, c: char)
    ensures
        final(s)@ == old(s)@.push(c),
{
    s.push(c);
}

/// Appends characters to a string.
pub fn push_chars(s: &mut String, v: &[char])
    ensures
        final(s)@ == old(s)@ + v@,
{
    let ghost start = s@;
    let mut i: usize = 0;
    while i < v.len()
        invariant
            i <= v.len(),
            s@ == start + v@.take(i as int),
        decreases v.len() - i,
    {
        push_char(s, v[i]);
        i += 1;
        assert(v@.take(i as int) == v@.take(i - 1).push(v@[i - 1]));
    }
    assert(v@.take(v.len() as int) == v@);
}

/// The characters of a string slice, in order.
pub fn chars_of(s: &str) -> (v: Vec<char>)
    ensures
        v@ == s@,
{
    let mut v: Vec<char> = Vec::new();
    for c in it: s.chars()
        invariant
            v@ == it.seq().take(it.index() as int),
    {
        v.push(c);
    }
    v
}

/// A string holding the given characters.
pub fn string_of(v: &[char]) -> (s: String)
    ensures
        s@ == v@,
{
    let mut s = String::new();
    push_chars(&mut s, v);
    s
}

// ---------------------------------------------------------------------------
// Decimal numbers
// ---------------------------------------------------------------------------

pub open spec fn digit_char(d: nat) -> char {
    (48 + d) as char
}

pub open spec fn is_ascii_digit(c: char) -> bool {
    '0' <= c && c <= '9'
}

pub open spec fn digit_value(c: char) -> nat {
    ((c as u32) - 48) as nat
}

/// The decimal notation of `n`, without sign or leading zeros.
pub open spec fn decimal(n: nat) -> Seq<char>
    decreases n,
{
    if n < 10 {
        seq![digit_char(n)]
    } else {
        decimal(n / 10).push(digit_char(n % 10))
    }
}

/// Appends the decimal notation of `n`.
pub fn push_decimal(s: &mut String, n: u64)
    ensures
        final(s)@ == old(s)@ + decimal(n as nat),
    decreases n,
{
    if n >= 10 {
        push_decimal(s, n / 10);
    }
    push_char(s, (48u8 + (n % 10) as u8) as char);
    assert(old(s)@ + decimal(n as nat) == (if n >= 10 {
        old(s)@ + decimal((n / 10) as nat)
    } else {
        old(s)@
    }).push(digit_char((n % 10) as nat)));
}

// ---------------------------------------------------------------------------
// Unicode lower case
// ---------------------------------------------------------------------------

/// What `str::to_lowercase` returns for a string: each character mapped by
/// Unicode's `Lowercase` mapping, with the final-sigma rule.
pub uninterp spec fn unicode_lowercase(s: Seq<char>) -> Seq<char>;

/// `str::to_lowercase`. Claimed: the result is `unicode_lowercase` of the
/// argument's characters; nothing more is stated of that mapping.
#[verifier::external_body]
pub(crate) fn to_lowercase(s: &str) -> (r: String)
    ensures
        r@ == unicode_lowercase(s@),
{
    s.to_lowercase()
}

// ---------------------------------------------------------------------------
// Unicode decimal digits
// ---------------------------------------------------------------------------

/// Whether `regex` counts `c` as a decimal digit `\d`, the Unicode general
/// category `Nd`.
pub uninterp spec fn unicode_decimal_digit(c: char) -> bool;

/// Matches the single character `c` against the `regex` class `\d`
/// (`Regex::new` and `Regex::is_match`). Claimed: the result is
/// `unicode_decimal_digit(c)`; among ASCII characters exactly the digits `0` to
/// `9` belong to the class, as the `regex` documentation (`\d` is `\p{Nd}`)
/// and its table of `Nd` show.
#[verifier::external_body]
pub(crate) fn decimal_digit(c: char) -> (r: bool)
    ensures
        r == unicode_decimal_digit(c),
        (c as u32) < 128 ==> (r <==> is_ascii_digit(c)),
{
    let mut buf = [0u8; 4];
    match regex::Regex::new(r"^\d$") {
        Ok(re) => re.is_match(c.encode_utf8(&mut buf)),
        Err(_) => false,
    }
}

} // verus!
