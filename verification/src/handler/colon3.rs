//! `pyramid`: builds a pyramid of cats, of `:3` faces in the old style, or of
//! a pattern of the user's own.
use vstd::prelude::*;

use crate::handler::{Captures, Span};
use crate::text::{ci_at, decimal_digit, has_ci_at, starts_with_ci, unicode_decimal_digit, chars_of, decimal, digit_char, digit_value, is_ascii_digit, push_char, push_chars, push_decimal};

verus! {

/// The pyramid processor: `[old |custom <PATTERN> ]pyramid[ <HEIGHT>]`.
pub struct Colon3;

/// What a pyramid is built of.
#[derive(PartialEq, Eq, Structural, Clone, Copy, Debug)]
pub enum Style {
    /// Cats.
    Cats,
    /// `:3` faces (`old pyramid`).
    Old,
    /// The pattern that the command spans (`custom <PATTERN> pyramid`).
    Custom(Span),
}

/// Whether the characters of `t` from `from` on are all decimal digits `\d`.
pub open spec fn all_decimal(t: Seq<char>, from: int) -> bool {
    forall|i: int| from <= i < t.len() ==> unicode_decimal_digit(#[trigger] t[i])
}

/// Whether `t`, from position `at` on, is `pyramid`, case ignored, then
/// perhaps a space and decimal digits, the height; and if so, where the height
/// is.
pub open spec fn pyramid_tail(t: Seq<char>, at: int) -> Option<Option<Span>> {
    let end = at + "pyramid"@.len();
    if !has_ci_at(t, at, "pyramid"@) {
        None
    } else if end == t.len() {
        Some(None)
    } else if t[end] == ' ' && end + 1 < t.len() && all_decimal(t, end + 1) {
        Some(Some(Span { start: (end + 1) as usize, end: t.len() as usize }))
    } else {
        None
    }
}

/// Whether characters `from` up to `to` of `t` hold no line break.
pub open spec fn no_line_break(t: Seq<char>, from: int, to: int) -> bool {
    forall|i: int| from <= i < to ==> #[trigger] t[i] != '\n'
}

/// The position, at most `j`, where the `pyramid` that ends a custom pyramid
/// command starts: the last one that follows a space, leaves a pattern of at
/// least one character without line break after `custom `, and ends the
/// command as a pyramid does.
pub open spec fn custom_split(t: Seq<char>, j: int) -> Option<int>
    decreases j,
{
    if j <= "custom "@.len() + 1 || j > t.len() {
        None
    } else if t[j - 1] == ' ' && pyramid_tail(t, j) is Some && no_line_break(
        t,
        "custom "@.len() as int,
        j - 1,
    ) {
        Some(j)
    } else {
        custom_split(t, j - 1)
    }
}

/// The pattern `^(?i:(old |custom (.+) )?pyramid)(?: (\d+))?$`: `pyramid`,
/// case ignored, perhaps after `old ` or after `custom `, a pattern and a
/// space; then perhaps a space and decimal digits, the height. The pattern is
/// the longest that lets the rest fit.
pub open spec fn pyramid_captures(t: Seq<char>) -> Option<Captures> {
    if starts_with_ci(t, "old "@) {
        match pyramid_tail(t, "old "@.len() as int) {
            Some(height) => Some(Captures::Pyramid { style: Style::Old, height }),
            None => None,
        }
    } else if starts_with_ci(t, "custom "@) {
        match custom_split(t, t.len() as int) {
            Some(j) => Some(
                Captures::Pyramid {
                    style: Style::Custom(Span { start: "custom "@.len() as usize, end: (j - 1) as usize }),
                    height: pyramid_tail(t, j)->0,
                },
            ),
            None => None,
        }
    } else {
        match pyramid_tail(t, 0) {
            Some(height) => Some(Captures::Pyramid { style: Style::Cats, height }),
            None => None,
        }
    }
}

proof fn lemma_custom_split_in_range(t: Seq<char>, j: int)
    ensures
        custom_split(t, j) matches Some(k) ==> "custom "@.len() + 1 < k <= j && k <= t.len()
            && t[k - 1] == ' ' && pyramid_tail(t, k) is Some && no_line_break(
            t,
            "custom "@.len() as int,
            k - 1,
        ),
    decreases j,
{
    if !(j <= "custom "@.len() + 1 || j > t.len()) {
        lemma_custom_split_in_range(t, j - 1);
    }
}

pub proof fn lemma_pyramid_captures_in_range(t: Seq<char>)
    requires
        t.len() <= usize::MAX,
    ensures
        pyramid_captures(t) matches Some(Captures::Pyramid { style, height }) ==> {
            &&& (height matches Some(s) ==> s.start <= s.end <= t.len())
            &&& (style matches Style::Custom(s) ==> s.start <= s.end <= t.len())
        },
{
    lemma_custom_split_in_range(t, t.len() as int);
}

pub open spec fn chars_view(o: Option<Vec<char>>) -> Option<Seq<char>> {
    match o {
        Some(v) => Some(v@),
        None => None,
    }
}

/// The answer to a pyramid command: the pyramid of `unit` of the given height
/// (3 when none is given), or why the height is refused.
pub open spec fn pyramid_reply(unit: Seq<char>, height: Option<Seq<char>>) -> Result<Seq<char>, SizeError> {
    let size = match height {
        Some(h) => pyramid_size(h),
        None => Ok(3u8),
    };
    match size {
        Ok(n) => Ok(pyramid(unit, n as nat)),
        Err(e) => Err(e),
    }
}

/// Where in `t`, from position `at` on, a pyramid tail fits.
fn tail_at(t: &[char], at: usize) -> (r: Option<Option<Span>>)
    ensures
        r == pyramid_tail(t@, at as int),
{
    let word = chars_of("pyramid");
    if !ci_at(t, at, &word) {
        return None;
    }
    assert(at + word@.len() <= t@.len() && t@.len() == t.len());
    let end = at + word.len();
    if end == t.len() {
        return Some(None);
    }
    if t[end] == ' ' && end + 1 < t.len() && all_decimal_from(t, end + 1) {
        Some(Some(Span { start: end + 1, end: t.len() }))
    } else {
        None
    }
}

/// Whether characters `from` up to `to` of `t` hold no line break.
fn line_break_free(t: &[char], from: usize, to: usize) -> (r: bool)
    requires
        from <= to <= t.len(),
    ensures
        r == no_line_break(t@, from as int, to as int),
{
    let mut i = from;
    while i < to
        invariant
            from <= i <= to <= t.len(),
            forall|k: int| from <= k < i ==> #[trigger] t@[k] != '\n',
        decreases to - i,
    {
        if t[i] == '\n' {
            return false;
        }
        i += 1;
    }
    true
}

impl Colon3 {
    pub fn captures(&self, t: &[char]) -> (r: Option<Captures>)
        ensures
            r == pyramid_captures(t@),
    {
        let old_word = chars_of("old ");
        let custom_word = chars_of("custom ");
        if ci_at(t, 0, &old_word) {
            return match tail_at(t, old_word.len()) {
                Some(height) => Some(Captures::Pyramid { style: Style::Old, height }),
                None => None,
            };
        }
        if ci_at(t, 0, &custom_word) {
            let ghost n = custom_word@.len() as int;
            assert(custom_word.len() <= t.len());
            let mut j = t.len();
            while j > 0 && j - 1 > custom_word.len()
                invariant
                    j <= t.len(),
                    n == custom_word@.len(),
                    n == "custom "@.len(),
                    custom_word.len() <= t.len(),
                    starts_with_ci(t@, "custom "@),
                    !starts_with_ci(t@, "old "@),
                    custom_split(t@, t@.len() as int) == custom_split(t@, j as int),
                decreases j,
            {
                if t[j - 1] == ' ' {
                    match tail_at(t, j) {
                        Some(height) => {
                            if line_break_free(t, custom_word.len(), j - 1) {
                                assert(custom_split(t@, j as int) == Some(j as int));
                                return Some(
                                    Captures::Pyramid {
                                        style: Style::Custom(Span { start: custom_word.len(), end: j - 1 }),
                                        height,
                                    },
                                );
                            }
                        },
                        None => {},
                    }
                }
                j -= 1;
            }
            assert(custom_split(t@, j as int) is None);
            return None;
        }
        match tail_at(t, 0) {
            Some(height) => Some(Captures::Pyramid { style: Style::Cats, height }),
            None => None,
        }
    }

    /// Builds the pyramid of `unit` that a command asks for, or says why its
    /// height is refused.
    pub fn process(&self, unit: &[char], height: &Option<Vec<char>>) -> (r: Result<String, SizeError>)
        ensures
            match r {
                Ok(s) => pyramid_reply(unit@, chars_view(*height)) == Ok::<Seq<char>, SizeError>(s@),
                Err(e) => pyramid_reply(unit@, chars_view(*height)) == Err::<Seq<char>, SizeError>(e),
            },
    {
        let num = match height {
            Some(h) => match parse_num_chars(h) {
                Ok(n) => n,
                Err(e) => return Err(e),
            },
            None => 3,
        };
        Ok(build_pyramid(unit, num))
    }
}

fn all_decimal_from(t: &[char], from: usize) -> (r: bool)
    requires
        from <= t.len(),
    ensures
        r == all_decimal(t@, from as int),
{
    let mut i = from;
    while i < t.len()
        invariant
            from <= i <= t.len(),
            forall|j: int| from <= j < i ==> unicode_decimal_digit(#[trigger] t@[j]),
        decreases t.len() - i,
    {
        if !decimal_digit(t[i]) {
            return false;
        }
        i += 1;
    }
    true
}

/// Why a pyramid height was refused: the error kinds of parsing a `u8` from a
/// string, and a parsed height outside 1 to 14.
#[derive(PartialEq, Eq, Structural, Clone, Copy, Debug)]
pub enum SizeError {
    Empty,
    InvalidDigit,
    TooLarge,
    OutOfRange(u8),
}

/// Parsing a run of decimal digits into a `u8`, left to right: the first
/// character that is not an ASCII digit, or the first digit that takes the
/// value past 255, is the error.
pub open spec fn parse_digits(s: Seq<char>) -> Result<u8, SizeError>
    decreases s.len(),
{
    if s.len() == 0 {
        Ok(0u8)
    } else {
        match parse_digits(s.drop_last()) {
            Err(e) => Err(e),
            Ok(v) => {
                if !is_ascii_digit(s.last()) {
                    Err(SizeError::InvalidDigit)
                } else if v * 10 + digit_value(s.last()) > 255 {
                    Err(SizeError::TooLarge)
                } else {
                    Ok((v * 10 + digit_value(s.last())) as u8)
                }
            },
        }
    }
}

/// `str::parse::<u8>`: an optional `+` sign, then decimal digits.
pub open spec fn parse_u8(s: Seq<char>) -> Result<u8, SizeError> {
    if s.len() == 0 {
        Err(SizeError::Empty)
    } else if s == seq!['+'] || s == seq!['-'] {
        Err(SizeError::InvalidDigit)
    } else if s[0] == '+' {
        parse_digits(s.drop_first())
    } else {
        parse_digits(s)
    }
}

/// A pyramid height: a `u8` from 1 to 14.
pub open spec fn pyramid_size(s: Seq<char>) -> Result<u8, SizeError> {
    match parse_u8(s) {
        Ok(n) => if 1 <= n && n <= 14 {
            Ok(n)
        } else {
            Err(SizeError::OutOfRange(n))
        },
        Err(e) => Err(e),
    }
}

/// The text that a refused height is reported with.
pub open spec fn size_error_message(e: SizeError) -> Seq<char> {
    match e {
        SizeError::Empty => "cannot parse integer from empty string"@,
        SizeError::InvalidDigit => "invalid digit found in string"@,
        SizeError::TooLarge => "number too large to fit in target type"@,
        SizeError::OutOfRange(n) => "Invalid pyramid size "@ + decimal(n as nat)
            + ". Must be from 1 to 14"@,
    }
}

impl SizeError {
    pub fn message(&self) -> (r: String)
        ensures
            r@ == size_error_message(*self),
    {
        match self {
            SizeError::Empty => String::from_str("cannot parse integer from empty string"),
            SizeError::InvalidDigit => String::from_str("invalid digit found in string"),
            SizeError::TooLarge => String::from_str("number too large to fit in target type"),
            SizeError::OutOfRange(n) => {
                let mut s = String::from_str("Invalid pyramid size ");
                push_decimal(&mut s, *n as u64);
                s.append(". Must be from 1 to 14");
                s
            },
        }
    }
}

/// Parses the decimal digits of `v` into a `u8`, as `str::parse::<u8>` does.
pub fn parse_u8_chars(v: &[char]) -> (r: Result<u8, SizeError>)
    ensures
        r == parse_u8(v@),
{
    if v.len() == 0 {
        return Err(SizeError::Empty);
    }
    if v.len() == 1 && (v[0] == '+' || v[0] == '-') {
        assert(v@ == seq![v@[0]]);
        return Err(SizeError::InvalidDigit);
    }
    assert(!(v@ == seq!['+'] || v@ == seq!['-'])) by {
        if v@ == seq!['+'] || v@ == seq!['-'] {
            assert(v@.len() == 1);
        }
    }
    let start: usize = if v[0] == '+' { 1 } else { 0 };
    let ghost digits = v@.skip(start as int);
    assert(digits == if v@[0] == '+' { v@.drop_first() } else { v@ });
    assert(parse_u8(v@) == parse_digits(digits));
    assert(v@.subrange(start as int, start as int) =~= Seq::<char>::empty());
    let mut acc: u8 = 0;
    let mut i: usize = start;
    while i < v.len()
        invariant
            start <= i <= v.len(),
            digits == v@.skip(start as int),
            parse_u8(v@) == parse_digits(digits),
            parse_digits(v@.subrange(start as int, i as int)) == Ok::<u8, SizeError>(acc),
        decreases v.len() - i,
    {
        let c = v[i];
        let ghost prefix = v@.subrange(start as int, i + 1);
        assert(prefix.drop_last() == v@.subrange(start as int, i as int));
        assert(prefix.last() == c);
        if !('0' <= c && c <= '9') {
            assert(parse_digits(prefix) == Err::<u8, SizeError>(SizeError::InvalidDigit));
            proof {
                assert(v@.subrange(start as int, v.len() as int).take(i + 1 - start) == prefix);
                lemma_parse_digits_error_stays(v@.subrange(start as int, v.len() as int), i + 1
                    - start);
                assert(v@.subrange(start as int, v.len() as int) == digits);
            }
            return Err(SizeError::InvalidDigit);
        }
        let d: u8 = (c as u8) - 48;
        assert(d == digit_value(c));
        if acc > 25 || (acc == 25 && d > 5) {
            assert(parse_digits(prefix) == Err::<u8, SizeError>(SizeError::TooLarge));
            proof {
                assert(v@.subrange(start as int, v.len() as int).take(i + 1 - start) == prefix);
                lemma_parse_digits_error_stays(v@.subrange(start as int, v.len() as int), i + 1
                    - start);
                assert(v@.subrange(start as int, v.len() as int) == digits);
            }
            return Err(SizeError::TooLarge);
        }
        assert(parse_digits(prefix) == Ok::<u8, SizeError>((acc * 10 + d) as u8));
        acc = acc * 10 + d;
        i += 1;
    }
    assert(v@.subrange(start as int, v.len() as int) == digits);
    Ok(acc)
}

/// Once a prefix of the digits fails to parse, the whole fails in the same way.
proof fn lemma_parse_digits_error_stays(s: Seq<char>, k: int)
    requires
        0 <= k <= s.len(),
        parse_digits(s.take(k)) is Err,
    ensures
        parse_digits(s) == parse_digits(s.take(k)),
    decreases s.len() - k,
{
    if k < s.len() {
        assert(s.take(k + 1).drop_last() == s.take(k));
        lemma_parse_digits_error_stays(s, k + 1);
    } else {
        assert(s.take(k) == s);
    }
}

/// Reads a pyramid height: a `u8` from 1 to 14, written as `str::parse` accepts it.
pub fn parse_num(text: &str) -> (r: Result<u8, SizeError>)
    ensures
        r == pyramid_size(text@),
{
    let v = chars_of(text);
    parse_num_chars(&v)
}

pub fn parse_num_chars(v: &[char]) -> (r: Result<u8, SizeError>)
    ensures
        r == pyramid_size(v@),
{
    match parse_u8_chars(v) {
        Ok(n) => if 1 <= n && n <= 14 {
            Ok(n)
        } else {
            Err(SizeError::OutOfRange(n))
        },
        Err(e) => Err(e),
    }
}

// ---------------------------------------------------------------------------
// Pyramids
// ---------------------------------------------------------------------------

/// `unit` written `n` times.
pub open spec fn repeat(unit: Seq<char>, n: nat) -> Seq<char>
    decreases n,
{
    if n == 0 {
        Seq::empty()
    } else {
        repeat(unit, (n - 1) as nat) + unit
    }
}

/// A line of the pyramid: `n` units and a line break.
pub open spec fn row(unit: Seq<char>, n: nat) -> Seq<char> {
    repeat(unit, n).push('\n')
}

/// Lines of 1, 2, ..., `k` units.
pub open spec fn rising(unit: Seq<char>, k: nat) -> Seq<char>
    decreases k,
{
    if k == 0 {
        Seq::empty()
    } else {
        rising(unit, (k - 1) as nat) + row(unit, k)
    }
}

/// Lines of `k`, `k - 1`, ..., 1 units.
pub open spec fn falling(unit: Seq<char>, k: nat) -> Seq<char>
    decreases k,
{
    if k == 0 {
        Seq::empty()
    } else {
        row(unit, k) + falling(unit, (k - 1) as nat)
    }
}

/// The pyramid of height `num`: lines of 1 up to `num` units and back down to 1.
pub open spec fn pyramid(unit: Seq<char>, num: nat) -> Seq<char> {
    if num == 0 {
        Seq::empty()
    } else {
        rising(unit, num) + falling(unit, (num - 1) as nat)
    }
}

/// The unit of the old pyramid.
pub open spec fn old_unit() -> Seq<char> {
    ":3  "@
}

/// The unit of the pyramid.
pub open spec fn cat_unit() -> Seq<char> {
    "🐱"@
}

fn push_row(s: &mut String, unit: &[char], n: u8)
    ensures
        final(s)@ == old(s)@ + row(unit@, n as nat),
{
    let ghost start = s@;
    let mut i: u8 = 0;
    while i < n
        invariant
            i <= n,
            s@ == start + repeat(unit@, i as nat),
        decreases n - i,
    {
        push_chars(s, unit);
        i += 1;
        assert(start + repeat(unit@, i as nat) == start + repeat(unit@, (i - 1) as nat) + unit@);
    }
    push_char(s, '\n');
    assert(start + row(unit@, n as nat) == (start + repeat(unit@, n as nat)).push('\n'));
}

/// Builds the pyramid of height `num` out of `unit`.
pub fn build_pyramid(unit: &[char], num: u8) -> (r: String)
    ensures
        r@ == pyramid(unit@, num as nat),
{
    let mut s = String::new();
    if num == 0 {
        return s;
    }
    let mut k: u8 = 0;
    while k < num
        invariant
            k <= num,
            s@ == rising(unit@, k as nat),
        decreases num - k,
    {
        k += 1;
        push_row(&mut s, unit, k);
    }
    let mut k: u8 = num - 1;
    while k > 0
        invariant
            k < num,
            s@ + falling(unit@, k as nat) == pyramid(unit@, num as nat),
        decreases k,
    {
        let ghost before = s@;
        push_row(&mut s, unit, k);
        assert(before + falling(unit@, k as nat) == s@ + falling(unit@, (k - 1) as nat));
        k -= 1;
    }
    assert(s@ + falling(unit@, 0) == s@);
    s
}

// ---------------------------------------------------------------------------
// Sizes of pyramids
// ---------------------------------------------------------------------------

proof fn lemma_repeat_len(unit: Seq<char>, n: nat)
    ensures
        repeat(unit, n).len() == unit.len() * n,
    decreases n,
{
    if n == 0 {
        assert(unit.len() * n == 0) by (nonlinear_arith)
            requires
                n == 0,
        ;
    } else {
        lemma_repeat_len(unit, (n - 1) as nat);
        assert(repeat(unit, n).len() == repeat(unit, (n - 1) as nat).len() + unit.len());
        assert(unit.len() * n == unit.len() * (n - 1) + unit.len()) by (nonlinear_arith)
            requires
                n > 0,
        ;
    }
}

proof fn lemma_rising_len(unit: Seq<char>, k: nat)
    ensures
        2 * rising(unit, k).len() == unit.len() * k * (k + 1) + 2 * k,
    decreases k,
{
    if k == 0 {
        assert(unit.len() * k * (k + 1) == 0) by (nonlinear_arith)
            requires
                k == 0,
        ;
    } else {
        lemma_rising_len(unit, (k - 1) as nat);
        lemma_repeat_len(unit, k);
        assert(rising(unit, k).len() == rising(unit, (k - 1) as nat).len() + unit.len() * k + 1);
        assert(unit.len() * k * (k + 1) == unit.len() * (k - 1) * k + 2 * (unit.len() * k))
            by (nonlinear_arith)
            requires
                k > 0,
        ;
    }
}

proof fn lemma_falling_len(unit: Seq<char>, k: nat)
    ensures
        2 * falling(unit, k).len() == unit.len() * k * (k + 1) + 2 * k,
    decreases k,
{
    if k == 0 {
        assert(unit.len() * k * (k + 1) == 0) by (nonlinear_arith)
            requires
                k == 0,
        ;
    } else {
        lemma_falling_len(unit, (k - 1) as nat);
        lemma_repeat_len(unit, k);
        assert(falling(unit, k).len() == falling(unit, (k - 1) as nat).len() + unit.len() * k + 1);
        assert(unit.len() * k * (k + 1) == unit.len() * (k - 1) * k + 2 * (unit.len() * k))
            by (nonlinear_arith)
            requires
                k > 0,
        ;
    }
}

/// A pyramid of height `num` holds `num * num` units and `2 * num - 1` line
/// breaks: its rows have 1, 2, ..., `num`, ..., 2, 1 units.
pub proof fn pyramid_size_law(unit: Seq<char>, num: nat)
    requires
        num >= 1,
    ensures
        pyramid(unit, num).len() == unit.len() * num * num + 2 * num - 1,
{
    lemma_rising_len(unit, num);
    lemma_falling_len(unit, (num - 1) as nat);
    assert(unit.len() * num * (num + 1) + unit.len() * (num - 1) * num == 2 * (unit.len() * num
        * num)) by (nonlinear_arith);
}

/// `s` with every `c` replaced by `u`.
pub open spec fn substitute(s: Seq<char>, c: char, u: Seq<char>) -> Seq<char>
    decreases s.len(),
{
    if s.len() == 0 {
        Seq::empty()
    } else {
        substitute(s.drop_last(), c, u) + if s.last() == c {
            u
        } else {
            seq![s.last()]
        }
    }
}

proof fn lemma_substitute_concat(a: Seq<char>, b: Seq<char>, c: char, u: Seq<char>)
    ensures
        substitute(a + b, c, u) == substitute(a, c, u) + substitute(b, c, u),
    decreases b.len(),
{
    if b.len() == 0 {
        assert(a + b == a);
        assert(substitute(a, c, u) + Seq::<char>::empty() == substitute(a, c, u));
    } else {
        lemma_substitute_concat(a, b.drop_last(), c, u);
        assert((a + b).drop_last() == a + b.drop_last());
        assert((a + b).last() == b.last());
    }
}

proof fn lemma_substitute_row(c: char, u: Seq<char>, n: nat)
    requires
        c != '\n',
    ensures
        substitute(repeat(seq![c], n), c, u) == repeat(u, n),
        substitute(row(seq![c], n), c, u) == row(u, n),
    decreases n,
{
    if n > 0 {
        lemma_substitute_row(c, u, (n - 1) as nat);
        lemma_substitute_concat(repeat(seq![c], (n - 1) as nat), seq![c], c, u);
        assert(seq![c].drop_last() =~= Seq::<char>::empty());
        assert(substitute(seq![c].drop_last(), c, u) == Seq::<char>::empty());
        assert(Seq::<char>::empty() + u =~= u);
        assert(substitute(seq![c], c, u) == u);
    }
    let r = repeat(seq![c], n);
    assert(row(seq![c], n) == r + seq!['\n']);
    lemma_substitute_concat(r, seq!['\n'], c, u);
    assert(seq!['\n'].drop_last() =~= Seq::<char>::empty());
    assert(substitute(seq!['\n'], c, u) == seq!['\n']);
}

proof fn lemma_substitute_rising_falling(c: char, u: Seq<char>, k: nat)
    requires
        c != '\n',
    ensures
        substitute(rising(seq![c], k), c, u) == rising(u, k),
        substitute(falling(seq![c], k), c, u) == falling(u, k),
    decreases k,
{
    if k > 0 {
        lemma_substitute_rising_falling(c, u, (k - 1) as nat);
        lemma_substitute_row(c, u, k);
        lemma_substitute_concat(rising(seq![c], (k - 1) as nat), row(seq![c], k), c, u);
        lemma_substitute_concat(row(seq![c], k), falling(seq![c], (k - 1) as nat), c, u);
    }
}

/// Every pyramid has one shape: the pyramid of any unit is the pyramid of a
/// single character `c` (other than a line break) with each `c` replaced by
/// that unit.
pub proof fn pyramid_shape_law(c: char, u: Seq<char>, num: nat)
    requires
        c != '\n',
    ensures
        pyramid(u, num) == substitute(pyramid(seq![c], num), c, u),
{
    if num > 0 {
        lemma_substitute_rising_falling(c, u, num);
        lemma_substitute_rising_falling(c, u, (num - 1) as nat);
        lemma_substitute_concat(rising(seq![c], num), falling(seq![c], (num - 1) as nat), c, u);
    }
}

/// The old pyramid is the cat pyramid with each cat replaced by the old unit.
pub proof fn old_pyramid_law(num: nat)
    ensures
        pyramid(old_unit(), num) == substitute(pyramid(cat_unit(), num), '🐱', old_unit()),
{
    reveal_strlit("🐱");
    assert(cat_unit() == seq!['🐱']);
    pyramid_shape_law('🐱', old_unit(), num);
}

/// The number of line breaks in `s`.
pub open spec fn line_breaks(s: Seq<char>) -> nat
    decreases s.len(),
{
    if s.len() == 0 {
        0
    } else {
        line_breaks(s.drop_last()) + if s.last() == '\n' {
            1nat
        } else {
            0nat
        }
    }
}

proof fn lemma_line_breaks_concat(a: Seq<char>, b: Seq<char>)
    ensures
        line_breaks(a + b) == line_breaks(a) + line_breaks(b),
    decreases b.len(),
{
    if b.len() == 0 {
        assert(a + b == a);
    } else {
        lemma_line_breaks_concat(a, b.drop_last());
        assert((a + b).drop_last() == a + b.drop_last());
    }
}

proof fn lemma_line_breaks_rows(u: Seq<char>, k: nat)
    requires
        line_breaks(u) == 0,
    ensures
        line_breaks(repeat(u, k)) == 0,
        line_breaks(row(u, k)) == 1,
        line_breaks(rising(u, k)) == k,
        line_breaks(falling(u, k)) == k,
    decreases k,
{
    if k > 0 {
        lemma_line_breaks_rows(u, (k - 1) as nat);
        lemma_line_breaks_concat(repeat(u, (k - 1) as nat), u);
    }
    lemma_line_breaks_concat(repeat(u, k), seq!['\n']);
    assert(seq!['\n'].drop_last() =~= Seq::<char>::empty());
    assert(line_breaks(seq!['\n'].drop_last()) == 0);
    assert(seq!['\n'].last() == '\n');
    assert(line_breaks(seq!['\n']) == 1);
    assert(row(u, k) == repeat(u, k) + seq!['\n']);
    if k > 0 {
        lemma_line_breaks_concat(rising(u, (k - 1) as nat), row(u, k));
        lemma_line_breaks_concat(row(u, k), falling(u, (k - 1) as nat));
    }
}

/// A pyramid of height `num`, of a unit without line breaks, has `2 * num - 1`
/// lines.
pub proof fn pyramid_lines_law(u: Seq<char>, num: nat)
    requires
        num >= 1,
        line_breaks(u) == 0,
    ensures
        line_breaks(pyramid(u, num)) == 2 * num - 1,
{
    lemma_line_breaks_rows(u, num);
    lemma_line_breaks_rows(u, (num - 1) as nat);
    lemma_line_breaks_concat(rising(u, num), falling(u, (num - 1) as nat));
}

/// Parsing the decimal notation of a byte gives the byte back.
pub proof fn parse_decimal_law(n: u8)
    ensures
        parse_u8(decimal(n as nat)) == Ok::<u8, SizeError>(n),
{
    lemma_parse_decimal(n as nat);
    let d = decimal(n as nat);
    lemma_decimal_first(n as nat);
    assert(d != seq!['+'] && d != seq!['-']) by {
        if d.len() == 1 {
            assert(d[0] != '+' && d[0] != '-');
        }
    }
}

proof fn lemma_decimal_first(n: nat)
    ensures
        decimal(n).len() >= 1,
        is_ascii_digit(decimal(n)[0]),
    decreases n,
{
    if n >= 10 {
        lemma_decimal_first(n / 10);
    }
}

proof fn lemma_parse_decimal(n: nat)
    requires
        n <= 255,
    ensures
        parse_digits(decimal(n)) == Ok::<u8, SizeError>(n as u8),
    decreases n,
{
    let d = decimal(n);
    let c = digit_char(n % 10);
    assert(c as u32 == 48 + n % 10);
    assert(is_ascii_digit(c));
    assert(digit_value(c) == n % 10);
    assert(d.last() == c);
    if n < 10 {
        assert(d.drop_last() =~= Seq::<char>::empty());
        assert(parse_digits(d.drop_last()) == Ok::<u8, SizeError>(0u8));
    } else {
        lemma_parse_decimal(n / 10);
        assert(d.drop_last() == decimal(n / 10));
        assert((n / 10) * 10 + n % 10 == n);
    }
}

} // verus!
