//! `no`: takes the bot's latest message back.
use vstd::prelude::*;

use crate::handler::Captures;
use crate::text::{
    ascii_lower, chars_of, ci_at, has_ci_at, lemma_folds_same_case, lemma_has_ci_at_casing,
    lemma_has_ci_at_same_case, same_but_case,
};

verus! {

/// The undo processor.
pub struct No;

/// From position `at` on, `t` holds only `!`.
pub open spec fn bangs_from(t: Seq<char>, at: int) -> bool {
    forall|i: int| at <= i < t.len() ==> #[trigger] t[i] == '!'
}

/// From position `at` on, `t` is `no`, `stop` or `undo`, case ignored, then
/// any number of `!`.
pub open spec fn word_then_bangs(t: Seq<char>, at: int) -> bool {
    ||| has_ci_at(t, at, "no"@) && bangs_from(t, at + "no"@.len())
    ||| has_ci_at(t, at, "stop"@) && bangs_from(t, at + "stop"@.len())
    ||| has_ci_at(t, at, "undo"@) && bangs_from(t, at + "undo"@.len())
}

/// The pattern `(?i:^(please |pls |plz |i beg you)?(no|stop|undo)!*)$`: the
/// whole command is `no`, `stop` or `undo`, perhaps after `please `, `pls `,
/// `plz ` or `i beg you`, then any number of `!`, case ignored.
pub open spec fn no_captures(t: Seq<char>) -> Option<Captures> {
    if word_then_bangs(t, 0) || (has_ci_at(t, 0, "please "@) && word_then_bangs(
        t,
        "please "@.len() as int,
    )) || (has_ci_at(t, 0, "pls "@) && word_then_bangs(t, "pls "@.len() as int)) || (has_ci_at(
        t,
        0,
        "plz "@,
    ) && word_then_bangs(t, "plz "@.len() as int)) || (has_ci_at(t, 0, "i beg you"@)
        && word_then_bangs(t, "i beg you"@.len() as int)) {
        Some(Captures::Whole)
    } else {
        None
    }
}

/// What may come before the undo word.
pub open spec fn undo_prefixes() -> Seq<Seq<char>> {
    seq![Seq::empty(), "please "@, "pls "@, "plz "@, "i beg you"@]
}

/// The undo words.
pub open spec fn undo_words() -> Seq<Seq<char>> {
    seq!["no"@, "stop"@, "undo"@]
}

proof fn lemma_bangs_same_case(a: Seq<char>, b: Seq<char>, at: int)
    requires
        same_but_case(a, b),
        0 <= at,
    ensures
        bangs_from(a, at) == bangs_from(b, at),
{
    assert forall|i: int| at <= i < a.len() implies (#[trigger] a[i] == '!') == (b[i] == '!') by {
        lemma_folds_same_case(a[i], b[i], '!');
        lemma_folds_same_case(b[i], a[i], '!');
    }
    if bangs_from(a, at) {
        assert forall|i: int| at <= i < b.len() implies #[trigger] b[i] == '!' by {
            assert(a[i] == '!');
        }
    }
    if bangs_from(b, at) {
        assert forall|i: int| at <= i < a.len() implies #[trigger] a[i] == '!' by {
            assert(b[i] == '!');
        }
    }
}

proof fn lemma_word_then_bangs_same_case(a: Seq<char>, b: Seq<char>, at: int)
    requires
        same_but_case(a, b),
        0 <= at,
    ensures
        word_then_bangs(a, at) == word_then_bangs(b, at),
{
    lemma_has_ci_at_same_case(a, b, at, "no"@);
    lemma_has_ci_at_same_case(a, b, at, "stop"@);
    lemma_has_ci_at_same_case(a, b, at, "undo"@);
    lemma_bangs_same_case(a, b, at + "no"@.len());
    lemma_bangs_same_case(a, b, at + "stop"@.len());
    lemma_bangs_same_case(a, b, at + "undo"@.len());
}

/// The case of ASCII letters makes no difference to whether a command asks
/// to take the latest message back, in the prefix as in the word.
pub proof fn no_case_law(a: Seq<char>, b: Seq<char>)
    requires
        same_but_case(a, b),
    ensures
        no_captures(a) == no_captures(b),
{
    lemma_word_then_bangs_same_case(a, b, 0);
    lemma_word_then_bangs_same_case(a, b, "please "@.len() as int);
    lemma_word_then_bangs_same_case(a, b, "pls "@.len() as int);
    lemma_word_then_bangs_same_case(a, b, "plz "@.len() as int);
    lemma_word_then_bangs_same_case(a, b, "i beg you"@.len() as int);
    lemma_has_ci_at_same_case(a, b, 0, "please "@);
    lemma_has_ci_at_same_case(a, b, 0, "pls "@);
    lemma_has_ci_at_same_case(a, b, 0, "plz "@);
    lemma_has_ci_at_same_case(a, b, 0, "i beg you"@);
}

/// Any of the undo words, perhaps after one of the polite prefixes, then any
/// number of `!`, in any ASCII case, asks to take the latest message back.
pub proof fn no_words_law(t: Seq<char>, p: int, w: int)
    requires
        0 <= p < 5,
        0 <= w < 3,
        undo_prefixes()[p].len() + undo_words()[w].len() <= t.len(),
        forall|i: int|
            0 <= i < undo_prefixes()[p].len() ==> ascii_lower(#[trigger] t[i]) == undo_prefixes()[p][i],
        forall|i: int|
            0 <= i < undo_words()[w].len() ==> ascii_lower(#[trigger] t[undo_prefixes()[p].len() + i])
                == undo_words()[w][i],
        forall|i: int| undo_prefixes()[p].len() + undo_words()[w].len() <= i < t.len() ==> #[trigger] t[i] == '!',
    ensures
        no_captures(t) == Some(Captures::Whole),
{
    let pre = undo_prefixes()[p];
    let word = undo_words()[w];
    let at = pre.len() as int;
    assert forall|i: int| 0 <= i < pre.len() implies ascii_lower(#[trigger] t[0 + i]) == pre[i] by {
        assert(t[0 + i] == t[i]);
    }
    lemma_has_ci_at_casing(t, 0, pre);
    lemma_has_ci_at_casing(t, at, word);
    assert(bangs_from(t, at + word.len()));
    assert(word_then_bangs(t, at));
    if p == 0 {
        assert(at == 0);
    }
}

fn bangs(t: &[char], at: usize) -> (r: bool)
    ensures
        r == bangs_from(t@, at as int),
{
    let mut i = at;
    while i < t.len()
        invariant
            at <= i,
            forall|j: int| at <= j < i && j < t.len() ==> t@[j] == '!',
        decreases t.len() - i,
    {
        if t[i] != '!' {
            assert(!(t@[i as int] == '!'));
            return false;
        }
        i += 1;
    }
    true
}

fn word_bangs(t: &[char], at: usize) -> (r: bool)
    requires
        at <= t.len(),
    ensures
        r == word_then_bangs(t@, at as int),
{
    let no = chars_of("no");
    let stop = chars_of("stop");
    let undo = chars_of("undo");
    (ci_at(t, at, &no) && bangs(t, at + no.len())) || (ci_at(t, at, &stop) && bangs(
        t,
        at + stop.len(),
    )) || (ci_at(t, at, &undo) && bangs(t, at + undo.len()))
}

fn prefixed(t: &[char], prefix: &str) -> (r: bool)
    ensures
        r == (has_ci_at(t@, 0, prefix@) && word_then_bangs(t@, prefix@.len() as int)),
{
    let p = chars_of(prefix);
    ci_at(t, 0, &p) && word_bangs(t, p.len())
}

impl No {
    pub fn captures(&self, t: &[char]) -> (r: Option<Captures>)
        ensures
            r == no_captures(t@),
    {
        if word_bangs(t, 0) || prefixed(t, "please ") || prefixed(t, "pls ") || prefixed(
            t,
            "plz ",
        ) || prefixed(t, "i beg you") {
            Some(Captures::Whole)
        } else {
            None
        }
    }
}

} // verus!
