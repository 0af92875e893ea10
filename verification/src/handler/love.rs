//! `i love you`: the bot knows.
use vstd::prelude::*;

use crate::handler::Captures;
use crate::text::{
    ascii_lower, chars_of, ci_at, exact_at, has_at, has_ci_at, lemma_folds_same_case,
    lemma_has_ci_at_casing, lemma_has_ci_at_same_case, same_but_case, starts_with_ci,
};

verus! {

/// The love processor.
pub struct Love;

/// The pattern `^(, )?(?i:i love you)`: the command starts with `i love you`,
/// case ignored, perhaps after `, `.
pub open spec fn love_captures(t: Seq<char>) -> Option<Captures> {
    if starts_with_ci(t, "i love you"@) || (has_at(t, 0, ", "@) && has_ci_at(
        t,
        ", "@.len() as int,
        "i love you"@,
    )) {
        Some(Captures::Whole)
    } else {
        None
    }
}

/// The case of ASCII letters makes no difference to whether a command is a
/// declaration of love.
pub proof fn love_case_law(a: Seq<char>, b: Seq<char>)
    requires
        same_but_case(a, b),
    ensures
        love_captures(a) == love_captures(b),
{
    lemma_has_ci_at_same_case(a, b, 0, "i love you"@);
    lemma_has_ci_at_same_case(a, b, ", "@.len() as int, "i love you"@);
    let c = ", "@;
    reveal_strlit(", ");
    if has_at(a, 0, c) {
        assert forall|i: int| 0 <= i < c.len() implies #[trigger] b[i] == a[i] by {
            assert(a[i] == a.subrange(0, c.len() as int)[i]);
            lemma_folds_same_case(a[i], b[i], 'a');
        }
        assert(b.subrange(0, c.len() as int) =~= a.subrange(0, c.len() as int));
    }
    if has_at(b, 0, c) {
        assert forall|i: int| 0 <= i < c.len() implies #[trigger] a[i] == b[i] by {
            assert(b[i] == b.subrange(0, c.len() as int)[i]);
            lemma_folds_same_case(b[i], a[i], 'a');
        }
        assert(b.subrange(0, c.len() as int) =~= a.subrange(0, c.len() as int));
    }
}

/// A command that starts with `i love you` in any ASCII case, perhaps after
/// `, `, whatever follows, is a declaration of love.
pub proof fn love_words_law(t: Seq<char>, at: int)
    requires
        at == 0 || (at == ", "@.len() && has_at(t, 0, ", "@)),
        at + "i love you"@.len() <= t.len(),
        forall|i: int| 0 <= i < "i love you"@.len() ==> ascii_lower(#[trigger] t[at + i]) == "i love you"@[i],
    ensures
        love_captures(t) == Some(Captures::Whole),
{
    lemma_has_ci_at_casing(t, at, "i love you"@);
}

pub open spec fn love_text() -> Seq<char> {
    "I know"@
}

impl Love {
    pub fn captures(&self, t: &[char]) -> (r: Option<Captures>)
        ensures
            r == love_captures(t@),
    {
        let words = chars_of("i love you");
        let comma = chars_of(", ");
        if ci_at(t, 0, &words) || (exact_at(t, 0, &comma) && ci_at(t, comma.len(), &words)) {
            Some(Captures::Whole)
        } else {
            None
        }
    }

    pub fn process(&self) -> (r: String)
        ensures
            r@ == love_text(),
    {
        String::from_str("I know")
    }
}

} // verus!
