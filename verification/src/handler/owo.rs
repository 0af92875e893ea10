//! `owo`: a picture made of moons.
use vstd::prelude::*;

use crate::handler::Captures;
use crate::text::{chars_of, contains_ci, find_ci, has_ci_at, lemma_has_ci_at_same_case, same_but_case};

verus! {

/// The owo processor: any command that mentions `owo`.
pub struct OwO;

/// The pattern `(?i:owo)`: `owo` anywhere in the command, case ignored.
pub open spec fn owo_captures(t: Seq<char>) -> Option<Captures> {
    if contains_ci(t, "owo"@) {
        Some(Captures::Whole)
    } else {
        None
    }
}

/// A command that mentions `owo`, case ignored, at any position, with any
/// text before or after, asks for the picture.
pub proof fn owo_anywhere_law(a: Seq<char>, t: Seq<char>, b: Seq<char>, i: int)
    requires
        has_ci_at(t, i, "owo"@),
    ensures
        owo_captures(a + t + b) == Some(Captures::Whole),
{
    let p = "owo"@;
    let u = a + t + b;
    assert(u.subrange(a.len() + i, a.len() + i + p.len()) =~= t.subrange(i, i + p.len()));
    assert(has_ci_at(u, a.len() + i, p));
}

/// The case of ASCII letters makes no difference to whether a command asks
/// for the picture.
pub proof fn owo_case_law(a: Seq<char>, b: Seq<char>)
    requires
        same_but_case(a, b),
    ensures
        owo_captures(a) == owo_captures(b),
{
    assert forall|i: int| has_ci_at(a, i, "owo"@) == #[trigger] has_ci_at(b, i, "owo"@) by {
        lemma_has_ci_at_same_case(a, b, i, "owo"@);
    }
    if contains_ci(a, "owo"@) {
        let i = choose|i: int| #[trigger] has_ci_at(a, i, "owo"@);
        assert(has_ci_at(b, i, "owo"@));
    }
    if contains_ci(b, "owo"@) {
        let i = choose|i: int| #[trigger] has_ci_at(b, i, "owo"@);
        assert(has_ci_at(a, i, "owo"@));
    }
}

/// The picture, without surrounding whitespace.
pub open spec fn owo_text() -> Seq<char> {
    OWO@
}

/// The picture.
pub const OWO: &'static str = "🌑🌑🌑🌑🌑🌑🌑🌑🌑🌑🌑🌑🌑🌑🌑🌑🌑
🌑🌓🌕🌕🌗🌑🌔🌑🌑🌑🌖🌑🌓🌕🌕🌗🌑
🌑🌓🌘🌒🌗🌑🌓🌘🌕🌒🌗🌑🌓🌘🌒🌗🌑
🌑🌓🌘🌒🌗🌑🌑🌕🌕🌕🌑🌑🌓🌘🌒🌗🌑
🌑🌓🌕🌕🌗🌑🌑🌓🌑🌗🌑🌑🌓🌕🌕🌗🌑
🌑🌑🌑🌑🌑🌑🌑🌑🌑🌑🌑🌑🌑🌑🌑🌑🌑";

impl OwO {
    pub fn captures(&self, t: &[char]) -> (r: Option<Captures>)
        ensures
            r == owo_captures(t@),
    {
        if find_ci(t, &chars_of("owo")) {
            Some(Captures::Whole)
        } else {
            None
        }
    }

    pub fn process(&self) -> (r: String)
        ensures
            r@ == owo_text(),
    {
        String::from_str(OWO)
    }
}

} // verus!
