//! `help`: what the bot can do.
use vstd::prelude::*;

use crate::handler::Captures;
use crate::text::{chars_of, contains_ci, find_ci, has_ci_at, lemma_has_ci_at_same_case, same_but_case};

verus! {

/// The help processor: any command that mentions `help`.
pub struct Help;

/// The pattern `(?i:help)`: `help` anywhere in the command, case ignored.
pub open spec fn help_captures(t: Seq<char>) -> Option<Captures> {
    if contains_ci(t, "help"@) {
        Some(Captures::Whole)
    } else {
        None
    }
}

/// A command that mentions `help`, case ignored, at any position asks for
/// help.
pub proof fn help_anywhere_law(t: Seq<char>, i: int)
    requires
        has_ci_at(t, i, "help"@),
    ensures
        help_captures(t) == Some(Captures::Whole),
{
}

/// Text before or after a command that asks for help leaves it asking for
/// help.
pub proof fn help_extend_law(a: Seq<char>, t: Seq<char>, b: Seq<char>)
    requires
        help_captures(t) is Some,
    ensures
        help_captures(a + t + b) == Some(Captures::Whole),
{
    let i = choose|i: int| #[trigger] has_ci_at(t, i, "help"@);
    let p = "help"@;
    let u = a + t + b;
    assert(u.subrange(a.len() + i, a.len() + i + p.len()) =~= t.subrange(i, i + p.len()));
    assert(has_ci_at(u, a.len() + i, p));
}

/// The case of ASCII letters makes no difference to whether a command asks
/// for help.
pub proof fn help_case_law(a: Seq<char>, b: Seq<char>)
    requires
        same_but_case(a, b),
    ensures
        help_captures(a) == help_captures(b),
{
    assert forall|i: int| has_ci_at(a, i, "help"@) == #[trigger] has_ci_at(b, i, "help"@) by {
        lemma_has_ci_at_same_case(a, b, i, "help"@);
    }
    if contains_ci(a, "help"@) {
        let i = choose|i: int| #[trigger] has_ci_at(a, i, "help"@);
        assert(has_ci_at(b, i, "help"@));
    }
    if contains_ci(b, "help"@) {
        let i = choose|i: int| #[trigger] has_ci_at(b, i, "help"@);
        assert(has_ci_at(a, i, "help"@));
    }
}

/// The help text.
pub open spec fn help_text() -> Seq<char> {
    HELP@
}

/// The help text.
pub const HELP: &'static str = "I can help you
start each command with `catbot`

Things in square brackets are optional
Things in triangle brackets are (with some limitations) whatever you want
`|` means `or`

`help`: show this message
`cat`: find a cat picture
`post <ITEM>: post something`
`[old |custom <PATTERN> ]pyramid[ <HEIGHT>]`: build a pyramid
`no`: delete latest message";

impl Help {
    pub fn captures(&self, t: &[char]) -> (r: Option<Captures>)
        ensures
            r == help_captures(t@),
    {
        if find_ci(t, &chars_of("help")) {
            Some(Captures::Whole)
        } else {
            None
        }
    }

    pub fn process(&self) -> (r: String)
        ensures
            r@ == help_text(),
    {
        String::from_str(HELP)
    }
}

} // verus!
