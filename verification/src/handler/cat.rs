//! `cat`: a cat picture, from the cat API or, failing that, a second source.
use vstd::prelude::*;

use crate::handler::Captures;
use crate::text::{
    ascii_lower, chars_of, ci_eq, has_ci_at, lemma_has_ci_at_casing, lemma_has_ci_at_same_case, matches_ci,
    same_but_case,
};

verus! {

/// The cat processor: `cat`, or one of its other names.
pub struct Cat;

/// The pattern
/// `^(?i:cat|feline|best animal|literally domesticated tiger|apex predator)$`:
/// the whole command is one of these names, case ignored.
pub open spec fn cat_captures(t: Seq<char>) -> Option<Captures> {
    if matches_ci(t, "cat"@) || matches_ci(t, "feline"@) || matches_ci(t, "best animal"@)
        || matches_ci(t, "literally domesticated tiger"@) || matches_ci(t, "apex predator"@) {
        Some(Captures::Whole)
    } else {
        None
    }
}

/// The names that the cat command answers to.
pub open spec fn cat_names() -> Seq<Seq<char>> {
    seq![
        "cat"@,
        "feline"@,
        "best animal"@,
        "literally domesticated tiger"@,
        "apex predator"@,
    ]
}

proof fn lemma_matches_ci_whole(t: Seq<char>, p: Seq<char>)
    ensures
        matches_ci(t, p) == (t.len() == p.len() && has_ci_at(t, 0, p)),
{
    if t.len() == p.len() {
        assert(t.subrange(0, p.len() as int) == t);
    }
}

/// The case of ASCII letters makes no difference to whether a command asks
/// for a cat.
pub proof fn cat_case_law(a: Seq<char>, b: Seq<char>)
    requires
        same_but_case(a, b),
    ensures
        cat_captures(a) == cat_captures(b),
{
    let names = cat_names();
    assert forall|k: int| 0 <= k < 5 implies matches_ci(a, #[trigger] names[k]) == matches_ci(
        b,
        names[k],
    ) by {
        lemma_matches_ci_whole(a, names[k]);
        lemma_matches_ci_whole(b, names[k]);
        lemma_has_ci_at_same_case(a, b, 0, names[k]);
    }
    assert(matches_ci(a, names[0]) == matches_ci(b, names[0]));
    assert(matches_ci(a, names[1]) == matches_ci(b, names[1]));
    assert(matches_ci(a, names[2]) == matches_ci(b, names[2]));
    assert(matches_ci(a, names[3]) == matches_ci(b, names[3]));
    assert(matches_ci(a, names[4]) == matches_ci(b, names[4]));
}

/// Each of the cat's names, in any ASCII case, asks for a cat.
pub proof fn cat_names_law(t: Seq<char>, k: int)
    requires
        0 <= k < 5,
        t.len() == cat_names()[k].len(),
        forall|i: int| 0 <= i < t.len() ==> ascii_lower(#[trigger] t[i]) == cat_names()[k][i],
    ensures
        cat_captures(t) == Some(Captures::Whole),
{
    let name = cat_names()[k];
    assert forall|i: int| 0 <= i < name.len() implies ascii_lower(#[trigger] t[0 + i]) == name[i] by {
        assert(t[0 + i] == t[i]);
    }
    lemma_has_ci_at_casing(t, 0, name);
    lemma_matches_ci_whole(t, name);
}

/// Why a cat command failed when neither source gave a picture.
pub open spec fn no_cat_text() -> Seq<char> {
    "Could not get a cat picture"@
}

/// Where a cat picture was looked for.
#[derive(PartialEq, Eq, Structural, Clone, Copy, Debug)]
pub enum CatSource {
    /// The cat API, whose answer is redirected to a picture.
    Main,
    /// The second source, which answers with JSON naming a picture.
    Fallback,
}

/// What to do once a source has answered.
#[derive(PartialEq, Eq, Debug)]
pub enum CatStep {
    /// Send the address of the picture.
    Reply(String),
    /// Ask the second source.
    TryFallback,
    /// No picture to be had: answering the command failed, for this reason.
    Fail(String),
}

impl Cat {
    pub fn captures(&self, t: &[char]) -> (r: Option<Captures>)
        ensures
            r == cat_captures(t@),
    {
        if ci_eq(t, &chars_of("cat")) || ci_eq(t, &chars_of("feline")) || ci_eq(
            t,
            &chars_of("best animal"),
        ) || ci_eq(t, &chars_of("literally domesticated tiger")) || ci_eq(
            t,
            &chars_of("apex predator"),
        ) {
            Some(Captures::Whole)
        } else {
            None
        }
    }

    /// Where a cat picture is asked for first.
    pub fn main_api(&self) -> (r: &'static str)
        ensures
            r@ == "http://thecatapi.com/api/images/get?format=src"@,
    {
        "http://thecatapi.com/api/images/get?format=src"
    }

    /// Where a cat picture is asked for when the first source fails.
    pub fn fallback_api(&self) -> (r: &'static str)
        ensures
            r@ == "http://aws.random.cat/meow"@,
    {
        "http://aws.random.cat/meow"
    }

    /// The next step once `source` has answered with the address of a picture,
    /// or failed (`None`): a picture is sent, the first source failing leads
    /// to the second, and the second failing too ends the command as failed.
    pub fn after_fetch(&self, source: CatSource, picture: Option<String>) -> (r: CatStep)
        ensures
            match picture {
                Some(url) => r matches CatStep::Reply(s) && s@ == url@,
                None => match source {
                    CatSource::Main => r is TryFallback,
                    CatSource::Fallback => r matches CatStep::Fail(reason) && reason@ == no_cat_text(),
                },
            },
    {
        match picture {
            Some(url) => CatStep::Reply(url),
            None => match source {
                CatSource::Main => CatStep::TryFallback,
                CatSource::Fallback => CatStep::Fail(String::from_str("Could not get a cat picture")),
            },
        }
    }
}

} // verus!
