//! `post <ITEM>`: sends what the configuration holds under that name.
use vstd::prelude::*;

use crate::handler::{Captures, Span};
use crate::text::{chars_of, exact_at, has_at, string_of, to_lowercase, unicode_lowercase};

verus! {

/// The post processor and its items, under lower-case names.
pub struct Post {
    entries: Vec<(String, String)>,
}

/// The items of `s` by name; a later pair replaces an earlier one of the same
/// name.
pub open spec fn pairs_map(s: Seq<(String, String)>) -> Map<Seq<char>, Seq<char>>
    decreases s.len(),
{
    if s.len() == 0 {
        Map::empty()
    } else {
        pairs_map(s.drop_last()).insert(s.last().0@, s.last().1@)
    }
}

/// The items of `s` under the lower-case forms of their names, a later pair
/// replacing an earlier one whose name has the same lower-case form.
pub open spec fn lowered(s: Seq<(String, String)>) -> Map<Seq<char>, Seq<char>>
    decreases s.len(),
{
    if s.len() == 0 {
        Map::empty()
    } else {
        lowered(s.drop_last()).insert(unicode_lowercase(s.last().0@), s.last().1@)
    }
}

/// The first position, from `i` on, where `p` occurs in `t`.
pub open spec fn first_occurrence_from(t: Seq<char>, p: Seq<char>, i: int) -> Option<int>
    decreases t.len() + 1 - i,
{
    if i < 0 || i + p.len() > t.len() {
        None
    } else if has_at(t, i, p) {
        Some(i)
    } else {
        first_occurrence_from(t, p, i + 1)
    }
}

/// The first line break in `t` from position `i` on, or the end of `t`.
pub open spec fn line_end_from(t: Seq<char>, i: int) -> int
    decreases t.len() - i,
{
    if i < 0 || i >= t.len() {
        t.len() as int
    } else if t[i] == '\n' {
        i
    } else {
        line_end_from(t, i + 1)
    }
}

/// The pattern `post (.*)`: the first `post ` in the command, case counting,
/// and the item after it, up to the end of that line.
pub open spec fn post_captures(t: Seq<char>) -> Option<Captures> {
    match first_occurrence_from(t, "post "@, 0) {
        Some(i) => {
            let start = i + "post "@.len();
            Some(Captures::Item(Span { start: start as usize, end: line_end_from(t, start) as usize }))
        },
        None => None,
    }
}

pub open spec fn no_item_text() -> Seq<char> {
    "I'm sorry. I don't have anything like this."@
}

/// The answer to `post <ITEM>`: the item under the lower-case form of its
/// name, or an apology where there is none.
pub open spec fn post_reply(m: Map<Seq<char>, Seq<char>>, item: Seq<char>) -> Seq<char> {
    let key = unicode_lowercase(item);
    if m.contains_key(key) {
        m[key]
    } else {
        no_item_text()
    }
}

/// Items are looked up whatever the case of their names: names with the same
/// lower-case form get the same answer.
pub proof fn post_case_law(m: Map<Seq<char>, Seq<char>>, a: Seq<char>, b: Seq<char>)
    requires
        unicode_lowercase(a) == unicode_lowercase(b),
    ensures
        post_reply(m, a) == post_reply(m, b),
{
}

/// `post <ITEM>` answers with the configured value itself: for a configured
/// pair (`n`, `v`) that no later pair of the same lower-case name replaces,
/// an item with the lower-case form of `n` gets `v`, as written.
pub proof fn post_configured_value_law(s: Seq<(String, String)>, i: int, item: Seq<char>)
    requires
        0 <= i < s.len(),
        unicode_lowercase(item) == unicode_lowercase(s[i].0@),
        forall|j: int|
            i < j < s.len() ==> unicode_lowercase((#[trigger] s[j]).0@) != unicode_lowercase(s[i].0@),
    ensures
        post_reply(lowered(s), item) == s[i].1@,
    decreases s.len(),
{
    lemma_lowered_last(s, unicode_lowercase(s[i].0@), i);
}

proof fn lemma_lowered_last(s: Seq<(String, String)>, k: Seq<char>, i: int)
    requires
        0 <= i < s.len(),
        unicode_lowercase(s[i].0@) == k,
        forall|j: int| i < j < s.len() ==> unicode_lowercase((#[trigger] s[j]).0@) != k,
    ensures
        lowered(s).contains_key(k),
        lowered(s)[k] == s[i].1@,
    decreases s.len(),
{
    if i < s.len() - 1 {
        lemma_lowered_last(s.drop_last(), k, i);
    }
}

proof fn lemma_lowered_absent(s: Seq<(String, String)>, k: Seq<char>)
    requires
        forall|j: int| 0 <= j < s.len() ==> unicode_lowercase((#[trigger] s[j]).0@) != k,
    ensures
        !lowered(s).contains_key(k),
    decreases s.len(),
{
    if s.len() > 0 {
        lemma_lowered_absent(s.drop_last(), k);
    }
}

proof fn lemma_line_end_no_break(t: Seq<char>, i: int)
    requires
        0 <= i <= t.len(),
        forall|j: int| i <= j < t.len() ==> #[trigger] t[j] != '\n',
    ensures
        line_end_from(t, i) == t.len(),
    decreases t.len() - i,
{
    if i < t.len() {
        lemma_line_end_no_break(t, i + 1);
    }
}

/// A command `post <ITEM>`, whose item holds no line break, picks out the whole
/// item.
pub proof fn post_item_law(item: Seq<char>)
    requires
        forall|j: int| 0 <= j < item.len() ==> #[trigger] item[j] != '\n',
        "post "@.len() + item.len() <= usize::MAX,
    ensures
        post_captures("post "@ + item) == Some(
            Captures::Item(Span { start: "post "@.len() as usize, end: ("post "@.len() + item.len()) as usize }),
        ),
{
    let w = "post "@;
    let t = w + item;
    assert(t.subrange(0, w.len() as int) =~= w);
    assert(first_occurrence_from(t, w, 0) == Some(0int));
    assert forall|j: int| w.len() <= j < t.len() implies #[trigger] t[j] != '\n' by {
        assert(t[j] == item[j - w.len()]);
    }
    lemma_line_end_no_break(t, w.len() as int);
}

/// An item whose lower-case form is the lower-case form of no configured name
/// gets the apology.
pub proof fn post_unknown_item_law(s: Seq<(String, String)>, item: Seq<char>)
    requires
        forall|j: int|
            0 <= j < s.len() ==> unicode_lowercase((#[trigger] s[j]).0@) != unicode_lowercase(item),
    ensures
        post_reply(lowered(s), item) == no_item_text(),
{
    lemma_lowered_absent(s, unicode_lowercase(item));
}

proof fn lemma_first_occurrence_in_range(t: Seq<char>, p: Seq<char>, i: int)
    ensures
        first_occurrence_from(t, p, i) matches Some(j) ==> i <= j && j + p.len() <= t.len(),
    decreases t.len() + 1 - i,
{
    if !(i < 0 || i + p.len() > t.len()) && !has_at(t, i, p) {
        lemma_first_occurrence_in_range(t, p, i + 1);
    }
}

proof fn lemma_line_end_in_range(t: Seq<char>, i: int)
    requires
        0 <= i <= t.len(),
    ensures
        i <= line_end_from(t, i) <= t.len(),
    decreases t.len() - i,
{
    if i < t.len() && t[i] != '\n' {
        lemma_line_end_in_range(t, i + 1);
    }
}

pub proof fn lemma_post_captures_in_range(t: Seq<char>)
    requires
        t.len() <= usize::MAX,
    ensures
        post_captures(t) matches Some(Captures::Item(s)) ==> s.start <= s.end <= t.len(),
{
    lemma_first_occurrence_in_range(t, "post "@, 0);
    if let Some(i) = first_occurrence_from(t, "post "@, 0) {
        lemma_line_end_in_range(t, i + "post "@.len());
    }
}

proof fn lemma_pairs_map_last(s: Seq<(String, String)>, k: Seq<char>, i: int)
    requires
        0 <= i < s.len(),
        s[i].0@ == k,
        forall|j: int| i < j < s.len() ==> (#[trigger] s[j]).0@ != k,
    ensures
        pairs_map(s).contains_key(k),
        pairs_map(s)[k] == s[i].1@,
    decreases s.len(),
{
    if i < s.len() - 1 {
        lemma_pairs_map_last(s.drop_last(), k, i);
    }
}

proof fn lemma_pairs_map_absent(s: Seq<(String, String)>, k: Seq<char>)
    requires
        forall|j: int| 0 <= j < s.len() ==> (#[trigger] s[j]).0@ != k,
    ensures
        !pairs_map(s).contains_key(k),
    decreases s.len(),
{
    if s.len() > 0 {
        lemma_pairs_map_absent(s.drop_last(), k);
    }
}

impl View for Post {
    type V = Map<Seq<char>, Seq<char>>;

    closed spec fn view(&self) -> Map<Seq<char>, Seq<char>> {
        pairs_map(self.entries@)
    }
}

impl Post {
    /// No items.
    pub fn new() -> (r: Self)
        ensures
            r@ == Map::<Seq<char>, Seq<char>>::empty(),
    {
        Post { entries: Vec::new() }
    }

    /// Holds `value` under `name`, in place of what was there.
    pub fn insert(&mut self, name: String, value: String)
        ensures
            final(self)@ == old(self)@.insert(name@, value@),
    {
        let ghost before = self.entries@;
        self.entries.push((name, value));
        assert(self.entries@.drop_last() == before);
    }

    /// The item under `name`.
    pub fn get(&self, name: &str) -> (r: Option<String>)
        ensures
            match r {
                Some(v) => self@.contains_key(name@) && self@[name@] == v@,
                None => !self@.contains_key(name@),
            },
    {
        let key = String::from_str(name);
        let mut i = self.entries.len();
        while i > 0
            invariant
                i <= self.entries.len(),
                key@ == name@,
                forall|j: int| i <= j < self.entries@.len() ==> (#[trigger] self.entries@[j]).0@
                    != name@,
            decreases i,
        {
            i -= 1;
            if self.entries[i].0 == key {
                proof {
                    lemma_pairs_map_last(self.entries@, name@, i as int);
                }
                return Some(self.entries[i].1.clone());
            }
        }
        proof {
            lemma_pairs_map_absent(self.entries@, name@);
        }
        None
    }

    /// The items of the configuration, under the lower-case forms of their
    /// names.
    pub fn from_entries(entries: &Vec<(String, String)>) -> (r: Self)
        ensures
            r@ == lowered(entries@),
    {
        let mut p = Post::new();
        let mut i: usize = 0;
        while i < entries.len()
            invariant
                i <= entries.len(),
                p@ == lowered(entries@.take(i as int)),
            decreases entries.len() - i,
        {
            let name = to_lowercase(entries[i].0.as_str());
            p.insert(name, entries[i].1.clone());
            assert(entries@.take(i + 1).drop_last() == entries@.take(i as int));
            i += 1;
        }
        assert(entries@.take(entries.len() as int) == entries@);
        p
    }

    pub fn captures(&self, t: &[char]) -> (r: Option<Captures>)
        ensures
            r == post_captures(t@),
    {
        proof {
            lemma_first_occurrence_in_range(t@, "post "@, 0);
        }
        let word = chars_of("post ");
        let mut i: usize = 0;
        while i < t.len() && !exact_at(t, i, &word)
            invariant
                i <= t.len(),
                first_occurrence_from(t@, word@, 0) == first_occurrence_from(t@, word@, i as int),
            decreases t.len() - i,
        {
            i += 1;
        }
        if !exact_at(t, i, &word) {
            assert(first_occurrence_from(t@, word@, i + 1) is None);
            assert(first_occurrence_from(t@, word@, i as int) is None);
            return None;
        }
        let start = i + word.len();
        let mut end = start;
        while end < t.len() && t[end] != '\n'
            invariant
                start <= end <= t.len(),
                line_end_from(t@, start as int) == line_end_from(t@, end as int),
            decreases t.len() - end,
        {
            end += 1;
        }
        Some(Captures::Item(Span { start, end }))
    }

    /// Answers `post <ITEM>`.
    pub fn process(&self, item: &[char]) -> (r: String)
        ensures
            r@ == post_reply(self@, item@),
    {
        let name = string_of(item);
        let key = to_lowercase(name.as_str());
        match self.get(key.as_str()) {
            Some(v) => v,
            None => String::from_str("I'm sorry. I don't have anything like this."),
        }
    }
}

} // verus!
