//! The bot's commands and how a message is answered.
//!
//! A message is a command when it starts with the command prefix; what
//! follows, without leading whitespace, goes to the processors in turn, and
//! the first one whose pattern it fits answers it.
use vstd::prelude::*;

use crate::text::{chars_of, is_whitespace, skip_whitespace, trim_start};
use crate::Config;

pub mod cat;
pub mod colon3;
pub mod help;
pub mod love;
pub mod no;
pub mod owo;
pub mod post;

use cat::{cat_captures, Cat};
use colon3::{cat_unit, old_unit, pyramid_captures, pyramid_reply, size_error_message, Colon3, Style};
use help::{help_captures, help_text, Help};
use love::{love_captures, love_text, Love};
use no::{no_captures, No};
use owo::{owo_captures, owo_text, OwO};
use post::{lowered, post_captures, post_reply, Post};

verus! {

/// Characters `start` up to `end` of a command.
#[derive(PartialEq, Eq, Structural, Clone, Copy, Debug)]
pub struct Span {
    pub start: usize,
    pub end: usize,
}

/// What a processor's pattern picked out of a command.
#[derive(PartialEq, Eq, Structural, Clone, Copy, Debug)]
pub enum Captures {
    /// `[old |custom <PATTERN> ]pyramid[ <HEIGHT>]`
    Pyramid { style: Style, height: Option<Span> },
    /// `post <ITEM>`
    Item(Span),
    /// A pattern without groups.
    Whole,
}

/// How the bot answers a command.
#[derive(PartialEq, Eq, Debug)]
pub enum Response {
    /// Send this text; once sent, it is recorded as the bot's latest message
    /// of the channel.
    Reply(String),
    /// Send this text (a refused request), without recording it.
    Apology(String),
    /// Take the bot's latest message of the channel back.
    DeleteLatest,
    /// Look for a cat picture.
    FetchCat,
}

/// The mathematical content of a `Response`.
pub enum ResponseView {
    Reply(Seq<char>),
    Apology(Seq<char>),
    DeleteLatest,
    FetchCat,
}

impl View for Response {
    type V = ResponseView;

    open spec fn view(&self) -> ResponseView {
        match self {
            Response::Reply(s) => ResponseView::Reply(s@),
            Response::Apology(s) => ResponseView::Apology(s@),
            Response::DeleteLatest => ResponseView::DeleteLatest,
            Response::FetchCat => ResponseView::FetchCat,
        }
    }
}

/// One of the bot's commands.
pub enum Processor {
    Colon3(Colon3),
    Cat(Cat),
    No(No),
    Help(Help),
    Love(Love),
    Post(Post),
    OwO(OwO),
}

/// A processor as far as its answers go; `post` answers from its map.
pub enum ProcessorView {
    Colon3,
    Cat,
    No,
    Help,
    Love,
    Post(Map<Seq<char>, Seq<char>>),
    OwO,
}

impl View for Processor {
    type V = ProcessorView;

    open spec fn view(&self) -> ProcessorView {
        match self {
            Processor::Colon3(_) => ProcessorView::Colon3,
            Processor::Cat(_) => ProcessorView::Cat,
            Processor::No(_) => ProcessorView::No,
            Processor::Help(_) => ProcessorView::Help,
            Processor::Love(_) => ProcessorView::Love,
            Processor::Post(p) => ProcessorView::Post(p@),
            Processor::OwO(_) => ProcessorView::OwO,
        }
    }
}

/// What the pattern of processor `p` picks out of command `t`, if `t` fits it.
pub open spec fn captures_of(p: ProcessorView, t: Seq<char>) -> Option<Captures> {
    match p {
        ProcessorView::Colon3 => pyramid_captures(t),
        ProcessorView::Cat => cat_captures(t),
        ProcessorView::No => no_captures(t),
        ProcessorView::Help => help_captures(t),
        ProcessorView::Love => love_captures(t),
        ProcessorView::Post(_) => post_captures(t),
        ProcessorView::OwO => owo_captures(t),
    }
}

pub open spec fn span_of(t: Seq<char>, s: Span) -> Seq<char> {
    t.subrange(s.start as int, s.end as int)
}

pub open spec fn span_text(t: Seq<char>, s: Option<Span>) -> Option<Seq<char>> {
    match s {
        Some(s) => Some(span_of(t, s)),
        None => None,
    }
}

/// What a pyramid of `style` in command `t` is built of.
pub open spec fn style_unit(t: Seq<char>, style: Style) -> Seq<char> {
    match style {
        Style::Cats => cat_unit(),
        Style::Old => old_unit(),
        Style::Custom(s) => span_of(t, s),
    }
}

/// The text of a refused request, addressed to `author`.
pub open spec fn apology(author: Seq<char>, reason: Seq<char>) -> Seq<char> {
    "I'm sorry "@ + author + ", I'm afraid I can't do that ("@ + reason + ")"@
}

/// The text sent when answering a command failed in another way.
pub open spec fn internal_error_text() -> Seq<char> {
    "Internal error. What have you done?"@
}

/// How processor `p` answers command `t`, whose captures are `c`, from `author`.
pub open spec fn response_of(p: ProcessorView, t: Seq<char>, c: Captures, author: Seq<char>) -> ResponseView {
    match p {
        ProcessorView::Colon3 => {
            let (style, height) = match c {
                Captures::Pyramid { style, height } => (style, height),
                _ => (Style::Cats, None),
            };
            match pyramid_reply(style_unit(t, style), span_text(t, height)) {
                Ok(text) => ResponseView::Reply(text),
                Err(e) => ResponseView::Apology(apology(author, size_error_message(e))),
            }
        },
        ProcessorView::Cat => ResponseView::FetchCat,
        ProcessorView::No => ResponseView::DeleteLatest,
        ProcessorView::Help => ResponseView::Reply(help_text()),
        ProcessorView::Love => ResponseView::Reply(love_text()),
        ProcessorView::Post(m) => {
            let item = match c {
                Captures::Item(s) => span_of(t, s),
                _ => t,
            };
            ResponseView::Reply(post_reply(m, item))
        },
        ProcessorView::OwO => ResponseView::Reply(owo_text()),
    }
}

/// What the bot sends once it has tried to carry out an answer, `done`
/// telling whether that worked (the text was sent; nothing was to be taken
/// back or it was deleted; a cat picture was sent): nothing after an apology,
/// whatever came of it, and after any other answer that failed, the internal
/// error text.
pub open spec fn failure_notice_of(r: ResponseView, done: bool) -> Option<Seq<char>> {
    match r {
        ResponseView::Apology(_) => None,
        _ => if done {
            None
        } else {
            Some(internal_error_text())
        },
    }
}

impl Response {
    /// What to send once this answer has been tried, `done` telling whether it
    /// worked.
    pub fn failure_notice(&self, done: bool) -> (r: Option<String>)
        ensures
            match failure_notice_of(self@, done) {
                Some(t) => r is Some && r->0@ == t,
                None => r is None,
            },
    {
        match self {
            Response::Apology(_) => None,
            _ => if done {
                None
            } else {
                Some(internal_error_message())
            },
        }
    }
}

/// The apology for a refused request, addressed to `author`.
pub fn apology_message(author: &str, reason: &str) -> (r: String)
    ensures
        r@ == apology(author@, reason@),
{
    let mut s = String::from_str("I'm sorry ");
    s.append(author);
    s.append(", I'm afraid I can't do that (");
    s.append(reason);
    s.append(")");
    s
}

/// The reply when answering a command failed otherwise (a message that could
/// not be sent or deleted, no cat picture to be had).
pub fn internal_error_message() -> (r: String)
    ensures
        r@ == internal_error_text(),
{
    String::from_str("Internal error. What have you done?")
}

impl Processor {
    /// Matches command `t` against this processor's pattern.
    pub fn captures(&self, t: &[char]) -> (r: Option<Captures>)
        ensures
            r == captures_of(self@, t@),
    {
        match self {
            Processor::Colon3(p) => p.captures(t),
            Processor::Cat(p) => p.captures(t),
            Processor::No(p) => p.captures(t),
            Processor::Help(p) => p.captures(t),
            Processor::Love(p) => p.captures(t),
            Processor::Post(p) => p.captures(t),
            Processor::OwO(p) => p.captures(t),
        }
    }

    /// Answers command `t`, which fits this processor's pattern with captures
    /// `c`, from `author`.
    pub fn process(&self, t: &[char], c: Captures, author: &str) -> (r: Response)
        requires
            captures_of(self@, t@) == Some(c),
        ensures
            r@ == response_of(self@, t@, c, author@),
    {
        match self {
            Processor::Colon3(p) => {
                let (style, height) = match c {
                    Captures::Pyramid { style, height } => (style, height),
                    _ => (Style::Cats, None),
                };
                proof {
                    assert(t@.len() == t.len());
                    colon3::lemma_pyramid_captures_in_range(t@);
                }
                let digits = match height {
                    Some(s) => Some(slice_span(t, s)),
                    None => None,
                };
                assert(colon3::chars_view(digits) == span_text(t@, height));
                let unit = match style {
                    Style::Cats => chars_of("🐱"),
                    Style::Old => chars_of(":3  "),
                    Style::Custom(s) => slice_span(t, s),
                };
                assert(unit@ == style_unit(t@, style));
                match p.process(&unit, &digits) {
                    Ok(text) => Response::Reply(text),
                    Err(e) => {
                        let reason = e.message();
                        Response::Apology(apology_message(author, reason.as_str()))
                    },
                }
            },
            Processor::Cat(_) => Response::FetchCat,
            Processor::No(_) => Response::DeleteLatest,
            Processor::Help(p) => Response::Reply(p.process()),
            Processor::Love(p) => Response::Reply(p.process()),
            Processor::Post(p) => {
                proof {
                    assert(t@.len() == t.len());
                    post::lemma_post_captures_in_range(t@);
                }
                let item = match c {
                    Captures::Item(s) => slice_span(t, s),
                    _ => slice_span(t, Span { start: 0, end: t.len() }),
                };
                Response::Reply(p.process(&item))
            },
            Processor::OwO(p) => Response::Reply(p.process()),
        }
    }
}

/// The characters of `t` that `s` spans.
pub fn slice_span(t: &[char], s: Span) -> (r: Vec<char>)
    requires
        s.start <= s.end <= t.len(),
    ensures
        r@ == span_of(t@, s),
{
    let mut r: Vec<char> = Vec::new();
    let mut i = s.start;
    while i < s.end
        invariant
            s.start <= i <= s.end <= t.len(),
            r@ == t@.subrange(s.start as int, i as int),
        decreases s.end - i,
    {
        r.push(t[i]);
        i += 1;
    }
    r
}

// ---------------------------------------------------------------------------
// The handler
// ---------------------------------------------------------------------------

/// The prefix that commands start with.
pub fn release_prefix() -> (r: &'static str)
    ensures
        r@ == "catbot"@,
{
    "catbot"
}

/// The prefix that commands start with for a development build of the bot.
pub fn debug_prefix() -> (r: &'static str)
    ensures
        r@ == "cbd"@,
{
    "cbd"
}

/// The command in `content`: what follows `prefix`, without leading whitespace.
pub open spec fn command_text(content: Seq<char>, prefix: Seq<char>) -> Option<Seq<char>> {
    if prefix.len() <= content.len() && content.take(prefix.len() as int) == prefix {
        Some(trim_start(content.skip(prefix.len() as int)))
    } else {
        None
    }
}

/// Where the command of `v` starts, if `v` starts with `prefix`.
pub fn skip_prefix(v: &[char], prefix: &[char]) -> (r: Option<usize>)
    ensures
        match command_text(v@, prefix@) {
            Some(t) => r is Some && r->0 <= v.len() && v@.skip(r->0 as int) == t,
            None => r is None,
        },
{
    if prefix.len() > v.len() {
        return None;
    }
    let mut i: usize = 0;
    while i < prefix.len()
        invariant
            prefix.len() <= v.len(),
            i <= prefix.len(),
            forall|j: int| 0 <= j < i ==> v@[j] == prefix@[j],
        decreases prefix.len() - i,
    {
        if v[i] != prefix[i] {
            assert(v@.take(prefix.len() as int)[i as int] != prefix@[i as int]);
            return None;
        }
        i += 1;
    }
    assert(v@.take(prefix.len() as int) =~= prefix@);
    Some(skip_whitespace(v, prefix.len()))
}

/// The first processor, from position `i` on, whose pattern command `t` fits,
/// with what the pattern picked out.
pub open spec fn first_match_from(ps: Seq<ProcessorView>, t: Seq<char>, i: int) -> Option<(int, Captures)>
    decreases ps.len() - i,
{
    if i < 0 || i >= ps.len() {
        None
    } else {
        match captures_of(ps[i], t) {
            Some(c) => Some((i, c)),
            None => first_match_from(ps, t, i + 1),
        }
    }
}

pub open spec fn first_match(ps: Seq<ProcessorView>, t: Seq<char>) -> Option<(int, Captures)> {
    first_match_from(ps, t, 0)
}

/// How the bot answers a message with text `content` from `author`: nothing
/// where it is no command or fits no processor, else the answer of the first
/// processor whose pattern it fits.
pub open spec fn answer(ps: Seq<ProcessorView>, prefix: Seq<char>, content: Seq<char>, author: Seq<char>) -> Option<ResponseView> {
    match command_text(content, prefix) {
        None => None,
        Some(t) => match first_match(ps, t) {
            None => None,
            Some((i, c)) => Some(response_of(ps[i], t, c, author)),
        },
    }
}

/// The processor that answers a command is the first whose pattern the
/// command fits: none before it fits, and it fits with the captures found.
pub proof fn first_match_law(ps: Seq<ProcessorView>, t: Seq<char>)
    ensures
        match first_match(ps, t) {
            Some((i, c)) => 0 <= i < ps.len() && captures_of(ps[i], t) == Some(c) && forall|j: int|
                0 <= j < i ==> captures_of(#[trigger] ps[j], t) is None,
            None => forall|j: int| 0 <= j < ps.len() ==> captures_of(#[trigger] ps[j], t) is None,
        },
{
    lemma_first_match_from(ps, t, 0);
}

proof fn lemma_first_match_from(ps: Seq<ProcessorView>, t: Seq<char>, k: int)
    requires
        0 <= k,
    ensures
        match first_match_from(ps, t, k) {
            Some((i, c)) => k <= i < ps.len() && captures_of(ps[i], t) == Some(c) && forall|j: int|
                k <= j < i ==> captures_of(#[trigger] ps[j], t) is None,
            None => forall|j: int| k <= j < ps.len() ==> captures_of(#[trigger] ps[j], t) is None,
        },
    decreases ps.len() - k,
{
    if k < ps.len() && captures_of(ps[k], t) is None {
        lemma_first_match_from(ps, t, k + 1);
    }
}

/// A message that does not start with the prefix is no command: the bot does
/// not answer it.
pub proof fn no_prefix_no_answer_law(ps: Seq<ProcessorView>, prefix: Seq<char>, content: Seq<char>, author: Seq<char>)
    requires
        !(prefix.len() <= content.len() && content.take(prefix.len() as int) == prefix),
    ensures
        answer(ps, prefix, content, author) is None,
{
}

/// Whitespace between the prefix and the command makes no difference to the
/// answer.
pub proof fn prefix_whitespace_law(ps: Seq<ProcessorView>, prefix: Seq<char>, ws: Seq<char>, command: Seq<char>, author: Seq<char>)
    requires
        forall|i: int| 0 <= i < ws.len() ==> is_whitespace(#[trigger] ws[i]),
    ensures
        answer(ps, prefix, prefix + ws + command, author) == answer(ps, prefix, prefix + trim_start(command), author),
{
    let a = prefix + ws + command;
    let b = prefix + trim_start(command);
    assert(a.take(prefix.len() as int) == prefix);
    assert(b.take(prefix.len() as int) == prefix);
    assert(a.skip(prefix.len() as int) == ws + command);
    assert(b.skip(prefix.len() as int) == trim_start(command));
    lemma_trim_ws_prefix(ws, command);
    lemma_trim_idempotent(command);
}

proof fn lemma_trim_ws_prefix(ws: Seq<char>, s: Seq<char>)
    requires
        forall|i: int| 0 <= i < ws.len() ==> is_whitespace(#[trigger] ws[i]),
    ensures
        trim_start(ws + s) == trim_start(s),
    decreases ws.len(),
{
    if ws.len() > 0 {
        assert((ws + s)[0] == ws[0]);
        assert((ws + s).drop_first() == ws.drop_first() + s);
        lemma_trim_ws_prefix(ws.drop_first(), s);
    } else {
        assert(ws + s == s);
    }
}

proof fn lemma_trim_idempotent(s: Seq<char>)
    ensures
        trim_start(trim_start(s)) == trim_start(s),
    decreases s.len(),
{
    if s.len() > 0 && is_whitespace(s[0]) {
        lemma_trim_idempotent(s.drop_first());
    }
}

/// Answers the bot's messages: its processors in order, and the prefix that
/// commands start with.
pub struct CatBotHandler {
    processors: Vec<Processor>,
    prefix: Vec<char>,
}

impl CatBotHandler {
    pub closed spec fn processors(&self) -> Seq<ProcessorView> {
        self.processors@.map_values(|p: Processor| p@)
    }

    pub closed spec fn prefix(&self) -> Seq<char> {
        self.prefix@
    }

    /// The handler with the bot's processors: `pyramid`, `cat`, `no`, `help`,
    /// `i love you` and `post`, the last answering from the configured items
    /// under their lower-case names. Commands start with `catbot`.
    pub fn new(config: &Config) -> (r: Self)
        ensures
            r.processors() == seq![
                ProcessorView::Colon3,
                ProcessorView::Cat,
                ProcessorView::No,
                ProcessorView::Help,
                ProcessorView::Love,
                ProcessorView::Post(lowered(config.post@)),
            ],
            r.prefix() == "catbot"@,
    {
        let h = CatBotHandler { processors: Vec::new(), prefix: chars_of(release_prefix()) };
        let h = h.with_processor(Processor::Colon3(Colon3));
        let h = h.with_processor(Processor::Cat(Cat));
        let h = h.with_processor(Processor::No(No));
        let h = h.with_processor(Processor::Help(Help));
        let h = h.with_processor(Processor::Love(Love));
        let h = h.with_processor(Processor::Post(Post::from_entries(&config.post)));
        assert(h.processors() =~= seq![
            ProcessorView::Colon3,
            ProcessorView::Cat,
            ProcessorView::No,
            ProcessorView::Help,
            ProcessorView::Love,
            ProcessorView::Post(lowered(config.post@)),
        ]);
        h
    }

    /// Adds a processor after the present ones.
    pub fn with_processor(self, cmd: Processor) -> (r: Self)
        ensures
            r.processors() == self.processors().push(cmd@),
            r.prefix() == self.prefix(),
    {
        let mut s = self;
        s.processors.push(cmd);
        assert(s.processors() =~= self.processors().push(cmd@));
        s
    }

    /// The same handler, with commands starting with `prefix`.
    pub fn with_prefix(self, prefix: &str) -> (r: Self)
        ensures
            r.processors() == self.processors(),
            r.prefix() == prefix@,
    {
        let mut s = self;
        s.prefix = chars_of(prefix);
        s
    }

    /// Answers a message with text `content` from `author`.
    pub fn process_msg(&self, content: &str, author: &str) -> (r: Option<Response>)
        ensures
            match answer(self.processors(), self.prefix(), content@, author@) {
                None => r is None,
                Some(a) => r is Some && r->0@ == a,
            },
    {
        let v = chars_of(content);
        let start = match skip_prefix(&v, &self.prefix) {
            Some(start) => start,
            None => return None,
        };
        let t = slice_span(&v, Span { start, end: v.len() });
        assert(t@ == v@.skip(start as int));
        assert(command_text(content@, self.prefix()) == Some(t@));
        let ghost ps = self.processors();
        let mut i: usize = 0;
        while i < self.processors.len()
            invariant
                i <= self.processors.len(),
                ps == self.processors(),
                ps.len() == self.processors.len(),
                first_match(ps, t@) == first_match_from(ps, t@, i as int),
                command_text(content@, self.prefix()) == Some(t@),
            decreases self.processors.len() - i,
        {
            let p = &self.processors[i];
            assert(p@ == ps[i as int]);
            match p.captures(&t) {
                Some(c) => {
                    assert(first_match_from(ps, t@, i as int) == Some((i as int, c)));
                    let r = p.process(&t, c, author);
                    assert(answer(ps, self.prefix(), content@, author@) == Some(
                        response_of(ps[i as int], t@, c, author@),
                    ));
                    return Some(r);
                },
                None => {},
            }
            i += 1;
        }
        None
    }
}

} // verus!
