//! The web pages for writing in the bot's name: the bot's guilds, the text
//! channels of a guild, and a form per channel.
use vstd::prelude::*;

use crate::text::{decimal, digit_char, digit_value, is_ascii_digit, push_decimal};

verus! {

/// Where the web server listens.
pub struct Config {
    pub address: [u8; 4],
    pub port: u16,
}

/// A guild that the bot is in.
pub struct Guild {
    pub id: u64,
    pub name: String,
}

/// A channel of a guild; only text channels can be written in.
pub struct GuildChannel {
    pub id: u64,
    pub name: String,
    pub is_text: bool,
}

/// An HTML page with the given title and body.
pub open spec fn page(title: Seq<char>, body: Seq<char>) -> Seq<char> {
    "\n<!doctype html>\n<html>\n<head>\n<title>"@ + title + "</title>\n</head>\n<body>\n"@ + body
        + "\n</body>\n"@
}

/// Builds an HTML page with the given title and body.
pub fn template(title: &str, body: &str) -> (r: String)
    ensures
        r@ == page(title@, body@),
{
    let mut s = String::from_str("\n<!doctype html>\n<html>\n<head>\n<title>");
    s.append(title);
    s.append("</title>\n</head>\n<body>\n");
    s.append(body);
    s.append("\n</body>\n");
    s
}

/// A link in a list.
pub open spec fn list_link(path: Seq<char>, id: u64, name: Seq<char>) -> Seq<char> {
    "<li><a href=\""@ + path + decimal(id as nat) + "\">"@ + name + "</a></li>"@
}

/// Links to the pages of the guilds.
pub open spec fn guild_links(gs: Seq<Guild>) -> Seq<char>
    decreases gs.len(),
{
    if gs.len() == 0 {
        Seq::empty()
    } else {
        guild_links(gs.drop_last()) + list_link("/guilds/"@, gs.last().id, gs.last().name@)
    }
}

/// Links to the pages of the text channels; other channels are left out.
pub open spec fn channel_links(cs: Seq<GuildChannel>) -> Seq<char>
    decreases cs.len(),
{
    if cs.len() == 0 {
        Seq::empty()
    } else if cs.last().is_text {
        channel_links(cs.drop_last()) + list_link("/channel/"@, cs.last().id, cs.last().name@)
    } else {
        channel_links(cs.drop_last())
    }
}

pub open spec fn guilds_html(gs: Seq<Guild>) -> Seq<char> {
    page("guilds"@, "<h1>Guilds</h1><ul>"@ + guild_links(gs) + "</ul>"@)
}

pub open spec fn channels_html(cs: Seq<GuildChannel>) -> Seq<char> {
    page("channels"@, "<h1>Channels</h1><ul>"@ + channel_links(cs) + "</ul>"@)
}

/// The form for writing in channel `id`.
pub open spec fn message_form(id: u64) -> Seq<char> {
    "\n<form action=\"/channel/"@ + decimal(id as nat)
        + "\" method=\"POST\">\n<textarea name=\"message\"></textarea>\n<br />\n<input type=\"submit\" value=\"send\">\n</form>\n"@
}

/// The number that a run of ASCII digits stands for.
pub open spec fn digits_value(d: Seq<char>) -> nat
    decreases d.len(),
{
    if d.len() == 0 {
        0
    } else {
        digits_value(d.drop_last()) * 10 + digit_value(d.last())
    }
}

/// The digits of `decimal(n)` stand for `n`.
pub proof fn decimal_value_law(n: nat)
    ensures
        decimal(n).len() > 0,
        forall|i: int| 0 <= i < decimal(n).len() ==> is_ascii_digit(#[trigger] decimal(n)[i]),
        digits_value(decimal(n)) == n,
    decreases n,
{
    let c = digit_char(n % 10);
    assert(c as u32 == 48 + n % 10);
    assert(digit_value(c) == n % 10);
    assert(decimal(n).last() == c);
    if n >= 10 {
        decimal_value_law(n / 10);
        assert(decimal(n).drop_last() == decimal(n / 10));
        assert forall|i: int| 0 <= i < decimal(n).len() implies is_ascii_digit(#[trigger] decimal(n)[i]) by {
            if i < decimal(n).len() - 1 {
                assert(decimal(n)[i] == decimal(n / 10)[i]);
            }
        }
        assert(digits_value(decimal(n)) == digits_value(decimal(n / 10)) * 10 + n % 10);
        assert((n / 10) * 10 + n % 10 == n);
    } else {
        assert(decimal(n).drop_last() =~= Seq::<char>::empty());
        assert(digits_value(decimal(n).drop_last()) == 0);
    }
}

/// A link of a list whose address ends in the digits `d`.
pub open spec fn link_with_digits(path: Seq<char>, d: Seq<char>, name: Seq<char>) -> Seq<char> {
    "<li><a href=\""@ + path + d + "\">"@ + name + "</a></li>"@
}

/// Each text channel gets a link, after those of the channels before it,
/// whose address ends in digits that stand for the channel's own id and whose
/// text is its name; other channels get none.
pub proof fn channel_link_law(cs: Seq<GuildChannel>, c: GuildChannel)
    ensures
        c.is_text ==> exists|d: Seq<char>|
            #![trigger link_with_digits("/channel/"@, d, c.name@)]
            d.len() > 0 && (forall|i: int| 0 <= i < d.len() ==> is_ascii_digit(#[trigger] d[i]))
                && digits_value(d) == c.id && channel_links(cs.push(c)) == channel_links(cs)
                + link_with_digits("/channel/"@, d, c.name@),
        !c.is_text ==> channel_links(cs.push(c)) == channel_links(cs),
{
    assert(cs.push(c).drop_last() == cs);
    decimal_value_law(c.id as nat);
    let d = decimal(c.id as nat);
    assert(list_link("/channel/"@, c.id, c.name@) == link_with_digits("/channel/"@, d, c.name@));
}

/// Each guild gets a link, after those of the guilds before it, whose address
/// ends in digits that stand for the guild's own id and whose text is its name.
pub proof fn guild_link_law(gs: Seq<Guild>, g: Guild)
    ensures
        exists|d: Seq<char>|
            #![trigger link_with_digits("/guilds/"@, d, g.name@)]
            d.len() > 0 && (forall|i: int| 0 <= i < d.len() ==> is_ascii_digit(#[trigger] d[i]))
                && digits_value(d) == g.id && guild_links(gs.push(g)) == guild_links(gs)
                + link_with_digits("/guilds/"@, d, g.name@),
{
    assert(gs.push(g).drop_last() == gs);
    decimal_value_law(g.id as nat);
    let d = decimal(g.id as nat);
    assert(list_link("/guilds/"@, g.id, g.name@) == link_with_digits("/guilds/"@, d, g.name@));
}

fn push_link(s: &mut String, path: &str, id: u64, name: &str)
    ensures
        final(s)@ == old(s)@ + list_link(path@, id, name@),
{
    s.append("<li><a href=\"");
    s.append(path);
    push_decimal(s, id);
    s.append("\">");
    s.append(name);
    s.append("</a></li>");
}

/// The page listing the bot's guilds.
pub fn guilds_page(guilds: &[Guild]) -> (r: String)
    ensures
        r@ == guilds_html(guilds@),
{
    let mut links = String::new();
    let mut i: usize = 0;
    while i < guilds.len()
        invariant
            i <= guilds.len(),
            links@ == guild_links(guilds@.take(i as int)),
        decreases guilds.len() - i,
    {
        push_link(&mut links, "/guilds/", guilds[i].id, guilds[i].name.as_str());
        assert(guilds@.take(i + 1).drop_last() == guilds@.take(i as int));
        i += 1;
    }
    assert(guilds@.take(guilds.len() as int) == guilds@);
    let mut body = String::from_str("<h1>Guilds</h1><ul>");
    body.append(links.as_str());
    body.append("</ul>");
    template("guilds", body.as_str())
}

/// The page listing the text channels of a guild.
pub fn guild_page(channels: &[GuildChannel]) -> (r: String)
    ensures
        r@ == channels_html(channels@),
{
    let mut links = String::new();
    let mut i: usize = 0;
    while i < channels.len()
        invariant
            i <= channels.len(),
            links@ == channel_links(channels@.take(i as int)),
        decreases channels.len() - i,
    {
        if channels[i].is_text {
            push_link(&mut links, "/channel/", channels[i].id, channels[i].name.as_str());
        }
        assert(channels@.take(i + 1).drop_last() == channels@.take(i as int));
        i += 1;
    }
    assert(channels@.take(channels.len() as int) == channels@);
    let mut body = String::from_str("<h1>Channels</h1><ul>");
    body.append(links.as_str());
    body.append("</ul>");
    template("channels", body.as_str())
}

/// The page of channel `id`, named `name`: a form for a message.
pub fn channel_page(id: u64, name: &str) -> (r: String)
    ensures
        r@ == page(name@, message_form(id)),
{
    let mut form = String::from_str("\n<form action=\"/channel/");
    push_decimal(&mut form, id);
    form.append(
        "\" method=\"POST\">\n<textarea name=\"message\"></textarea>\n<br />\n<input type=\"submit\" value=\"send\">\n</form>\n",
    );
    template(name, form.as_str())
}

/// Where the browser goes once a message was sent in channel `id`: back to
/// that channel's page.
pub fn channel_location(id: u64) -> (r: String)
    ensures
        r@ == "/channel/"@ + decimal(id as nat),
{
    let mut s = String::from_str("/channel/");
    push_decimal(&mut s, id);
    s
}

/// Where the browser goes from the root: the list of guilds.
pub fn root_location() -> (r: &'static str)
    ensures
        r@ == "/guilds"@,
{
    "/guilds"
}

} // verus!
