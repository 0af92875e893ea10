//! A Discord bot that posts cat pictures, builds pyramids of cats and posts
//! configured items, with a small web page for writing in its name.
use vstd::prelude::*;

pub mod handler;
pub mod history;
pub mod server;
pub mod text;

verus! {

/// The bot's configuration: the items of `post` by name, the bot's token, and
/// the web server, where one is wanted.
pub struct Config {
    pub post: Vec<(String, String)>,
    pub token: Option<String>,
    pub server: Option<server::Config>,
}

} // verus!
