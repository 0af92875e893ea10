//! The messages that the bot has sent, per channel, newest last, so that `no`
//! can take back the latest one.
use std::collections::HashMap;
use vstd::prelude::*;

verus! {

broadcast use vstd::std_specs::hash::group_hash_axioms;

/// The ids of the bot's own messages, per channel id, in the order sent.
pub struct ChannelMessages {
    messages: HashMap<u64, Vec<u64>>,
}

/// The messages recorded for `channel` (none where the channel is unknown).
pub open spec fn history(m: Map<u64, Seq<u64>>, channel: u64) -> Seq<u64> {
    if m.contains_key(channel) {
        m[channel]
    } else {
        Seq::empty()
    }
}

/// The record after the bot's message `id` was sent in `channel`.
pub open spec fn recorded(m: Map<u64, Seq<u64>>, channel: u64, id: u64) -> Map<u64, Seq<u64>> {
    m.insert(channel, history(m, channel).push(id))
}

/// The latest message of `channel`, if any, and the record once it is taken
/// out. A known channel stays known, with one message less.
pub open spec fn popped(m: Map<u64, Seq<u64>>, channel: u64) -> (Option<u64>, Map<u64, Seq<u64>>) {
    if m.contains_key(channel) && m[channel].len() > 0 {
        (Some(m[channel].last()), m.insert(channel, m[channel].drop_last()))
    } else {
        (None, m)
    }
}

impl View for ChannelMessages {
    type V = Map<u64, Seq<u64>>;

    closed spec fn view(&self) -> Map<u64, Seq<u64>> {
        self.messages@.map_values(|v: Vec<u64>| v@)
    }
}

impl ChannelMessages {
    /// No messages recorded, in no channel.
    pub fn new() -> (r: Self)
        ensures
            r@ == Map::<u64, Seq<u64>>::empty(),
    {
        let r = ChannelMessages { messages: HashMap::new() };
        assert(r@ =~= Map::<u64, Seq<u64>>::empty());
        r
    }

    /// Notes that the bot sent message `id` in `channel`.
    pub fn record(&mut self, channel: u64, id: u64)
        ensures
            final(self)@ == recorded(old(self)@, channel, id),
    {
        let ghost before = self@;
        let mut list = match self.messages.remove(&channel) {
            Some(list) => list,
            None => Vec::new(),
        };
        assert(list@ == history(before, channel));
        list.push(id);
        self.messages.insert(channel, list);
        assert(self@ =~= recorded(before, channel, id));
    }

    /// Takes the latest message of `channel` out of the record, as `no` does
    /// before it deletes that message.
    pub fn pop_latest(&mut self, channel: u64) -> (r: Option<u64>)
        ensures
            (r, final(self)@) == popped(old(self)@, channel),
    {
        let ghost before = self@;
        match self.messages.remove(&channel) {
            Some(mut list) => {
                assert(list@ == before[channel]);
                let r = list.pop();
                self.messages.insert(channel, list);
                if r.is_some() {
                    assert(self@ =~= popped(before, channel).1);
                } else {
                    assert(self@ =~= before);
                }
                r
            },
            None => {
                assert(self@ =~= before);
                None
            },
        }
    }

    /// The messages recorded for `channel`, oldest first.
    pub fn messages_in(&self, channel: u64) -> (r: Vec<u64>)
        ensures
            r@ == history(self@, channel),
    {
        match self.messages.get(&channel) {
            Some(list) => list.clone(),
            None => Vec::new(),
        }
    }
}

/// Taking back the latest message right after one was sent gives that message,
/// and leaves every channel's messages as they were before it was sent.
pub proof fn record_then_pop_law(m: Map<u64, Seq<u64>>, channel: u64, id: u64)
    ensures
        popped(recorded(m, channel, id), channel).0 == Some(id),
        forall|c: u64|
            history(#[trigger] popped(recorded(m, channel, id), channel).1, c) == history(m, c),
{
    let r = recorded(m, channel, id);
    assert(r[channel].drop_last() =~= history(m, channel));
}

/// Where no message of the bot is recorded for a channel, `no` takes nothing
/// back and changes nothing.
pub proof fn pop_empty_law(m: Map<u64, Seq<u64>>, channel: u64)
    requires
        history(m, channel).len() == 0,
    ensures
        popped(m, channel) == (None::<u64>, m),
{
}

/// Sending in one channel, or taking back in one, leaves the other channels'
/// messages as they were.
pub proof fn channels_apart_law(m: Map<u64, Seq<u64>>, channel: u64, id: u64, other: u64)
    requires
        other != channel,
    ensures
        history(recorded(m, channel, id), other) == history(m, other),
        history(popped(m, channel).1, other) == history(m, other),
{
}

} // verus!
