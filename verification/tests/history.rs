//! The record of the bot's own messages.
use catbot::history::ChannelMessages;

#[test]
fn record_then_pop_gives_it_back() {
    let mut m = ChannelMessages::new();
    m.record(7, 100);
    m.record(7, 101);
    m.record(8, 200);
    assert_eq!(m.messages_in(7), vec![100, 101]);
    assert_eq!(m.pop_latest(7), Some(101));
    assert_eq!(m.messages_in(7), vec![100]);
    assert_eq!(m.messages_in(8), vec![200]);
}

#[test]
fn pop_on_empty_channel() {
    let mut m = ChannelMessages::new();
    assert_eq!(m.pop_latest(3), None);
    m.record(3, 1);
    assert_eq!(m.pop_latest(3), Some(1));
    assert_eq!(m.pop_latest(3), None);
    assert_eq!(m.messages_in(3), Vec::<u64>::new());
}

#[test]
fn channels_kept_apart() {
    let mut m = ChannelMessages::new();
    m.record(1, 10);
    m.record(2, 20);
    assert_eq!(m.pop_latest(2), Some(20));
    assert_eq!(m.messages_in(1), vec![10]);
    assert_eq!(m.messages_in(2), Vec::<u64>::new());
}
