use memuse::channel::{channel_usage, ChannelFlavor};
use memuse::DynamicUsage;

// A block of an unbounded channel of `u64`: a next link and 31 slots of a message
// and a state word.
const LIST_BLOCK_U64: usize = 8 + 31 * (8 + 8);

#[test]
fn guess_from_capacity() {
    assert_eq!(ChannelFlavor::guess(Some(0)), ChannelFlavor::Zero);
    assert_eq!(ChannelFlavor::guess(Some(1)), ChannelFlavor::Array);
    assert_eq!(ChannelFlavor::guess(Some(64)), ChannelFlavor::Array);
    assert_eq!(ChannelFlavor::guess(None), ChannelFlavor::List);
}

#[test]
fn list_channel_allocates_whole_blocks() {
    assert_eq!(channel_usage::<u64>(None, 0), 0);
    assert_eq!(channel_usage::<u64>(None, 1), LIST_BLOCK_U64);
    assert_eq!(channel_usage::<u64>(None, 31), LIST_BLOCK_U64);
    assert_eq!(channel_usage::<u64>(None, 32), 2 * LIST_BLOCK_U64);
}

#[test]
fn bounded_channels() {
    assert_eq!(channel_usage::<u64>(Some(0), 0), 0);
    assert_eq!(channel_usage::<u64>(Some(4), 2), 4 * 16);
}

#[test]
fn receiver_counts_waiting_messages() {
    let (tx, rx) = crossbeam_channel::unbounded::<u64>();
    assert_eq!(rx.dynamic_usage(), 0);
    tx.send(7).unwrap();
    assert_eq!(rx.dynamic_usage(), LIST_BLOCK_U64);
    assert_eq!(rx.dynamic_usage_bounds(), (LIST_BLOCK_U64, Some(LIST_BLOCK_U64)));
    assert_eq!(tx.dynamic_usage(), 0);
    assert_eq!(tx.dynamic_usage_bounds(), (0, Some(0)));
}
