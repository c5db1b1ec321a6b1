//! Estimates for the channels of `crossbeam_channel`.
//!
//! Messages waiting in a channel are counted on the receiving side; a sender owns
//! nothing of its own. Which kind of channel a receiver reads from is not visible,
//! so it is guessed from the channel's capacity.
//!
//! A list channel is charged whole blocks of 31 messages. A channel guessed to be an
//! array is charged its slot buffer; an at or a tick channel reports capacity 1 and
//! has no buffer, so it is charged one slot it does not own. A zero-capacity or never
//! channel is charged nothing.
use vstd::prelude::*;

verus! {

use crossbeam_channel::{Receiver, Sender};
use crate::DynamicUsage;
use crate::sum::{lemma_saturate_add_both, saturate, saturate_opt, saturating_product};

#[verifier::external_type_specification]
#[verifier::external_body]
#[verifier::reject_recursive_types(T)]
pub struct ExReceiver<T>(Receiver<T>);

#[verifier::external_type_specification]
#[verifier::external_body]
#[verifier::reject_recursive_types(T)]
pub struct ExSender<T>(Sender<T>);

/// Relies on `Receiver::capacity`: the bound of a bounded channel, `None` for an
/// unbounded one.
pub assume_specification<T>[ Receiver::<T>::capacity ](r: &Receiver<T>) -> Option<usize>;

/// Relies on `Receiver::len`: the number of messages waiting, which other threads
/// may change at any time.
pub assume_specification<T>[ Receiver::<T>::len ](r: &Receiver<T>) -> usize;

/// Messages per block of an unbounded channel.
pub const ITEMS_PER_BLOCK: usize = 31;

/// The kinds of channel that `crossbeam_channel` builds.
#[derive(Clone, Copy, Debug, PartialEq, Eq, Structural)]
pub enum ChannelFlavor {
    /// Bounded channel based on a preallocated array.
    Array,
    /// Unbounded channel implemented as a linked list.
    List,
    /// Zero-capacity channel.
    Zero,
    /// The after flavor.
    At,
    /// The tick flavor.
    Tick,
    /// The never flavor.
    Never,
}

/// Same size and alignment as a slot of a bounded channel's buffer: a stamp and
/// room for one message.
#[allow(dead_code)]
struct ArraySlot<T> {
    stamp: usize,
    msg: T,
}

pub open spec fn guess_spec(capacity: Option<usize>) -> ChannelFlavor {
    match capacity {
        Some(c) => if c == 0 {
            ChannelFlavor::Zero
        } else {
            ChannelFlavor::Array
        },
        None => ChannelFlavor::List,
    }
}

impl ChannelFlavor {
    /// Guesses the kind of channel from its capacity: zero is a zero-capacity channel
    /// (or a never channel), any other bound an array (or an at or tick channel),
    /// and no bound a list.
    pub fn guess(capacity: Option<usize>) -> (r: Self)
        ensures
            r == guess_spec(capacity),
    {
        match capacity {
            Some(0) => ChannelFlavor::Zero,
            Some(_) => ChannelFlavor::Array,
            None => ChannelFlavor::List,
        }
    }
}

/// Blocks that hold `len` messages: `ceil(len / ITEMS_PER_BLOCK)`.
pub open spec fn list_blocks(len: nat) -> nat {
    (len + 30) / 31
}

/// A block: a link to the next block, and for each message room for it and a
/// state word.
pub open spec fn list_block_size<T>() -> nat {
    vstd::layout::size_of::<usize>() + 31 * (vstd::layout::size_of::<T>()
        + vstd::layout::size_of::<usize>())
}

pub closed spec fn array_slot_size<T>() -> nat {
    vstd::layout::size_of::<ArraySlot<T>>()
}

/// Bytes a channel of the given capacity holding `len` messages has allocated for
/// them: whole blocks for a list, the slot buffer for an array, nothing otherwise.
pub open spec fn channel_usage_spec<T>(capacity: Option<usize>, len: nat) -> nat {
    match guess_spec(capacity) {
        ChannelFlavor::List => list_blocks(len) * list_block_size::<T>(),
        ChannelFlavor::Array => (capacity->0 as nat) * array_slot_size::<T>(),
        _ => 0,
    }
}

proof fn lemma_saturate_mul(a: nat, b: nat)
    ensures
        saturate(a * saturate(b) as nat) == saturate(a * b),
{
    if b > usize::MAX && a > 0 {
        assert(a * b >= b) by (nonlinear_arith)
            requires
                a >= 1,
        ;
        assert(a * (usize::MAX as nat) >= usize::MAX) by (nonlinear_arith)
            requires
                a >= 1,
        ;
    }
}

/// The bytes that a channel of the given capacity, holding `len` messages of `T`,
/// has allocated for them (saturating at `usize::MAX`).
pub fn channel_usage<T>(capacity: Option<usize>, len: usize) -> (r: usize)
    ensures
        r == saturate(channel_usage_spec::<T>(capacity, len as nat)),
{
    match ChannelFlavor::guess(capacity) {
        ChannelFlavor::List => {
            let blocks = len / ITEMS_PER_BLOCK + if len % ITEMS_PER_BLOCK == 0 {
                0
            } else {
                1
            };
            assert(blocks as nat == list_blocks(len as nat));
            let word = core::mem::size_of::<usize>();
            let slot = core::mem::size_of::<T>().saturating_add(word);
            let slots = saturating_product(ITEMS_PER_BLOCK, slot);
            let block = word.saturating_add(slots);
            proof {
                let s = vstd::layout::size_of::<T>() + vstd::layout::size_of::<usize>();
                lemma_saturate_mul(31, s);
                lemma_saturate_add_both(vstd::layout::size_of::<usize>(), 31 * s);
                lemma_saturate_mul(blocks as nat, list_block_size::<T>());
            }
            saturating_product(blocks, block)
        },
        ChannelFlavor::Array => {
            let cap = match capacity {
                Some(c) => c,
                None => 0,
            };
            saturating_product(cap, core::mem::size_of::<ArraySlot<T>>())
        },
        _ => 0,
    }
}

impl<T: DynamicUsage> DynamicUsage for Sender<T> {
    open spec fn usage_spec(&self, usage: nat) -> bool {
        usage == 0
    }

    open spec fn bounds_spec(&self, lower: nat, upper: Option<nat>) -> bool {
        lower == 0 && upper == Some(0nat)
    }

    fn dynamic_usage(&self) -> (r: usize) {
        assert(self.usage_spec(0) && 0 == saturate(0));
        0
    }

    fn dynamic_usage_bounds(&self) -> (r: (usize, Option<usize>)) {
        assert(self.bounds_spec(0, Some(0nat)) && saturate_opt(Some(0nat)) == Some(0usize));
        (0, Some(0))
    }
}

impl<T: DynamicUsage> DynamicUsage for Receiver<T> {
    /// The bytes allocated for the waiting messages, for the capacity and the number
    /// of messages observed.
    open spec fn usage_spec(&self, usage: nat) -> bool {
        exists|capacity: Option<usize>, len: nat|
            usage == #[trigger] channel_usage_spec::<T>(capacity, len)
    }

    /// Both bounds are the estimate.
    open spec fn bounds_spec(&self, lower: nat, upper: Option<nat>) -> bool {
        exists|capacity: Option<usize>, len: nat|
            lower == #[trigger] channel_usage_spec::<T>(capacity, len) && upper == Some(lower)
    }

    fn dynamic_usage(&self) -> (r: usize) {
        let capacity = self.capacity();
        let len = self.len();
        let r = channel_usage::<T>(capacity, len);
        assert(self.usage_spec(channel_usage_spec::<T>(capacity, len as nat)));
        r
    }

    fn dynamic_usage_bounds(&self) -> (r: (usize, Option<usize>)) {
        let capacity = self.capacity();
        let len = self.len();
        let usage = channel_usage::<T>(capacity, len);
        let ghost u = channel_usage_spec::<T>(capacity, len as nat);
        assert(self.bounds_spec(u, Some(u)));
        (usage, Some(usage))
    }
}

} // verus!
