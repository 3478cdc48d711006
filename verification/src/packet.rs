use vstd::prelude::*;
use bytes::Bytes;

verus! {

/// Number of payload bytes carried by every fragment of a message except the last one,
/// which carries at most this many.
pub const FRAGMENT_SIZE: usize = 1150;

/// Upper bound on the reassembled size of a single fragmented message.
///
/// The fragment count of a message is chosen by the remote peer, so without a bound a
/// malformed packet could force an allocation of `num_fragments * FRAGMENT_SIZE` bytes.
pub const MAX_MESSAGE_BYTES: usize = 4 * 1024 * 1024;

/// Largest number of fragments accepted for one message: `MAX_MESSAGE_BYTES` divided by
/// `FRAGMENT_SIZE`, rounded up.
pub const MAX_FRAGMENTS: usize = (MAX_MESSAGE_BYTES + FRAGMENT_SIZE - 1) / FRAGMENT_SIZE;

/// A simulation tick.
#[derive(Clone, Copy, Debug, PartialEq, Eq, Hash, Structural)]
pub struct Tick(pub u16);

/// Identifier of a message within a channel.
#[derive(Clone, Copy, Debug, PartialEq, Eq, Hash, Structural)]
pub struct MessageId(pub u16);

/// Index (or count) of the fragments of a message, as carried on the wire.
#[derive(Clone, Copy, Debug, PartialEq, Eq, Hash, Structural)]
pub struct FragmentIndex(pub u64);

/// One fragment of a message, as read off the wire: every field is chosen by the peer.
#[derive(Debug)]
pub struct FragmentData {
    pub message_id: MessageId,
    pub fragment_id: FragmentIndex,
    pub num_fragments: FragmentIndex,
    pub bytes: Bytes,
}

} // verus!
