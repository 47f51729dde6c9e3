//! The packet channels of `async_channel`: what the library takes for granted about them.
//!
//! A channel is shared. Another task may fill, drain or close it between any two calls, so what
//! it holds at a given moment is no function of the handle, and no contract here speaks of it.
//! What can be said of a handle for good is which channel it belongs to, how many packets that
//! channel has room for, and whether it was told to close through it. What this side does with
//! its channels is all on record: a channel is made, asked or offered a packet only with a
//! [`ChannelLog`] at hand.

use async_channel::{Receiver, Sender, TrySendError};
use vstd::prelude::*;

verus! {

/// The sending end of a channel.
#[verifier::external_type_specification]
#[verifier::external_body]
#[verifier::reject_recursive_types(T)]
pub struct ExSender<T>(async_channel::Sender<T>);

/// The receiving end of a channel.
#[verifier::external_type_specification]
#[verifier::external_body]
#[verifier::reject_recursive_types(T)]
pub struct ExReceiver<T>(async_channel::Receiver<T>);

/// What `async_channel::Receiver::recv` gives when the channel is empty and closed.
#[verifier::external_type_specification]
#[verifier::external_body]
pub struct ExRecvError(async_channel::RecvError);

/// How many packets the channel of `tx` was made to hold at most.
pub uninterp spec fn capacity(tx: Sender<Vec<u8>>) -> nat;

/// The sending end of the channel that `rx` receives from. All sending ends of one channel count
/// as one and the same.
pub uninterp spec fn sending_end(rx: Receiver<Vec<u8>>) -> Sender<Vec<u8>>;

/// Whether the channel has been told to close through `rx`.
pub uninterp spec fn told_to_close(rx: Receiver<Vec<u8>>) -> bool;

/// A packet that was offered to the channel of `tx`, and was put into it (`accepted`) or turned
/// away (not `accepted`).
pub struct Offer {
    pub tx: Sender<Vec<u8>>,
    pub packet: Seq<u8>,
    pub accepted: bool,
}

/// The channel of `tx` was asked whether it is closed, and `closed` was the answer.
pub struct Ask {
    pub tx: Sender<Vec<u8>>,
    pub closed: bool,
}

/// What was done with channels: which were made, what was offered to them and how they answered
/// when they were asked whether they are closed, in order.
pub struct Calls {
    pub made: Set<Sender<Vec<u8>>>,
    pub offers: Seq<Offer>,
    pub asks: Seq<Ask>,
}

/// The record of what was done with channels. Nothing of it is there at run time.
pub struct ChannelLog {
    calls: Ghost<Calls>,
}

impl View for ChannelLog {
    type V = Calls;

    closed spec fn view(&self) -> Calls {
        self.calls@
    }
}

impl ChannelLog {
    /// The record of somebody who has done nothing so far.
    pub fn new() -> (log: Self)
        ensures
            log@.made == Set::<Sender<Vec<u8>>>::empty(),
            log@.offers == Seq::<Offer>::empty(),
            log@.asks == Seq::<Ask>::empty(),
    {
        ChannelLog {
            calls: Ghost(Calls { made: Set::empty(), offers: Seq::empty(), asks: Seq::empty() }),
        }
    }
}

/// `async_channel::bounded`: makes a channel with room for `room` packets and hands out its two
/// ends. The channel is a new one, so it is none of those on record, and nobody can have told it
/// to close; it goes on record. The outside function panics on a room of zero; rooms beyond the
/// bound are left out because the sizes that it derives from them need not fit in a machine
/// word.
#[verifier::external_body]
pub(crate) fn packet_channel(_log: &mut ChannelLog, room: usize) -> (ends: (
    Sender<Vec<u8>>,
    Receiver<Vec<u8>>,
))
    requires
        0 < room <= 0xffff,
    ensures
        sending_end(ends.1) == ends.0,
        capacity(ends.0) == room,
        !told_to_close(ends.1),
        !old(_log)@.made.contains(ends.0),
        final(_log)@ == (Calls { made: old(_log)@.made.insert(ends.0), ..old(_log)@ }),
{
    async_channel::bounded(room)
}

/// `async_channel::Sender::clone`: a second sending end of the same channel.
#[verifier::external_body]
pub(crate) fn second_handle(tx: &Sender<Vec<u8>>) -> (handle: Sender<Vec<u8>>)
    ensures
        handle == *tx,
{
    tx.clone()
}

/// `async_channel::Sender::is_closed`: asks whether the channel is closed. Which answer comes
/// depends on what the receiving task has done by now, but a channel that has closed does not
/// open again. Question and answer go on record.
#[verifier::external_body]
pub(crate) fn is_closed(_log: &mut ChannelLog, tx: &Sender<Vec<u8>>) -> (closed: bool)
    ensures
        final(_log)@ == (Calls {
            asks: old(_log)@.asks.push((Ask { tx: *tx, closed })),
            ..old(_log)@
        }),
        old(_log)@.asks.contains((Ask { tx: *tx, closed: true })) ==> closed,
{
    tx.is_closed()
}

/// `async_channel::Sender::try_send`: puts the packet into the channel, or hands it back where
/// the channel is full or closed. Which of these comes depends on what the receiving task has
/// done by now. The offer goes on record, which has to be the one that the channel was made
/// with, so that no offer to a channel is on another record.
#[verifier::external_body]
pub(crate) fn offer(_log: &mut ChannelLog, tx: &Sender<Vec<u8>>, packet: Vec<u8>) -> (outcome:
    Result<(), Vec<u8>>)
    requires
        old(_log)@.made.contains(*tx),
    ensures
        final(_log)@ == (Calls {
            offers: old(_log)@.offers.push(
                (Offer { tx: *tx, packet: packet@, accepted: outcome is Ok }),
            ),
            ..old(_log)@
        }),
        outcome matches Err(back) ==> back@ == packet@,
{
    match tx.try_send(packet) {
        Ok(()) => Ok(()),
        Err(TrySendError::Full(back)) => Err(back),
        Err(TrySendError::Closed(back)) => Err(back),
    }
}

/// `async_channel::Receiver::close`: closes the channel, and tells whether it was open until
/// then. It was not if it has been told to close before; whether it was otherwise depends on
/// what the sending task has done by now.
#[verifier::external_body]
pub(crate) fn close(rx: &mut Receiver<Vec<u8>>) -> (first: bool)
    ensures
        told_to_close(*final(rx)),
        sending_end(*final(rx)) == sending_end(*old(rx)),
        told_to_close(*old(rx)) ==> !first,
{
    rx.close()
}

} // verus!
