//! A UDP socket shared by many remotes: the listener sorts incoming datagrams by the address
//! they come from and opens a session for every address it does not know yet.
//!
//! The listener is a state machine. Its caller owns the socket, performs the [`Action`] that the
//! listener asks for, and hands back how it went.

use async_channel::{Receiver, RecvError, Sender};
use vstd::prelude::*;

use crate::channel;
use crate::channel::{Ask, ChannelLog, Offer};
use crate::sessions::{
    answers, law_a_sweep_asks_each_session_once, law_a_sweep_goes_by_its_answers, swept,
    SessionTable,
};

verus! {

/// The room for one incoming datagram, in bytes.
pub const UDP_MTU: usize = 0x1000;

/// How many sessions may wait to be accepted.
pub const ACCEPT_BACKLOG: usize = 0x10;

/// How many packets may wait in one session.
pub const SESSION_BACKLOG: usize = 0x200;

/// A buffer for one incoming datagram.
pub fn packet_buffer() -> (buf: Vec<u8>)
    ensures
        buf@ == Seq::new(UDP_MTU as nat, |i: int| 0u8),
        buf@.len() == 0x1000,
        forall|i: int| 0 <= i < buf@.len() ==> buf@[i] == 0,
{
    let buf = vec![0u8; UDP_MTU];
    assert(buf@ =~= Seq::new(UDP_MTU as nat, |i: int| 0u8));
    buf
}

/// The packet of `size` bytes that was received into `buf`.
pub open spec fn packet_in(buf: Seq<u8>, size: usize) -> Seq<u8> {
    if size <= buf.len() {
        buf.take(size as int)
    } else {
        buf
    }
}

/// A packet is no longer than the buffer that it was received into; so one that was received
/// into a [`packet_buffer`] has at most [`UDP_MTU`] bytes.
pub proof fn law_packets_fit_their_buffer(buf: Seq<u8>, size: usize)
    ensures
        packet_in(buf, size).len() <= buf.len(),
        packet_in(buf, size).len() <= size,
        buf.len() == UDP_MTU ==> packet_in(buf, size).len() <= UDP_MTU,
{
}

/// A packet has all the bytes that were received, as they were received, and no others: as many as
/// the socket reported, or the whole buffer where the socket reported more than it holds.
pub proof fn law_a_packet_is_what_was_received(buf: Seq<u8>, size: usize)
    ensures
        size <= buf.len() ==> packet_in(buf, size).len() == size,
        size > buf.len() ==> packet_in(buf, size).len() == buf.len(),
        forall|i: int|
            0 <= i < packet_in(buf, size).len() ==> #[trigger] packet_in(buf, size)[i] == buf[i],
{
}

/// What lies in the buffer behind the packet plays no part, and all that was received does: two
/// buffers give the same packet exactly where they agree on the bytes that were received.
pub proof fn law_the_rest_of_the_buffer_plays_no_part(one: Seq<u8>, other: Seq<u8>, size: usize)
    requires
        size <= one.len(),
        size <= other.len(),
    ensures
        packet_in(one, size) == packet_in(other, size) <==> forall|i: int|
            0 <= i < size ==> one[i] == other[i],
{
    if forall|i: int| 0 <= i < size ==> one[i] == other[i] {
        assert(packet_in(one, size) =~= packet_in(other, size));
    }
    if packet_in(one, size) == packet_in(other, size) {
        assert forall|i: int| 0 <= i < size implies one[i] == other[i] by {
            assert(packet_in(one, size)[i] == packet_in(other, size)[i]);
        }
    }
}

/// Cuts a buffer down to the packet that was received into it.
pub fn received_packet(buf: Vec<u8>, size: usize) -> (packet: Vec<u8>)
    ensures
        packet@ == packet_in(buf@, size),
        size <= buf@.len() ==> packet@.len() == size,
        size > buf@.len() ==> packet@ == buf@,
        forall|i: int| 0 <= i < packet@.len() ==> packet@[i] == buf@[i],
{
    let mut packet = buf;
    packet.truncate(size);
    packet
}

/// Why a session gives no packet.
#[derive(Clone, Copy, Debug, PartialEq, Eq, Structural)]
pub enum SessionError {
    /// No packet is left, and none will come any more.
    ConnectionReset,
}

/// The packets of one remote.
pub struct UdpSession {
    remote: String,
    rx: Receiver<Vec<u8>>,
}

impl UdpSession {
    /// The address of the remote, written out as text.
    pub closed spec fn remote(&self) -> Seq<char> {
        self.remote@
    }

    /// Where the packets of the remote come out.
    pub closed spec fn rx(&self) -> Receiver<Vec<u8>> {
        self.rx
    }

    /// The address of the remote, written out as text.
    pub fn get_remote(&self) -> (remote: &str)
        ensures
            remote@ == self.remote(),
    {
        self.remote.as_str()
    }

    /// Where the packets of the remote come out.
    pub fn receiver(&self) -> (rx: &Receiver<Vec<u8>>)
        ensures
            *rx == self.rx(),
    {
        &self.rx
    }

    /// What a session gives for what came out of its channel: the packet as it is, or that the
    /// connection is gone where the channel is empty and closed.
    pub fn recv_packet(received: Result<Vec<u8>, RecvError>) -> (packet: Result<
        Vec<u8>,
        SessionError,
    >)
        ensures
            match received {
                Ok(bytes) => packet == Ok::<Vec<u8>, SessionError>(bytes),
                Err(_) => packet == Err::<Vec<u8>, SessionError>(SessionError::ConnectionReset),
            },
    {
        match received {
            Ok(bytes) => Ok(bytes),
            Err(_) => Err(SessionError::ConnectionReset),
        }
    }

    /// Gives the session up: its channel is closed, and the listener will drop the session when
    /// it next looks. Tells whether the channel was open until then.
    pub fn close(&mut self) -> (first: bool)
        ensures
            final(self).remote() == old(self).remote(),
            channel::sending_end(final(self).rx()) == channel::sending_end(old(self).rx()),
            channel::told_to_close(final(self).rx()),
            channel::told_to_close(old(self).rx()) ==> !first,
    {
        channel::close(&mut self.rx)
    }
}

/// What became of a datagram, now that the listener is ready for the next one.
#[derive(Clone, Copy, Debug, PartialEq, Eq, Structural)]
pub enum Handled {
    /// The packet went into the session of its remote.
    Delivered,
    /// The session of its remote had no room, and the packet was lost.
    Jammed,
    /// The sessions that are closed were dropped. The packet was lost if its remote had one of
    /// them.
    Cleaned,
}

/// What the listener asks its caller to do.
pub enum Action {
    /// Receive a datagram, then call [`UdpListener::on_received`] or
    /// [`UdpListener::on_receive_error`].
    Receive(Handled),
    /// Put the session where it will be accepted, then call [`UdpListener::on_announced`].
    Announce(UdpSession),
    /// Send the packet into the channel, waiting for room, then call
    /// [`UdpListener::on_forwarded`].
    Forward(Sender<Vec<u8>>, Vec<u8>),
    /// Give up with the error that came from the socket.
    Stop,
    /// Panic: nobody accepts sessions any more, or a session was given up before its first
    /// packet was in.
    Panic,
}

/// Where a listener stands.
pub enum Stage {
    /// A datagram is to be received.
    Receiving,
    /// A session has been opened and is to be announced; `packet` will then go into its channel.
    Announcing { tx: Sender<Vec<u8>>, packet: Seq<u8> },
    /// The first packet of a session is on its way.
    Forwarding,
    /// The listener has come to its end.
    Stopped,
}

/// What there is to say of a listener.
pub struct ListenerState {
    /// The remotes that have a session, with the sending end of each one's channel.
    pub sessions: Map<Seq<char>, Sender<Vec<u8>>>,
    /// Where the listener stands.
    pub stage: Stage,
    /// The channels that the listener has made, those of sessions long gone among them.
    pub made: Set<Sender<Vec<u8>>>,
    /// Every packet that the listener has offered to a channel, in order.
    pub offers: Seq<Offer>,
    /// Every channel that the listener has asked whether it is closed, with the answer, in order.
    pub asks: Seq<Ask>,
}

/// What can happen to a listener.
pub enum Event {
    /// A datagram came in.
    Received { remote: Seq<char>, packet: Seq<u8> },
    /// The socket gave an error.
    ReceiveError,
    /// The session was put where it will be accepted, or could not be.
    Announced { ok: bool },
    /// The packet went into the channel, or could not.
    Forwarded { ok: bool },
}

impl ListenerState {
    /// Every session has the same room and a channel that the listener has made, no two sessions
    /// share a channel, and a session that is to be announced is in the table.
    pub open spec fn wf(self) -> bool {
        &&& forall|one: Seq<char>, other: Seq<char>|
            self.sessions.contains_key(one) && self.sessions.contains_key(other) && one != other
                ==> #[trigger] self.sessions[one] != #[trigger] self.sessions[other]
        &&& forall|remote: Seq<char>| #[trigger]
            self.sessions.contains_key(remote) ==> channel::capacity(self.sessions[remote])
                == SESSION_BACKLOG && self.made.contains(self.sessions[remote])
        &&& self.stage matches Stage::Announcing { tx, .. } ==> self.sessions.contains_value(tx)
    }

    /// A datagram of a remote that has no session opens one for it: a new channel, none of those
    /// made before, whose sending end goes into the table and whose receiving end is announced as
    /// it was made. The datagram waits; nothing is offered to any channel.
    pub open spec fn opens(
        self,
        remote: Seq<char>,
        packet: Seq<u8>,
        action: Action,
        post: ListenerState,
    ) -> bool {
        &&& !self.sessions.contains_key(remote)
        &&& action matches Action::Announce(session)
        &&& post.stage matches Stage::Announcing { tx, packet: waiting }
        &&& waiting == packet
        &&& session.remote() == remote
        &&& channel::sending_end(session.rx()) == tx
        &&& !channel::told_to_close(session.rx())
        &&& channel::capacity(tx) == SESSION_BACKLOG
        &&& post.sessions == self.sessions.insert(remote, tx)
        &&& !self.made.contains(tx)
        &&& post.made == self.made.insert(tx)
        &&& post.offers == self.offers
        &&& post.asks == self.asks
    }

    /// A datagram of a remote that has a session has the channel of that session asked whether it
    /// is closed. If it says no, the datagram is offered to it, once, and is lost if the channel
    /// will not have it. If it says yes, nothing is offered and the datagram is lost; all channels
    /// are asked, and the sessions of those that are closed are dropped, this one among them.
    pub open spec fn passes_on(
        self,
        remote: Seq<char>,
        packet: Seq<u8>,
        action: Action,
        post: ListenerState,
    ) -> bool {
        let tx = self.sessions[remote];
        let asked = self.asks.len() as int;
        &&& self.sessions.contains_key(remote)
        &&& post.stage is Receiving
        &&& post.made == self.made
        &&& action matches Action::Receive(handled)
        &&& match handled {
            Handled::Delivered => {
                &&& post.asks == self.asks.push((Ask { tx, closed: false }))
                &&& post.offers == self.offers.push((Offer { tx, packet, accepted: true }))
                &&& post.sessions == self.sessions
            },
            Handled::Jammed => {
                &&& post.asks == self.asks.push((Ask { tx, closed: false }))
                &&& post.offers == self.offers.push((Offer { tx, packet, accepted: false }))
                &&& post.sessions == self.sessions
            },
            Handled::Cleaned => {
                &&& self.asks.push((Ask { tx, closed: true })).is_prefix_of(post.asks)
                &&& post.offers == self.offers
                &&& swept(self.sessions, post.sessions, post.asks.skip(asked + 1))
                &&& !post.sessions.contains_key(remote)
            },
        }
    }

    /// How a listener takes a datagram.
    pub open spec fn receives(
        self,
        remote: Seq<char>,
        packet: Seq<u8>,
        action: Action,
        post: ListenerState,
    ) -> bool {
        &&& self.stage is Receiving
        &&& if self.sessions.contains_key(remote) {
            self.passes_on(remote, packet, action, post)
        } else {
            self.opens(remote, packet, action, post)
        }
    }

    /// How a listener takes an error of the socket.
    pub open spec fn fails(self, action: Action, post: ListenerState) -> bool {
        &&& self.stage is Receiving
        &&& action is Stop
        &&& post == ListenerState { stage: Stage::Stopped, ..self }
    }

    /// How a listener goes on once a session has been announced, or could not be: the datagram
    /// that opened it goes into its channel.
    pub open spec fn announced(self, ok: bool, action: Action, post: ListenerState) -> bool {
        &&& self.stage matches Stage::Announcing { tx, packet }
        &&& post.sessions == self.sessions
        &&& post.made == self.made
        &&& post.offers == self.offers
        &&& post.asks == self.asks
        &&& if ok {
            &&& action matches Action::Forward(to, bytes)
            &&& to == tx
            &&& bytes@ == packet
            &&& post.stage is Forwarding
        } else {
            &&& action is Panic
            &&& post.stage is Stopped
        }
    }

    /// How a listener goes on once the first datagram of a session is in its channel, or could
    /// not be put there: all channels are asked whether they are closed, and the sessions of
    /// those that say yes are dropped.
    pub open spec fn forwarded(self, ok: bool, action: Action, post: ListenerState) -> bool {
        &&& self.stage is Forwarding
        &&& if ok {
            &&& action == Action::Receive(Handled::Cleaned)
            &&& post.stage is Receiving
            &&& post.made == self.made
            &&& post.offers == self.offers
            &&& self.asks.is_prefix_of(post.asks)
            &&& swept(self.sessions, post.sessions, post.asks.skip(self.asks.len() as int))
        } else {
            &&& action is Panic
            &&& post == ListenerState { stage: Stage::Stopped, ..self }
        }
    }

    /// How a listener takes an event.
    pub open spec fn step(self, event: Event, action: Action, post: ListenerState) -> bool {
        match event {
            Event::Received { remote, packet } => self.receives(remote, packet, action, post),
            Event::ReceiveError => self.fails(action, post),
            Event::Announced { ok } => self.announced(ok, action, post),
            Event::Forwarded { ok } => self.forwarded(ok, action, post),
        }
    }

    /// Whether some event can lead from `self` to `post`.
    pub open spec fn leads_to(self, post: ListenerState) -> bool {
        exists|event: Event, action: Action| self.step(event, action, post)
    }
}

/// What becomes of a listener keeps to what every listener keeps to: all sessions have the same
/// room and a channel that the listener has made, no two share a channel, and a session that is
/// to be announced is in the table.
pub proof fn law_step_keeps_wf(
    pre: ListenerState,
    event: Event,
    action: Action,
    post: ListenerState,
)
    requires
        pre.wf(),
        pre.step(event, action, post),
    ensures
        post.wf(),
{
    if let Event::Received { remote, packet } = event {
        if !pre.sessions.contains_key(remote) {
            assert(post.sessions.contains_key(remote));
        }
    }
}

/// The listener offers a packet to a channel only where it takes a datagram of a remote that has
/// a session: then it offers that datagram, as it is, at most once, to the channel of that
/// session. No other event makes it offer anything.
pub proof fn law_offers_go_to_the_own_session(
    pre: ListenerState,
    event: Event,
    action: Action,
    post: ListenerState,
)
    requires
        pre.step(event, action, post),
    ensures
        post.offers != pre.offers ==> {
            &&& event matches Event::Received { remote, packet }
            &&& pre.sessions.contains_key(remote)
            &&& post.offers == pre.offers.push(
                (Offer {
                    tx: pre.sessions[remote],
                    packet,
                    accepted: action == Action::Receive(Handled::Delivered),
                }),
            )
        },
{
}

/// A datagram of `one` leaves what the session of `other` receives from alone: whatever the
/// listener offers on account of it, it offers to another channel, it asks its caller to put
/// nothing anywhere, and a session that it opens has another channel.
pub proof fn law_sessions_are_apart(
    pre: ListenerState,
    one: Seq<char>,
    packet: Seq<u8>,
    action: Action,
    post: ListenerState,
    other: Seq<char>,
    session: UdpSession,
)
    requires
        pre.wf(),
        pre.receives(one, packet, action, post),
        pre.sessions.contains_key(other),
        pre.sessions[other] == channel::sending_end(session.rx()),
        one != other,
    ensures
        pre.offers.len() <= post.offers.len(),
        post.offers.take(pre.offers.len() as int) == pre.offers,
        forall|i: int|
            pre.offers.len() <= i < post.offers.len() ==> (#[trigger] post.offers[i]).tx
                != channel::sending_end(session.rx()),
        !(action is Forward),
        action matches Action::Announce(announced) ==> channel::sending_end(announced.rx())
            != channel::sending_end(session.rx()),
{
    assert(post.offers.take(pre.offers.len() as int) =~= pre.offers);
}

/// A session is announced for a datagram exactly where its remote has none, so no remote has two
/// at a time.
pub proof fn law_one_session_per_remote(
    pre: ListenerState,
    remote: Seq<char>,
    packet: Seq<u8>,
    action: Action,
    post: ListenerState,
)
    requires
        pre.receives(remote, packet, action, post),
    ensures
        action is Announce <==> !pre.sessions.contains_key(remote),
{
}

/// The datagram that opens a session goes into the channel of that very session, unchanged, and
/// the session is in the table under the address that the datagram came from.
pub proof fn law_first_packet_goes_to_its_own_session(
    pre: ListenerState,
    remote: Seq<char>,
    packet: Seq<u8>,
    session: UdpSession,
    mid: ListenerState,
    action: Action,
    post: ListenerState,
)
    requires
        pre.receives(remote, packet, Action::Announce(session), mid),
        mid.announced(true, action, post),
    ensures
        session.remote() == remote,
        action matches Action::Forward(tx, bytes) && {
            &&& bytes@ == packet
            &&& channel::sending_end(session.rx()) == tx
            &&& post.sessions == pre.sessions.insert(remote, tx)
        },
{
}

/// Once a datagram was lost because the session of its remote is closed, the next datagram of
/// that remote opens a new session, over a channel that the closed one does not receive from: no
/// second datagram is lost to the closed session, and what is left in it is not in the new one.
pub proof fn law_closed_remote_is_welcome_again(
    pre: ListenerState,
    remote: Seq<char>,
    lost: Seq<u8>,
    mid: ListenerState,
    packet: Seq<u8>,
    action: Action,
    post: ListenerState,
)
    requires
        pre.wf(),
        pre.passes_on(remote, lost, Action::Receive(Handled::Cleaned), mid),
        mid.receives(remote, packet, action, post),
    ensures
        mid.opens(remote, packet, action, post),
        action matches Action::Announce(session) && channel::sending_end(session.rx())
            != pre.sessions[remote],
{
}

/// A listener comes to its end only by an error of the socket, by a session that cannot be
/// announced or by a first packet that cannot be forwarded, and by each of them at once. The first
/// makes it give up with the error, the other two make it panic. No datagram ends it, whatever
/// becomes of the datagram.
pub proof fn law_what_ends_a_listener(
    pre: ListenerState,
    event: Event,
    action: Action,
    post: ListenerState,
)
    requires
        pre.step(event, action, post),
    ensures
        post.stage is Stopped <==> event is ReceiveError || event == (Event::Announced {
            ok: false,
        }) || event == (Event::Forwarded { ok: false }),
        action is Stop <==> event is ReceiveError,
        action is Panic <==> event == (Event::Announced { ok: false }) || event == (
        Event::Forwarded { ok: false }),
        post.stage is Stopped ==> {
            &&& post.sessions == pre.sessions
            &&& post.made == pre.made
            &&& post.offers == pre.offers
            &&& post.asks == pre.asks
        },
{
}

/// What a listener asks for next goes by the event alone and by whether the remote of a datagram
/// has a session: such a datagram leaves it ready for the next one, as does a first packet that
/// was forwarded; a datagram of another remote makes it announce a session; and a session that was
/// announced makes it forward the first packet. Where it stands is always what it asks for.
pub proof fn law_what_a_listener_asks_for(
    pre: ListenerState,
    event: Event,
    action: Action,
    post: ListenerState,
)
    requires
        pre.step(event, action, post),
    ensures
        match event {
            Event::Received { remote, .. } => if pre.sessions.contains_key(remote) {
                action is Receive
            } else {
                action is Announce
            },
            Event::ReceiveError => action is Stop,
            Event::Announced { ok } => if ok {
                action is Forward
            } else {
                action is Panic
            },
            Event::Forwarded { ok } => if ok {
                action is Receive
            } else {
                action is Panic
            },
        },
        match event {
            Event::Received { .. } => pre.stage is Receiving,
            Event::ReceiveError => pre.stage is Receiving,
            Event::Announced { .. } => pre.stage is Announcing,
            Event::Forwarded { .. } => pre.stage is Forwarding,
        },
        post.stage is Receiving <==> action is Receive,
        post.stage is Announcing <==> action is Announce,
        post.stage is Forwarding <==> action is Forward,
        post.stage is Stopped <==> action is Stop || action is Panic,
{
}

/// A datagram of a remote that has a session leaves the listener ready for the next one, whatever
/// the remote, the bytes and their number. It counts as delivered exactly where the channel of the
/// session was offered it and took it, as jammed exactly where the channel was offered it and did
/// not take it, and as cleaned exactly where nothing was offered. Where something was offered, it
/// was the datagram, to the channel of that session, and no session was touched and no other
/// channel asked.
pub proof fn law_a_known_remote_leaves_the_listener_ready(
    pre: ListenerState,
    remote: Seq<char>,
    packet: Seq<u8>,
    action: Action,
    post: ListenerState,
)
    requires
        pre.receives(remote, packet, action, post),
        pre.sessions.contains_key(remote),
    ensures
        action is Receive,
        post.stage is Receiving,
        post.made == pre.made,
        ({
            let tx = pre.sessions[remote];
            let took = Offer { tx, packet, accepted: true };
            let turned_away = Offer { tx, packet, accepted: false };
            &&& action == Action::Receive(Handled::Delivered) <==> post.offers == pre.offers.push(
                took,
            )
            &&& action == Action::Receive(Handled::Jammed) <==> post.offers == pre.offers.push(
                turned_away,
            )
            &&& action == Action::Receive(Handled::Cleaned) <==> post.offers == pre.offers
            &&& post.offers != pre.offers ==> post.sessions == pre.sessions && post.asks
                == pre.asks.push((Ask { tx, closed: false }))
        }),
{
    let tx = pre.sessions[remote];
    assert(pre.offers.push((Offer { tx, packet, accepted: true })).last().accepted);
    assert(!pre.offers.push((Offer { tx, packet, accepted: false })).last().accepted);
    assert(pre.offers.push((Offer { tx, packet, accepted: true })).len() == pre.offers.len() + 1);
    assert(pre.offers.push((Offer { tx, packet, accepted: false })).len() == pre.offers.len() + 1);
}

/// A datagram of a remote that has a session is offered to it or finds it closed. Where it finds
/// it closed, every session, whatever its remote, is asked in that very turn and goes by its
/// answer: it is gone if it said that it is closed, and stays as it was if it said that it is not.
pub proof fn law_a_closed_session_has_everybody_asked(
    pre: ListenerState,
    remote: Seq<char>,
    packet: Seq<u8>,
    action: Action,
    post: ListenerState,
    other: Seq<char>,
)
    requires
        pre.receives(remote, packet, action, post),
        pre.sessions.contains_key(remote),
        post.offers == pre.offers,
    ensures
        !post.sessions.contains_key(remote),
        post.asks[pre.asks.len() as int] == (Ask { tx: pre.sessions[remote], closed: true }),
        pre.sessions.contains_key(other) ==> post.asks.skip(pre.asks.len() as int + 1).contains(
            (Ask { tx: pre.sessions[other], closed: !post.sessions.contains_key(other) }),
        ),
        post.sessions.contains_key(other) ==> pre.sessions.contains_key(other)
            && post.sessions[other] == pre.sessions[other],
        post.asks.len() == pre.asks.len() + 1 + pre.sessions.dom().len(),
{
    law_a_known_remote_leaves_the_listener_ready(pre, remote, packet, action, post);
    let first = pre.asks.push((Ask { tx: pre.sessions[remote], closed: true }));
    assert(first[pre.asks.len() as int] == post.asks[pre.asks.len() as int]);
    let later = post.asks.skip(pre.asks.len() as int + 1);
    if pre.sessions.contains_key(other) {
        law_a_sweep_goes_by_its_answers(pre.sessions, post.sessions, later, other);
    }
    law_a_sweep_asks_each_session_once(pre.sessions, post.sessions, later);
}

/// Once the first packet of a session is in, every session, whatever its remote, is asked whether
/// it is closed, and goes by its answer: it is gone if it said yes, and stays as it was if it said
/// no. Nobody else is asked, nothing is offered, and the listener is ready for the next datagram.
pub proof fn law_a_new_session_has_everybody_asked(
    pre: ListenerState,
    action: Action,
    post: ListenerState,
    remote: Seq<char>,
)
    requires
        pre.forwarded(true, action, post),
    ensures
        action == Action::Receive(Handled::Cleaned),
        post.stage is Receiving,
        post.made == pre.made,
        post.offers == pre.offers,
        pre.sessions.contains_key(remote) ==> post.asks.skip(pre.asks.len() as int).contains(
            (Ask { tx: pre.sessions[remote], closed: !post.sessions.contains_key(remote) }),
        ),
        post.sessions.contains_key(remote) ==> pre.sessions.contains_key(remote)
            && post.sessions[remote] == pre.sessions[remote],
        post.asks.len() == pre.asks.len() + pre.sessions.dom().len(),
{
    let new = post.asks.skip(pre.asks.len() as int);
    if pre.sessions.contains_key(remote) {
        law_a_sweep_goes_by_its_answers(pre.sessions, post.sessions, new, remote);
    }
    law_a_sweep_asks_each_session_once(pre.sessions, post.sessions, new);
}

/// A datagram of a remote that has no session, whatever the remote and the bytes, makes the
/// listener announce one for that remote, over a channel that was never made before, with room for
/// 0x200 packets and told to close by nobody. The datagram waits for that channel, all other
/// sessions stay as they are, and no channel is asked or offered anything.
pub proof fn law_an_unknown_remote_is_announced(
    pre: ListenerState,
    remote: Seq<char>,
    packet: Seq<u8>,
    action: Action,
    post: ListenerState,
)
    requires
        pre.receives(remote, packet, action, post),
        !pre.sessions.contains_key(remote),
    ensures
        action matches Action::Announce(session) && {
            let tx = channel::sending_end(session.rx());
            &&& session.remote() == remote
            &&& !channel::told_to_close(session.rx())
            &&& channel::capacity(tx) == 0x200
            &&& !pre.made.contains(tx)
            &&& post.made == pre.made.insert(tx)
            &&& post.sessions == pre.sessions.insert(remote, tx)
            &&& post.stage == (Stage::Announcing { tx, packet })
        },
        post.offers == pre.offers,
        post.asks == pre.asks,
{
}

/// A session that was announced gets the packet that waits for it, through the caller and as it
/// is; nothing else about the listener changes.
pub proof fn law_an_announced_session_gets_what_waits(
    pre: ListenerState,
    action: Action,
    post: ListenerState,
)
    requires
        pre.announced(true, action, post),
    ensures
        action matches Action::Forward(to, bytes) && pre.stage matches Stage::Announcing {
            tx,
            packet,
        } && to == tx && bytes@ == packet,
        post == (ListenerState { stage: Stage::Forwarding, ..pre }),
{
}

/// What is on record stays on record.
pub proof fn law_the_record_only_grows(
    pre: ListenerState,
    event: Event,
    action: Action,
    post: ListenerState,
)
    requires
        pre.step(event, action, post),
    ensures
        pre.made.subset_of(post.made),
        pre.offers.is_prefix_of(post.offers),
        pre.asks.is_prefix_of(post.asks),
{
    if let Event::Received { remote, packet } = event {
        if pre.sessions.contains_key(remote) {
            if action == Action::Receive(Handled::Cleaned) {
                let first = pre.asks.push((Ask { tx: pre.sessions[remote], closed: true }));
                assert(pre.asks =~= first.subrange(0, pre.asks.len() as int));
                assert(pre.asks =~= post.asks.subrange(0, pre.asks.len() as int));
            } else {
                assert(pre.asks =~= post.asks.subrange(0, pre.asks.len() as int));
            }
            assert(pre.offers =~= post.offers.subrange(0, pre.offers.len() as int));
        }
    }
}

/// Every datagram of a remote that has a session has the channel of the session asked first
/// whether it is closed, and goes by the answer: it is offered to the channel exactly where the
/// answer is no, and the session is dropped exactly where the answer is yes.
pub proof fn law_each_datagram_goes_by_the_answer_to_it(
    pre: ListenerState,
    remote: Seq<char>,
    packet: Seq<u8>,
    action: Action,
    post: ListenerState,
)
    requires
        pre.receives(remote, packet, action, post),
        pre.sessions.contains_key(remote),
    ensures
        post.asks.len() > pre.asks.len(),
        ({
            let ask = post.asks[pre.asks.len() as int];
            &&& ask.tx == pre.sessions[remote]
            &&& ask.closed <==> action == Action::Receive(Handled::Cleaned)
            &&& ask.closed <==> post.offers == pre.offers
            &&& ask.closed <==> !post.sessions.contains_key(remote)
        }),
{
    let tx = pre.sessions[remote];
    if action == Action::Receive(Handled::Cleaned) {
        let first = pre.asks.push((Ask { tx, closed: true }));
        assert(first[pre.asks.len() as int] == post.asks[pre.asks.len() as int]);
    } else {
        assert(post.offers.len() == pre.offers.len() + 1);
    }
}

/// Whatever happens, a session keeps its place and its channel unless its channel is asked in
/// that very turn and says that it is closed.
pub proof fn law_open_session_stays(
    pre: ListenerState,
    event: Event,
    action: Action,
    post: ListenerState,
    remote: Seq<char>,
)
    requires
        pre.step(event, action, post),
        pre.sessions.contains_key(remote),
        !post.asks.skip(pre.asks.len() as int).contains(
            (Ask { tx: pre.sessions[remote], closed: true }),
        ),
    ensures
        post.sessions.contains_key(remote),
        post.sessions[remote] == pre.sessions[remote],
{
    let new = post.asks.skip(pre.asks.len() as int);
    let gone = Ask { tx: pre.sessions[remote], closed: true };
    if !post.sessions.contains_key(remote) {
        if event is Forwarded {
            law_a_sweep_goes_by_its_answers(pre.sessions, post.sessions, new, remote);
        } else {
            let later = post.asks.skip(pre.asks.len() as int + 1);
            law_a_sweep_goes_by_its_answers(pre.sessions, post.sessions, later, remote);
            let i = choose|i: int| 0 <= i < later.len() && later[i] == gone;
            assert(new[i + 1] == gone);
        }
    }
}

/// In a whole run too: from any state to any later one, a session keeps its place and its
/// channel unless its channel is asked in between and says that it is closed.
pub proof fn law_open_session_stays_throughout(
    run: Seq<ListenerState>,
    from: int,
    to: int,
    remote: Seq<char>,
)
    requires
        forall|i: int| 0 <= i < run.len() - 1 ==> #[trigger] run[i].leads_to(run[i + 1]),
        0 <= from <= to < run.len(),
        run[from].sessions.contains_key(remote),
        !run[to].asks.skip(run[from].asks.len() as int).contains(
            (Ask { tx: run[from].sessions[remote], closed: true }),
        ),
    ensures
        run[to].sessions.contains_key(remote),
        run[to].sessions[remote] == run[from].sessions[remote],
        run[from].asks.is_prefix_of(run[to].asks),
    decreases to - from,
{
    if from < to {
        let pre = run[from];
        let post = run[from + 1];
        let end = run[to];
        let gone = Ask { tx: pre.sessions[remote], closed: true };
        assert(pre.leads_to(post));
        let (event, action) = choose|event: Event, action: Action| pre.step(event, action, post);
        law_the_record_only_grows(pre, event, action, post);
        lemma_asks_grow(run, from + 1, to);
        let new = post.asks.skip(pre.asks.len() as int);
        let all = end.asks.skip(pre.asks.len() as int);
        if new.contains(gone) {
            let i = choose|i: int| 0 <= i < new.len() && new[i] == gone;
            assert(end.asks[pre.asks.len() as int + i] == post.asks[pre.asks.len() as int + i]);
            assert(all[i] == gone);
        }
        let later = end.asks.skip(post.asks.len() as int);
        if later.contains(gone) {
            let i = choose|i: int| 0 <= i < later.len() && later[i] == gone;
            assert(all[i + post.asks.len() - pre.asks.len()] == gone);
        }
        law_open_session_stays(pre, event, action, post, remote);
        law_open_session_stays_throughout(run, from + 1, to, remote);
        assert(pre.asks =~= end.asks.subrange(0, pre.asks.len() as int));
    }
}

proof fn lemma_asks_grow(run: Seq<ListenerState>, from: int, to: int)
    requires
        forall|i: int| 0 <= i < run.len() - 1 ==> #[trigger] run[i].leads_to(run[i + 1]),
        0 <= from <= to < run.len(),
    ensures
        run[from].asks.is_prefix_of(run[to].asks),
    decreases to - from,
{
    if from < to {
        let pre = run[from];
        let post = run[from + 1];
        assert(pre.leads_to(post));
        let (event, action) = choose|event: Event, action: Action| pre.step(event, action, post);
        law_the_record_only_grows(pre, event, action, post);
        lemma_asks_grow(run, from + 1, to);
        assert(pre.asks =~= run[to].asks.subrange(0, pre.asks.len() as int));
    }
}

/// A listener that has come to its end stays there: nothing leads on from it.
pub proof fn law_the_end_is_final(state: ListenerState, post: ListenerState)
    requires
        state.stage is Stopped,
    ensures
        !state.leads_to(post),
{
}

/// A datagram of one remote leaves the sessions of all others as they are, but for those whose
/// channel is asked on account of it and says that it is closed.
pub proof fn law_remotes_do_not_interfere(
    pre: ListenerState,
    remote: Seq<char>,
    packet: Seq<u8>,
    action: Action,
    post: ListenerState,
    other: Seq<char>,
)
    requires
        pre.receives(remote, packet, action, post),
        other != remote,
    ensures
        post.sessions.contains_key(other) ==> pre.sessions.contains_key(other)
            && post.sessions[other] == pre.sessions[other],
        pre.sessions.contains_key(other) && !post.sessions.contains_key(other) ==> post.asks.skip(
            pre.asks.len() as int,
        ).contains((Ask { tx: pre.sessions[other], closed: true })),
{
    let new = post.asks.skip(pre.asks.len() as int);
    if pre.sessions.contains_key(other) && !new.contains(
        (Ask { tx: pre.sessions[other], closed: true }),
    ) {
        law_open_session_stays(pre, Event::Received { remote, packet }, action, post, other);
    }
}

/// What became of a datagram whose remote has a session: `closed` tells what the channel of the
/// session answered when it was asked whether it is closed, and `accepted` whether it then took
/// the packet.
pub fn judge(closed: bool, accepted: bool) -> (handled: Handled)
    ensures
        handled is Cleaned <==> closed,
        handled is Delivered <==> !closed && accepted,
        handled is Jammed <==> !closed && !accepted,
{
    if closed {
        Handled::Cleaned
    } else if accepted {
        Handled::Delivered
    } else {
        Handled::Jammed
    }
}

#[derive(Clone, Copy, PartialEq, Eq, Structural)]
enum Phase {
    Receiving,
    Announcing,
    Forwarding,
    Stopped,
}

/// The first packet of a session, until the session has been announced.
struct First {
    tx: Sender<Vec<u8>>,
    packet: Vec<u8>,
}

/// Sorts datagrams into sessions.
pub struct UdpListener {
    table: SessionTable,
    log: ChannelLog,
    phase: Phase,
    first: Option<First>,
}

impl View for UdpListener {
    type V = ListenerState;

    closed spec fn view(&self) -> ListenerState {
        ListenerState {
            sessions: self.table@,
            stage: match self.phase {
                Phase::Receiving => Stage::Receiving,
                Phase::Announcing => Stage::Announcing {
                    tx: self.first->0.tx,
                    packet: self.first->0.packet@,
                },
                Phase::Forwarding => Stage::Forwarding,
                Phase::Stopped => Stage::Stopped,
            },
            made: self.log@.made,
            offers: self.log@.offers,
            asks: self.log@.asks,
        }
    }
}

impl UdpListener {
    /// What every listener keeps to.
    pub closed spec fn wf(&self) -> bool {
        &&& self.table.wf()
        &&& self@.wf()
        &&& self.phase is Announcing <==> self.first is Some
    }

    /// What every listener keeps to holds of what there is to say of it.
    pub proof fn law_state_is_wf(&self)
        requires
            self.wf(),
        ensures
            self@.wf(),
    {
    }

    /// A listener that knows no remote and is ready for a datagram.
    pub fn new() -> (listener: Self)
        ensures
            listener.wf(),
            listener@.sessions == Map::<Seq<char>, Sender<Vec<u8>>>::empty(),
            listener@.stage is Receiving,
            listener@.made == Set::<Sender<Vec<u8>>>::empty(),
            listener@.offers == Seq::<Offer>::empty(),
            listener@.asks == Seq::<Ask>::empty(),
    {
        UdpListener {
            table: SessionTable::new(),
            log: ChannelLog::new(),
            phase: Phase::Receiving,
            first: None,
        }
    }

    /// Takes a datagram of `size` bytes that was received into `buf` from `remote`.
    pub fn on_received(&mut self, remote: String, buf: Vec<u8>, size: usize) -> (action: Action)
        requires
            old(self).wf(),
            old(self)@.stage is Receiving,
        ensures
            final(self).wf(),
            old(self)@.receives(remote@, packet_in(buf@, size), action, final(self)@),
            if old(self)@.sessions.contains_key(remote@) {
                action is Receive && final(self)@.stage is Receiving
            } else {
                action is Announce && final(self)@.stage is Announcing
            },
    {
        let ghost event = Event::Received { remote: remote@, packet: packet_in(buf@, size) };
        let packet = received_packet(buf, size);
        let action = match self.table.get(remote.as_str()) {
            Some(tx) => {
                assert(old(self)@.sessions.contains_key(remote@));
                let closed = channel::is_closed(&mut self.log, tx);
                let accepted: bool = if closed {
                    false
                } else {
                    channel::offer(&mut self.log, tx, packet).is_ok()
                };
                let handled = judge(closed, accepted);
                if closed {
                    let ghost asked = self.log@.asks;
                    self.table.sweep(&mut self.log);
                    proof {
                        let last = asked.len() - 1;
                        assert(asked[last] == (Ask { tx: old(self)@.sessions[remote@], closed }));
                        assert(asked =~= self.log@.asks.subrange(0, asked.len() as int));
                        assert(swept(
                            old(self)@.sessions,
                            self@.sessions,
                            self.log@.asks.skip(last + 1),
                        )) by {
                            assert(self.log@.asks.skip(last + 1) =~= answers(
                                old(self).table.order(),
                                old(self)@.sessions,
                                self@.sessions,
                            ));
                        }
                    }
                }
                Action::Receive(handled)
            },
            None => {
                let (tx, rx) = self.table.open(&mut self.log, &remote, SESSION_BACKLOG);
                self.first = Some(First { tx, packet });
                self.phase = Phase::Announcing;
                Action::Announce(UdpSession { remote, rx })
            },
        };
        proof {
            law_step_keeps_wf(old(self)@, event, action, self@);
        }
        action
    }

    /// Takes an error of the socket.
    pub fn on_receive_error(&mut self) -> (action: Action)
        requires
            old(self).wf(),
            old(self)@.stage is Receiving,
        ensures
            final(self).wf(),
            old(self)@.fails(action, final(self)@),
            action is Stop,
            final(self)@ == (ListenerState { stage: Stage::Stopped, ..old(self)@ }),
    {
        self.phase = Phase::Stopped;
        Action::Stop
    }

    /// Takes whether the session could be put where it will be accepted.
    pub fn on_announced(&mut self, ok: bool) -> (action: Action)
        requires
            old(self).wf(),
            old(self)@.stage is Announcing,
        ensures
            final(self).wf(),
            old(self)@.announced(ok, action, final(self)@),
            if ok {
                action is Forward && final(self)@.stage is Forwarding
            } else {
                action is Panic && final(self)@.stage is Stopped
            },
    {
        let first = self.first.take();
        match first {
            Some(First { tx, packet }) if ok => {
                self.phase = Phase::Forwarding;
                Action::Forward(tx, packet)
            },
            _ => {
                self.phase = Phase::Stopped;
                Action::Panic
            },
        }
    }

    /// Takes whether the first packet of the session could be put into its channel.
    pub fn on_forwarded(&mut self, ok: bool) -> (action: Action)
        requires
            old(self).wf(),
            old(self)@.stage is Forwarding,
        ensures
            final(self).wf(),
            old(self)@.forwarded(ok, action, final(self)@),
            if ok {
                action is Receive && final(self)@.stage is Receiving
            } else {
                action is Panic && final(self)@.stage is Stopped
            },
    {
        let action = if ok {
            self.table.sweep(&mut self.log);
            proof {
                let asked = old(self)@.asks;
                assert(asked =~= self.log@.asks.subrange(0, asked.len() as int));
                assert(self.log@.asks.skip(asked.len() as int) =~= answers(
                    old(self).table.order(),
                    old(self)@.sessions,
                    self@.sessions,
                ));
            }
            self.phase = Phase::Receiving;
            Action::Receive(Handled::Cleaned)
        } else {
            self.phase = Phase::Stopped;
            Action::Panic
        };
        proof {
            law_step_keeps_wf(old(self)@, Event::Forwarded { ok }, action, self@);
        }
        action
    }
}

} // verus!
