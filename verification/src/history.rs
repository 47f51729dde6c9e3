//! What a listener does over time: which datagrams end up in which session.

use async_channel::Sender;
use vstd::prelude::*;

use crate::channel;
use crate::channel::Offer;
use crate::udp::{
    law_each_datagram_goes_by_the_answer_to_it, law_packets_fit_their_buffer,
    law_step_keeps_wf, law_the_record_only_grows, packet_in, Action, Event, Handled,
    ListenerState, Stage, UdpSession, UDP_MTU,
};

verus! {

/// One event, with what the listener made of it.
pub struct Turn {
    pub pre: ListenerState,
    pub event: Event,
    pub action: Action,
    pub post: ListenerState,
}

/// Whether the turns follow one from the other.
pub open spec fn is_run(turns: Seq<Turn>) -> bool {
    &&& forall|i: int|
        0 <= i < turns.len() ==> (#[trigger] turns[i]).pre.step(
            turns[i].event,
            turns[i].action,
            turns[i].post,
        )
    &&& forall|i: int, j: int|
        0 <= i && j == i + 1 && j < turns.len() ==> (#[trigger] turns[i]).post == (
        #[trigger] turns[j]).pre
}

/// The packets that were put into the channel of `tx`, out of those that were offered.
pub open spec fn accepted(offers: Seq<Offer>, tx: Sender<Vec<u8>>) -> Seq<Seq<u8>>
    decreases offers.len(),
{
    if offers.len() == 0 {
        Seq::empty()
    } else {
        let front = accepted(offers.drop_last(), tx);
        let last = offers.last();
        if last.tx == tx && last.accepted {
            front.push(last.packet)
        } else {
            front
        }
    }
}

/// The packets that one turn sends into the channel of `tx`: those that the listener puts there
/// itself, and the one that it has its caller put there.
pub open spec fn sent_by(turn: Turn, tx: Sender<Vec<u8>>) -> Seq<Seq<u8>> {
    let put = accepted(turn.post.offers.skip(turn.pre.offers.len() as int), tx);
    match turn.action {
        Action::Forward(to, bytes) => if to == tx {
            put.push(bytes@)
        } else {
            put
        },
        _ => put,
    }
}

/// The packets that a run sends into the channel of `tx`, in order.
pub open spec fn sent(turns: Seq<Turn>, tx: Sender<Vec<u8>>) -> Seq<Seq<u8>>
    decreases turns.len(),
{
    if turns.len() == 0 {
        Seq::empty()
    } else {
        sent(turns.drop_last(), tx) + sent_by(turns.last(), tx)
    }
}

/// The datagrams that came from `remote` in a run, in order.
pub open spec fn datagrams(turns: Seq<Turn>, remote: Seq<char>) -> Seq<Seq<u8>>
    decreases turns.len(),
{
    if turns.len() == 0 {
        Seq::empty()
    } else {
        let front = datagrams(turns.drop_last(), remote);
        match turns.last().event {
            Event::Received { remote: from, packet } => if from == remote {
                front.push(packet)
            } else {
                front
            },
            _ => front,
        }
    }
}

/// Whether `part` is what is left of `whole` when some of its items are left out.
pub open spec fn left_of<T>(part: Seq<T>, whole: Seq<T>) -> bool
    decreases whole.len(),
{
    if part.len() == 0 {
        true
    } else if whole.len() == 0 {
        false
    } else {
        ||| left_of(part, whole.drop_last())
        ||| part.last() == whole.last() && left_of(part.drop_last(), whole.drop_last())
    }
}

proof fn lemma_left_of_longer<T>(part: Seq<T>, whole: Seq<T>, item: T)
    requires
        left_of(part, whole),
    ensures
        left_of(part, whole.push(item)),
        left_of(part.push(item), whole.push(item)),
{
    assert(whole.push(item).drop_last() =~= whole);
    assert(part.push(item).drop_last() =~= part);
}

proof fn lemma_left_of_is_contained<T>(part: Seq<T>, whole: Seq<T>, i: int)
    requires
        left_of(part, whole),
        0 <= i < part.len(),
    ensures
        whole.contains(part[i]),
    decreases whole.len(),
{
    let front = whole.drop_last();
    if left_of(part, front) {
        lemma_left_of_is_contained(part, front, i);
        let k = choose|k: int| 0 <= k < front.len() && front[k] == part[i];
        assert(whole[k] == part[i]);
    } else if i == part.len() - 1 {
        assert(whole[whole.len() - 1] == part[i]);
    } else {
        lemma_left_of_is_contained(part.drop_last(), front, i);
        let k = choose|k: int| 0 <= k < front.len() && front[k] == part[i];
        assert(whole[k] == part[i]);
    }
}

/// One turn sends at most one packet, and into one channel.
proof fn lemma_one_turn(turn: Turn, tx: Sender<Vec<u8>>)
    requires
        turn.pre.step(turn.event, turn.action, turn.post),
    ensures
        sent_by(turn, tx) == match turn.action {
            Action::Forward(to, bytes) if to == tx => seq![bytes@],
            _ => if turn.post.offers != turn.pre.offers && turn.post.offers.last().tx == tx
                && turn.post.offers.last().accepted {
                seq![turn.post.offers.last().packet]
            } else {
                Seq::empty()
            },
        },
{
    let new = turn.post.offers.skip(turn.pre.offers.len() as int);
    if turn.post.offers == turn.pre.offers {
        assert(new =~= Seq::<Offer>::empty());
        assert(accepted(new, tx) =~= Seq::<Seq<u8>>::empty());
    } else {
        let offer = turn.post.offers.last();
        assert(turn.post.offers == turn.pre.offers.push(offer));
        assert(new =~= seq![offer]);
        assert(new.drop_last() =~= Seq::<Offer>::empty());
        assert(accepted(new.drop_last(), tx) =~= Seq::<Seq<u8>>::empty());
        assert(!(turn.action is Forward));
    }
    assert(sent_by(turn, tx) =~= match turn.action {
        Action::Forward(to, bytes) if to == tx => seq![bytes@],
        _ => if turn.post.offers != turn.pre.offers && turn.post.offers.last().tx == tx
            && turn.post.offers.last().accepted {
            seq![turn.post.offers.last().packet]
        } else {
            Seq::empty()
        },
    });
}

/// Where a run stands with a session that its first turn has opened for `remote` over the channel
/// of `tx`: the channel is the session's for good, and what was sent into it are datagrams of
/// the remote. While the session is to be announced, its first datagram is still to be sent.
spec fn serves(turns: Seq<Turn>, remote: Seq<char>, tx: Sender<Vec<u8>>) -> bool {
    let now = turns.last().post;
    &&& now.wf()
    &&& now.made.contains(tx)
    &&& forall|r: Seq<char>| #[trigger]
        now.sessions.contains_key(r) && now.sessions[r] == tx ==> r == remote
    &&& match now.stage {
        Stage::Announcing { tx: next, packet } if next == tx => {
            &&& datagrams(turns, remote).len() > 0
            &&& datagrams(turns, remote).last() == packet
            &&& left_of(sent(turns, tx), datagrams(turns, remote).drop_last())
        },
        _ => left_of(sent(turns, tx), datagrams(turns, remote)),
    }
}

proof fn lemma_serves(
    turns: Seq<Turn>,
    remote: Seq<char>,
    packet: Seq<u8>,
    tx: Sender<Vec<u8>>,
)
    requires
        is_run(turns),
        turns.len() > 0,
        turns[0].pre.wf(),
        (turns[0].event == Event::Received { remote, packet }),
        turns[0].action matches Action::Announce(session) && channel::sending_end(session.rx())
            == tx,
    ensures
        serves(turns, remote, tx),
    decreases turns.len(),
{
    let turn = turns.last();
    let before = turns.drop_last();
    assert(turn == turns[turns.len() - 1]);
    lemma_one_turn(turn, tx);
    if turns.len() == 1 {
        law_step_keeps_wf(turn.pre, turn.event, turn.action, turn.post);
        assert(before =~= Seq::<Turn>::empty());
        assert(sent(before, tx) =~= Seq::<Seq<u8>>::empty());
        assert(sent(turns, tx) =~= Seq::<Seq<u8>>::empty());
        assert(datagrams(before, remote) =~= Seq::<Seq<u8>>::empty());
        assert(datagrams(turns, remote).last() == packet);
        assert forall|r: Seq<char>| #[trigger]
            turn.post.sessions.contains_key(r) && turn.post.sessions[r] == tx implies r == remote by {
            if r != remote {
                assert(turn.pre.sessions.contains_key(r));
            }
        }
    } else {
        assert(is_run(before)) by {
            assert forall|i: int| 0 <= i < before.len() implies (#[trigger] before[i]).pre.step(
                before[i].event,
                before[i].action,
                before[i].post,
            ) by {
                assert(before[i] == turns[i]);
            }
            assert forall|i: int, j: int| 0 <= i && j == i + 1 && j < before.len() implies (
            #[trigger] before[i]).post == (#[trigger] before[j]).pre by {
                assert(before[i] == turns[i] && before[j] == turns[j]);
            }
        }
        lemma_serves(before, remote, packet, tx);
        assert(turns[turns.len() - 2].post == turns[turns.len() - 1].pre);
        assert(before.last() == turns[turns.len() - 2]);
        let pre = turn.pre;
        let post = turn.post;
        law_step_keeps_wf(pre, turn.event, turn.action, post);
        assert forall|r: Seq<char>| #[trigger]
            post.sessions.contains_key(r) && post.sessions[r] == tx implies r == remote by {
            if !pre.sessions.contains_key(r) {
                assert(!pre.made.contains(post.sessions[r]));
            }
        }
        let sent_before = sent(before, tx);
        let came_before = datagrams(before, remote);
        match turn.event {
            Event::Received { remote: from, packet: bytes } => {
                lemma_left_of_longer(sent_before, came_before, bytes);
                if pre.sessions.contains_key(from) && pre.sessions[from] == tx {
                    assert(from == remote);
                }
                if turn.action == Action::Receive(Handled::Delivered)
                    && pre.sessions[from] == tx {
                    assert(sent(turns, tx) =~= sent_before.push(bytes));
                } else {
                    assert(sent(turns, tx) =~= sent_before);
                }
            },
            Event::Announced { ok } => {
                assert(datagrams(turns, remote) == came_before);
                if let Action::Forward(to, bytes) = turn.action {
                    if to == tx {
                        lemma_left_of_longer(sent_before, came_before.drop_last(), bytes@);
                        assert(came_before.drop_last().push(bytes@) =~= came_before);
                        assert(sent(turns, tx) =~= sent_before.push(bytes@));
                    } else {
                        assert(sent(turns, tx) =~= sent_before);
                    }
                } else {
                    assert(sent(turns, tx) =~= sent_before);
                    if came_before.len() > 0 {
                        let last = came_before.last();
                        assert(came_before.drop_last().push(last) =~= came_before);
                        if left_of(sent_before, came_before.drop_last()) {
                            lemma_left_of_longer(sent_before, came_before.drop_last(), last);
                        }
                    }
                }
            },
            _ => {
                assert(sent(turns, tx) =~= sent_before);
            },
        }
    }
}

/// Each session gets the datagrams of its own remote and nothing else: what is sent into the
/// channel of a session, from the turn on that opens it, are datagrams that have come from its
/// remote since, unchanged, in the order in which they came, and none more often than it came.
pub proof fn law_sessions_get_the_datagrams_of_their_remote(
    turns: Seq<Turn>,
    remote: Seq<char>,
    packet: Seq<u8>,
    session: UdpSession,
)
    requires
        is_run(turns),
        turns.len() > 0,
        turns[0].pre.wf(),
        (turns[0].event == Event::Received { remote, packet }),
        turns[0].action == Action::Announce(session),
    ensures
        session.remote() == remote,
        left_of(sent(turns, channel::sending_end(session.rx())), datagrams(turns, remote)),
{
    let tx = channel::sending_end(session.rx());
    lemma_serves(turns, remote, packet, tx);
    let came = datagrams(turns, remote);
    if let Stage::Announcing { tx: next, packet: waiting } = turns.last().post.stage {
        if next == tx {
            lemma_left_of_longer(sent(turns, tx), came.drop_last(), waiting);
            assert(came.drop_last().push(waiting) =~= came);
        }
    }
    assert(turns[0].pre.step(turns[0].event, turns[0].action, turns[0].post));
}

/// No packet of a session is longer than the datagrams of its remote: where none of these has more
/// than `limit` bytes, none of what is sent into the session has.
pub proof fn law_session_packets_are_no_longer_than_the_datagrams(
    turns: Seq<Turn>,
    remote: Seq<char>,
    packet: Seq<u8>,
    session: UdpSession,
    limit: nat,
)
    requires
        is_run(turns),
        turns.len() > 0,
        turns[0].pre.wf(),
        (turns[0].event == Event::Received { remote, packet }),
        turns[0].action == Action::Announce(session),
        forall|i: int|
            0 <= i < datagrams(turns, remote).len() ==> (#[trigger] datagrams(
                turns,
                remote,
            )[i]).len() <= limit,
    ensures
        forall|i: int|
            0 <= i < sent(turns, channel::sending_end(session.rx())).len() ==> (#[trigger] sent(
                turns,
                channel::sending_end(session.rx()),
            )[i]).len() <= limit,
{
    let put = sent(turns, channel::sending_end(session.rx()));
    let came = datagrams(turns, remote);
    law_sessions_get_the_datagrams_of_their_remote(turns, remote, packet, session);
    assert forall|i: int| 0 <= i < put.len() implies (#[trigger] put[i]).len() <= limit by {
        lemma_left_of_is_contained(put, came, i);
        let k = choose|k: int| 0 <= k < came.len() && came[k] == put[i];
        assert(came[k].len() <= limit);
    }
}

/// Whether every datagram of a run was received into a buffer of the size of a `packet_buffer`.
pub open spec fn received_into_packet_buffers(turns: Seq<Turn>) -> bool {
    forall|i: int|
        #![trigger turns[i]]
        0 <= i < turns.len() ==> (turns[i].event matches Event::Received { packet, .. }
            ==> exists|buf: Seq<u8>, size: usize|
            buf.len() == UDP_MTU && packet == #[trigger] packet_in(buf, size))
}

proof fn lemma_datagrams_fit(turns: Seq<Turn>, remote: Seq<char>)
    requires
        received_into_packet_buffers(turns),
    ensures
        forall|i: int|
            0 <= i < datagrams(turns, remote).len() ==> (#[trigger] datagrams(
                turns,
                remote,
            )[i]).len() <= UDP_MTU,
    decreases turns.len(),
{
    if turns.len() > 0 {
        let before = turns.drop_last();
        assert(received_into_packet_buffers(before)) by {
            assert forall|i: int|
                #![trigger before[i]]
                0 <= i < before.len() implies (before[i].event matches Event::Received {
                packet,
                ..
            } ==> exists|buf: Seq<u8>, size: usize|
                buf.len() == UDP_MTU && packet == #[trigger] packet_in(buf, size)) by {
                assert(before[i] == turns[i]);
            }
        }
        lemma_datagrams_fit(before, remote);
        assert(turns.last() == turns[turns.len() - 1]);
        if let Event::Received { remote: from, packet } = turns.last().event {
            let (buf, size) = choose|buf: Seq<u8>, size: usize|
                buf.len() == UDP_MTU && packet == #[trigger] packet_in(buf, size);
            law_packets_fit_their_buffer(buf, size);
        }
        let came = datagrams(turns, remote);
        let came_before = datagrams(before, remote);
        assert forall|i: int| 0 <= i < came.len() implies (#[trigger] came[i]).len() <= UDP_MTU by {
            if i < came_before.len() {
                assert(came[i] == came_before[i]);
            }
        }
    }
}

/// A listener whose datagrams are received into packet buffers sends no packet of more than
/// [`UDP_MTU`] bytes into a session.
pub proof fn law_session_packets_fit_the_mtu(
    turns: Seq<Turn>,
    remote: Seq<char>,
    packet: Seq<u8>,
    session: UdpSession,
)
    requires
        is_run(turns),
        turns.len() > 0,
        turns[0].pre.wf(),
        (turns[0].event == Event::Received { remote, packet }),
        turns[0].action == Action::Announce(session),
        received_into_packet_buffers(turns),
    ensures
        forall|i: int|
            0 <= i < sent(turns, channel::sending_end(session.rx())).len() ==> (#[trigger] sent(
                turns,
                channel::sending_end(session.rx()),
            )[i]).len() <= UDP_MTU,
{
    lemma_datagrams_fit(turns, remote);
    law_session_packets_are_no_longer_than_the_datagrams(
        turns,
        remote,
        packet,
        session,
        UDP_MTU as nat,
    );
}

/// Whether the channel of `tx` is closed throughout a run: whenever it is asked, it says so.
pub open spec fn closed_throughout(turns: Seq<Turn>, tx: Sender<Vec<u8>>) -> bool {
    forall|i: int, k: int|
        #![trigger turns[i].post.asks[k]]
        0 <= i < turns.len() && turns[i].pre.asks.len() <= k < turns[i].post.asks.len()
            && turns[i].post.asks[k].tx == tx ==> turns[i].post.asks[k].closed
}

/// Whether the datagram of a turn, if it has one, comes from `remote`.
pub open spec fn comes_from(turn: Turn, remote: Seq<char>) -> bool {
    turn.event matches Event::Received { remote: from, .. } && from == remote
}

proof fn lemma_run_keeps_wf(turns: Seq<Turn>, i: int)
    requires
        is_run(turns),
        0 <= i < turns.len(),
        turns[0].pre.wf(),
    ensures
        turns[i].pre.wf(),
        turns[0].pre.made.subset_of(turns[i].pre.made),
    decreases i,
{
    if i > 0 {
        let turn = turns[i - 1];
        lemma_run_keeps_wf(turns, i - 1);
        assert(turn.pre.step(turn.event, turn.action, turn.post));
        law_step_keeps_wf(turn.pre, turn.event, turn.action, turn.post);
        law_the_record_only_grows(turn.pre, turn.event, turn.action, turn.post);
        assert(turns[i - 1].post == turns[i].pre);
    }
}

/// A remote without a session has none until a datagram comes from it.
proof fn lemma_stays_unknown(turns: Seq<Turn>, early: int, late: int, remote: Seq<char>)
    requires
        is_run(turns),
        0 <= early <= late < turns.len(),
        !turns[early].pre.sessions.contains_key(remote),
        forall|k: int| early <= k < late ==> !comes_from(#[trigger] turns[k], remote),
    ensures
        !turns[late].pre.sessions.contains_key(remote),
    decreases late - early,
{
    if early < late {
        let turn = turns[early];
        assert(turn.pre.step(turn.event, turn.action, turn.post));
        assert(!comes_from(turns[early], remote));
        assert(turns[early].post == turns[early + 1].pre);
        lemma_stays_unknown(turns, early + 1, late, remote);
    }
}

/// A session that is closed is noticed by the next datagram of its remote, and loses that one
/// only: with it the session is dropped, and the datagram of that remote that follows opens a new
/// session, over another channel.
pub proof fn law_one_datagram_at_most_is_lost_to_a_closed_session(
    turns: Seq<Turn>,
    remote: Seq<char>,
    tx: Sender<Vec<u8>>,
    lost: int,
    next: int,
)
    requires
        is_run(turns),
        turns.len() > 0,
        turns[0].pre.wf(),
        closed_throughout(turns, tx),
        0 <= lost < next < turns.len(),
        comes_from(turns[lost], remote),
        comes_from(turns[next], remote),
        forall|k: int| lost < k < next ==> !comes_from(#[trigger] turns[k], remote),
        turns[lost].pre.sessions.contains_key(remote),
        turns[lost].pre.sessions[remote] == tx,
    ensures
        turns[lost].action == Action::Receive(Handled::Cleaned),
        !turns[lost].post.sessions.contains_key(remote),
        turns[next].action matches Action::Announce(session) && {
            &&& session.remote() == remote
            &&& channel::sending_end(session.rx()) != tx
            &&& !channel::told_to_close(session.rx())
        },
{
    let turn = turns[lost];
    assert(turn.pre.step(turn.event, turn.action, turn.post));
    law_each_datagram_goes_by_the_answer_to_it(
        turn.pre,
        remote,
        turn.event->packet,
        turn.action,
        turn.post,
    );
    assert(turns[lost].post.asks[turn.pre.asks.len() as int].closed);
    assert(turns[lost].post == turns[lost + 1].pre);
    lemma_stays_unknown(turns, lost + 1, next, remote);
    lemma_run_keeps_wf(turns, lost);
    assert(turn.pre.made.contains(tx));
    law_the_record_only_grows(turn.pre, turn.event, turn.action, turn.post);
    lemma_made_stays(turns, lost, next, tx);
    let opening = turns[next];
    assert(opening.pre.step(opening.event, opening.action, opening.post));
}

/// Nothing is sent into the channel of a closed session whose first packet is in, not even what
/// comes for a session that its remote has opened since.
pub proof fn law_a_closed_session_gets_nothing_more(
    turns: Seq<Turn>,
    remote: Seq<char>,
    tx: Sender<Vec<u8>>,
)
    requires
        is_run(turns),
        turns.len() > 0,
        turns[0].pre.wf(),
        turns[0].pre.stage is Receiving,
        turns[0].pre.sessions.contains_key(remote),
        turns[0].pre.sessions[remote] == tx,
        closed_throughout(turns, tx),
    ensures
        sent(turns, tx) == Seq::<Seq<u8>>::empty(),
{
    assert(turns[0].pre.made.contains(tx));
    lemma_closed_gets_nothing(turns, tx, turns.len() as int);
    assert(turns.take(turns.len() as int) =~= turns);
}

proof fn lemma_closed_gets_nothing(turns: Seq<Turn>, tx: Sender<Vec<u8>>, n: int)
    requires
        is_run(turns),
        0 <= n <= turns.len(),
        turns.len() > 0,
        turns[0].pre.wf(),
        turns[0].pre.stage is Receiving,
        turns[0].pre.made.contains(tx),
        closed_throughout(turns, tx),
    ensures
        sent(turns.take(n), tx) == Seq::<Seq<u8>>::empty(),
        n < turns.len() ==> (turns[n].pre.stage matches Stage::Announcing { tx: next, .. } ==> next
            != tx),
    decreases n,
{
    if n == 0 {
        assert(sent(turns.take(0), tx) =~= Seq::<Seq<u8>>::empty());
    } else {
        lemma_closed_gets_nothing(turns, tx, n - 1);
        let turn = turns[n - 1];
        assert(turn.pre.step(turn.event, turn.action, turn.post));
        lemma_run_keeps_wf(turns, n - 1);
        assert(turns.take(n).drop_last() =~= turns.take(n - 1));
        assert(turns.take(n).last() == turn);
        if let Event::Received { remote: from, packet } = turn.event {
            if turn.pre.sessions.contains_key(from) {
                law_each_datagram_goes_by_the_answer_to_it(
                    turn.pre,
                    from,
                    packet,
                    turn.action,
                    turn.post,
                );
                if turn.pre.sessions[from] == tx {
                    assert(turns[n - 1].post.asks[turn.pre.asks.len() as int].closed);
                }
            }
        }
        lemma_one_turn(turn, tx);
        assert(sent_by(turn, tx) =~= Seq::<Seq<u8>>::empty());
        assert(sent(turns.take(n), tx) =~= Seq::<Seq<u8>>::empty());
        if n < turns.len() {
            assert(turns[n - 1].post == turns[n].pre);
        }
    }
}

/// A datagram goes to one session at most: a turn that sends something into one channel sends
/// nothing into any other, and never more than one packet.
pub proof fn law_a_turn_sends_to_one_channel_at_most(
    turn: Turn,
    one: Sender<Vec<u8>>,
    other: Sender<Vec<u8>>,
)
    requires
        turn.pre.step(turn.event, turn.action, turn.post),
        one != other,
    ensures
        sent_by(turn, one).len() <= 1,
        sent_by(turn, one).len() == 0 || sent_by(turn, other).len() == 0,
{
    lemma_one_turn(turn, one);
    lemma_one_turn(turn, other);
}

/// The channel of a session is the session's alone for good: whatever session is opened later,
/// for the same remote or another, has a channel of its own.
pub proof fn law_no_channel_serves_twice(
    turns: Seq<Turn>,
    early: int,
    late: int,
    first: UdpSession,
    second: UdpSession,
)
    requires
        is_run(turns),
        0 <= early < late < turns.len(),
        turns[early].event is Received,
        turns[early].action == Action::Announce(first),
        turns[late].event is Received,
        turns[late].action == Action::Announce(second),
    ensures
        channel::sending_end(first.rx()) != channel::sending_end(second.rx()),
{
    let tx = channel::sending_end(first.rx());
    assert(turns[early].pre.step(turns[early].event, turns[early].action, turns[early].post));
    assert(turns[early].post.made.contains(tx));
    lemma_made_stays(turns, early, late, tx);
    assert(turns[late].pre.step(turns[late].event, turns[late].action, turns[late].post));
}

proof fn lemma_made_stays(turns: Seq<Turn>, early: int, late: int, tx: Sender<Vec<u8>>)
    requires
        is_run(turns),
        0 <= early < late < turns.len(),
        turns[early].post.made.contains(tx),
    ensures
        turns[late].pre.made.contains(tx),
    decreases late - early,
{
    assert(turns[early].post == turns[early + 1].pre);
    if early + 1 < late {
        let next = turns[early + 1];
        assert(next.pre.step(next.event, next.action, next.post));
        lemma_made_stays(turns, early + 1, late, tx);
    }
}

} // verus!
