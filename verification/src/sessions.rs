//! The table of the sessions that a UDP listener keeps: one packet channel per remote address.

use async_channel::{Receiver, Sender};
use vstd::hash_map::StringHashMap;
use vstd::prelude::*;

use crate::channel;
use crate::channel::{Ask, Calls, ChannelLog};

verus! {

/// The remote addresses, written out as text, with the sending end of each one's packet channel.
pub struct SessionTable {
    by_remote: StringHashMap<Sender<Vec<u8>>>,
    remotes: Vec<String>,
}

/// The remotes at whose place `closed` is set.
pub open spec fn marked(order: Seq<Seq<char>>, closed: Seq<bool>) -> Set<Seq<char>> {
    Set::new(
        |remote: Seq<char>|
            exists|i: int|
                0 <= i < order.len() && i < closed.len() && closed[i] && #[trigger] order[i]
                    == remote,
    )
}

/// The remotes at whose place `closed` is not set, in the order in which they stood.
pub open spec fn unmarked(order: Seq<Seq<char>>, closed: Seq<bool>) -> Seq<Seq<char>>
    decreases order.len(),
{
    if order.len() == 0 {
        Seq::empty()
    } else {
        let rest = unmarked(order.drop_last(), closed);
        if closed[order.len() - 1] {
            rest
        } else {
            rest.push(order.last())
        }
    }
}

/// Whether `order` lists the remotes of `sessions`, each once.
pub open spec fn lists(order: Seq<Seq<char>>, sessions: Map<Seq<char>, Sender<Vec<u8>>>) -> bool {
    &&& order.no_duplicates()
    &&& forall|remote: Seq<char>| #[trigger]
        order.contains(remote) <==> sessions.contains_key(remote)
}

/// The questions, one to the channel of each remote of `order`, with the answers by which the
/// sessions `post` are what is left of the sessions `pre`.
pub open spec fn answers(
    order: Seq<Seq<char>>,
    pre: Map<Seq<char>, Sender<Vec<u8>>>,
    post: Map<Seq<char>, Sender<Vec<u8>>>,
) -> Seq<Ask> {
    order.map_values(
        |remote: Seq<char>| (Ask { tx: pre[remote], closed: !post.contains_key(remote) }),
    )
}

/// What a sweep makes of a table, given the questions that it has asked: it has asked the channel
/// of every session once, in some order, whether it is closed; the sessions of those that said
/// yes are gone, and the others stay as they were.
pub open spec fn swept(
    pre: Map<Seq<char>, Sender<Vec<u8>>>,
    post: Map<Seq<char>, Sender<Vec<u8>>>,
    asks: Seq<Ask>,
) -> bool {
    &&& forall|remote: Seq<char>| #[trigger]
        post.contains_key(remote) ==> pre.contains_key(remote) && post[remote] == pre[remote]
    &&& exists|order: Seq<Seq<char>>|
        lists(order, pre) && asks == #[trigger] answers(order, pre, post)
}

/// Whoever is gone after a sweep was asked in it and said that it is closed; whoever is still
/// there was asked and said that it is not.
pub proof fn law_a_sweep_goes_by_its_answers(
    pre: Map<Seq<char>, Sender<Vec<u8>>>,
    post: Map<Seq<char>, Sender<Vec<u8>>>,
    asks: Seq<Ask>,
    remote: Seq<char>,
)
    requires
        swept(pre, post, asks),
        pre.contains_key(remote),
    ensures
        asks.contains((Ask { tx: pre[remote], closed: !post.contains_key(remote) })),
{
    let order = choose|order: Seq<Seq<char>>|
        lists(order, pre) && asks == #[trigger] answers(order, pre, post);
    assert(order.contains(remote));
    let i = choose|i: int| 0 <= i < order.len() && order[i] == remote;
    assert(asks[i] == (Ask { tx: pre[remote], closed: !post.contains_key(remote) }));
}

/// A sweep asks as often as there are sessions, and nobody but the channels of the sessions: since
/// every session is asked, each is asked once.
pub proof fn law_a_sweep_asks_each_session_once(
    pre: Map<Seq<char>, Sender<Vec<u8>>>,
    post: Map<Seq<char>, Sender<Vec<u8>>>,
    asks: Seq<Ask>,
)
    requires
        swept(pre, post, asks),
    ensures
        asks.len() == pre.dom().len(),
        forall|i: int| 0 <= i < asks.len() ==> pre.contains_value((#[trigger] asks[i]).tx),
{
    let order = choose|order: Seq<Seq<char>>|
        lists(order, pre) && asks == #[trigger] answers(order, pre, post);
    order.unique_seq_to_set();
    assert forall|remote: Seq<char>| #[trigger]
        order.to_set().contains(remote) <==> pre.dom().contains(remote) by {
        assert(order.contains(remote) <==> pre.contains_key(remote));
    }
    assert(order.to_set() =~= pre.dom());
    assert forall|i: int| 0 <= i < asks.len() implies pre.contains_value(
        (#[trigger] asks[i]).tx,
    ) by {
        assert(order.contains(order[i]));
        assert(pre.contains_key(order[i]) && pre[order[i]] == asks[i].tx);
    }
}

/// Of remotes that are listed once each, exactly those go at whose place the mark is set; the
/// others stay, none twice, and nobody comes in.
pub proof fn law_marks_go_by_place(order: Seq<Seq<char>>, closed: Seq<bool>, place: int)
    requires
        order.no_duplicates(),
        closed.len() == order.len(),
        0 <= place < order.len(),
    ensures
        marked(order, closed).contains(order[place]) <==> closed[place],
        unmarked(order, closed).contains(order[place]) <==> !closed[place],
        forall|remote: Seq<char>|
            marked(order, closed).contains(remote) || unmarked(order, closed).contains(remote)
                ==> order.contains(remote),
        unmarked(order, closed).no_duplicates(),
{
    lemma_unmarked(order, closed);
    assert(order.contains(order[place]));
    if marked(order, closed).contains(order[place]) {
        let i = choose|i: int|
            0 <= i < order.len() && i < closed.len() && closed[i] && #[trigger] order[i]
                == order[place];
        assert(i == place);
    }
}

/// One more remote, behind the others, changes nothing for these: it comes last if its mark is not
/// set, and is left out if it is.
pub proof fn law_what_stays_keeps_its_order(
    order: Seq<Seq<char>>,
    closed: Seq<bool>,
    remote: Seq<char>,
)
    ensures
        unmarked(Seq::empty(), closed) == Seq::<Seq<char>>::empty(),
        unmarked(order.push(remote), closed) == if closed[order.len() as int] {
            unmarked(order, closed)
        } else {
            unmarked(order, closed).push(remote)
        },
{
    assert(order.push(remote).drop_last() =~= order);
}

/// What stays after [`unmarked`] is what was there and is not [`marked`], nothing twice.
proof fn lemma_unmarked(order: Seq<Seq<char>>, closed: Seq<bool>)
    requires
        order.no_duplicates(),
        order.len() <= closed.len(),
    ensures
        unmarked(order, closed).no_duplicates(),
        forall|remote: Seq<char>|
            unmarked(order, closed).contains(remote) <==> order.contains(remote) && !marked(
                order,
                closed,
            ).contains(remote),
    decreases order.len(),
{
    if order.len() > 0 {
        let front = order.drop_last();
        let last = order.last();
        let n = order.len() - 1;
        lemma_unmarked(front, closed);
        let rest = unmarked(front, closed);
        let all = unmarked(order, closed);
        assert(!front.contains(last)) by {
            if front.contains(last) {
                let i = choose|i: int| 0 <= i < front.len() && front[i] == last;
                assert(order[i] == order[n]);
            }
        }
        assert(order[n] == last);
        assert forall|remote: Seq<char>|
            all.contains(remote) <==> order.contains(remote) && !marked(order, closed).contains(
                remote,
            ) by {
            assert(order.contains(remote) <==> front.contains(remote) || remote == last) by {
                if front.contains(remote) {
                    let i = choose|i: int| 0 <= i < front.len() && front[i] == remote;
                    assert(order[i] == remote);
                }
                if order.contains(remote) && remote != last {
                    let i = choose|i: int| 0 <= i < order.len() && order[i] == remote;
                    assert(front[i] == remote);
                }
            }
            assert(marked(order, closed).contains(remote) <==> marked(front, closed).contains(
                remote,
            ) || (closed[n] && remote == last)) by {
                if marked(front, closed).contains(remote) {
                    let i = choose|i: int|
                        0 <= i < front.len() && i < closed.len() && closed[i] && #[trigger] front[i]
                            == remote;
                    assert(order[i] == remote);
                }
                if marked(order, closed).contains(remote) && !(closed[n] && remote == last) {
                    let i = choose|i: int|
                        0 <= i < order.len() && i < closed.len() && closed[i] && #[trigger] order[i]
                            == remote;
                    assert(front[i] == remote);
                }
            }
            assert(marked(front, closed).contains(remote) ==> front.contains(remote));
            if !closed[n] {
                assert(all.contains(remote) <==> rest.contains(remote) || remote == last) by {
                    if rest.contains(remote) {
                        let i = choose|i: int| 0 <= i < rest.len() && rest[i] == remote;
                        assert(all[i] == remote);
                    }
                    assert(all[rest.len() as int] == last);
                    if all.contains(remote) && remote != last {
                        let i = choose|i: int| 0 <= i < all.len() && all[i] == remote;
                        assert(rest[i] == remote);
                    }
                }
            }
        }
        assert(all.no_duplicates()) by {
            assert(!rest.contains(last));
            if !closed[n] {
                assert forall|i: int, j: int|
                    0 <= i < all.len() && 0 <= j < all.len() && i != j implies all[i] != all[j] by {
                    if i == rest.len() {
                        assert(rest.contains(rest[j]));
                    } else if j == rest.len() {
                        assert(rest.contains(rest[i]));
                    }
                }
            }
        }
    }
}

impl View for SessionTable {
    type V = Map<Seq<char>, Sender<Vec<u8>>>;

    closed spec fn view(&self) -> Self::V {
        self.by_remote@
    }
}

impl SessionTable {
    /// The remotes in the order in which their sessions were opened.
    pub closed spec fn order(&self) -> Seq<Seq<char>> {
        self.remotes@.map_values(|remote: String| remote@)
    }

    /// Every session stands in the order, once.
    pub open spec fn wf(&self) -> bool {
        lists(self.order(), self@)
    }

    /// A table without sessions.
    pub fn new() -> (table: Self)
        ensures
            table.wf(),
            table@ == Map::<Seq<char>, Sender<Vec<u8>>>::empty(),
            table.order() == Seq::<Seq<char>>::empty(),
    {
        let table = SessionTable { by_remote: StringHashMap::new(), remotes: Vec::new() };
        assert(table.order() =~= Seq::<Seq<char>>::empty());
        table
    }

    /// The channel of a remote, if it has a session.
    pub fn get(&self, remote: &str) -> (tx: Option<&Sender<Vec<u8>>>)
        ensures
            match tx {
                Some(tx) => self@.contains_key(remote@) && *tx == self@[remote@],
                None => !self@.contains_key(remote@),
            },
    {
        self.by_remote.get(remote)
    }

    /// Opens a session for a remote that has none, over a new channel with room for `room`
    /// packets, and hands out the two ends of the channel.
    pub fn open(&mut self, log: &mut ChannelLog, remote: &String, room: usize) -> (ends: (
        Sender<Vec<u8>>,
        Receiver<Vec<u8>>,
    ))
        requires
            old(self).wf(),
            !old(self)@.contains_key(remote@),
            0 < room <= 0xffff,
        ensures
            final(self).wf(),
            final(self)@ == old(self)@.insert(remote@, ends.0),
            final(self).order() == old(self).order().push(remote@),
            !old(log)@.made.contains(ends.0),
            final(log)@ == (Calls { made: old(log)@.made.insert(ends.0), ..old(log)@ }),
            channel::sending_end(ends.1) == ends.0,
            channel::capacity(ends.0) == room,
            !channel::told_to_close(ends.1),
    {
        let (tx, rx) = channel::packet_channel(log, room);
        self.insert(remote.clone(), channel::second_handle(&tx));
        (tx, rx)
    }

    /// Enters a session for a remote that has none.
    pub fn insert(&mut self, remote: String, tx: Sender<Vec<u8>>)
        requires
            old(self).wf(),
            !old(self)@.contains_key(remote@),
        ensures
            final(self).wf(),
            final(self)@ == old(self)@.insert(remote@, tx),
            final(self).order() == old(self).order().push(remote@),
    {
        let ghost order = self.order();
        self.remotes.push(remote.clone());
        self.by_remote.insert(remote, tx);
        proof {
            assert(self.order() =~= order.push(remote@));
            assert(!order.contains(remote@));
            assert forall|r: Seq<char>| #[trigger]
                self.order().contains(r) <==> self@.contains_key(r) by {
                assert(self.order()[order.len() as int] == remote@);
                if order.contains(r) {
                    let i = choose|i: int| 0 <= i < order.len() && order[i] == r;
                    assert(self.order()[i] == r);
                }
                if self.order().contains(r) && r != remote@ {
                    let i = choose|i: int| 0 <= i < self.order().len() && self.order()[i] == r;
                    assert(order[i] == r);
                }
            }
            assert forall|i: int, j: int|
                0 <= i < self.order().len() && 0 <= j < self.order().len() && i
                    != j implies self.order()[i] != self.order()[j] by {
                if i == order.len() {
                    assert(order.contains(order[j]));
                } else if j == order.len() {
                    assert(order.contains(order[i]));
                }
            }
        }
    }

    /// Removes the sessions at whose place in the order `closed` is set, and no others.
    pub fn retain_open(&mut self, closed: &Vec<bool>)
        requires
            old(self).wf(),
            closed@.len() == old(self).order().len(),
        ensures
            final(self).wf(),
            final(self)@ == old(self)@.remove_keys(marked(old(self).order(), closed@)),
            final(self).order() == unmarked(old(self).order(), closed@),
            forall|i: int|
                #![trigger old(self).order()[i]]
                0 <= i < closed@.len() ==> (final(self)@.contains_key(old(self).order()[i])
                    <==> !closed@[i]),
            forall|remote: Seq<char>| #[trigger]
                final(self)@.contains_key(remote) ==> old(self)@.contains_key(remote)
                    && final(self)@[remote] == old(self)@[remote],
    {
        let ghost order = self.order();
        let ghost pre = self@;
        let mut kept: Vec<String> = Vec::new();
        let mut i: usize = 0;
        assert(order.take(0) =~= Seq::<Seq<char>>::empty());
        assert(kept@.map_values(|remote: String| remote@) =~= unmarked(order.take(0), closed@));
        assert(self@ =~= pre.remove_keys(marked(order.take(0), closed@)));
        while i < self.remotes.len()
            invariant
                i <= self.remotes.len(),
                self.order() == order,
                closed@.len() == order.len(),
                order.len() == self.remotes.len(),
                kept@.map_values(|remote: String| remote@) == unmarked(
                    order.take(i as int),
                    closed@,
                ),
                self@ == pre.remove_keys(marked(order.take(i as int), closed@)),
            decreases self.remotes.len() - i,
        {
            let ghost front = order.take(i as int);
            let ghost next = order.take(i + 1);
            let ghost kept_before = kept@;
            let ghost before = self@;
            proof {
                assert(next.drop_last() =~= front);
                assert(next.last() == order[i as int]);
                assert(order[i as int] == self.remotes@[i as int]@);
            }
            if closed[i] {
                self.by_remote.remove(self.remotes[i].as_str());
            } else {
                kept.push(self.remotes[i].clone());
            }
            proof {
                let views = |remote: String| remote@;
                assert(kept@.map_values(views) =~= unmarked(next, closed@)) by {
                    if !closed[i as int] {
                        assert(kept@.map_values(views) =~= kept_before.map_values(views).push(
                            order[i as int],
                        ));
                    }
                }
                assert forall|remote: Seq<char>|
                    marked(next, closed@).contains(remote) <==> marked(front, closed@).contains(
                        remote,
                    ) || (closed[i as int] && remote == order[i as int]) by {
                    if marked(front, closed@).contains(remote) {
                        let k = choose|k: int|
                            0 <= k < front.len() && k < closed@.len() && closed@[k]
                                && #[trigger] front[k] == remote;
                        assert(next[k] == remote);
                    }
                    assert(next[i as int] == order[i as int]);
                    if marked(next, closed@).contains(remote) && !(closed[i as int] && remote
                        == order[i as int]) {
                        let k = choose|k: int|
                            0 <= k < next.len() && k < closed@.len() && closed@[k]
                                && #[trigger] next[k] == remote;
                        assert(front[k] == remote);
                    }
                }
                assert(self@ =~= pre.remove_keys(marked(next, closed@)));
            }
            i = i + 1;
        }
        proof {
            assert(order.take(i as int) =~= order);
            lemma_unmarked(order, closed@);
        }
        self.remotes = kept;
        proof {
            assert(self.order() =~= unmarked(order, closed@));
            assert forall|remote: Seq<char>| #[trigger]
                self.order().contains(remote) <==> self@.contains_key(remote) by {
                assert(order.contains(remote) <==> pre.contains_key(remote));
            }
            assert forall|k: int|
                #![trigger order[k]]
                0 <= k < closed@.len() implies (self@.contains_key(order[k]) <==> !closed@[k]) by {
                law_marks_go_by_place(order, closed@, k);
                assert(order.contains(order[k]));
            }
        }
    }

    /// Asks every channel whether it is closed, in the order of the sessions.
    fn ask_closed(&self, log: &mut ChannelLog) -> (closed: Vec<bool>)
        requires
            self.wf(),
        ensures
            closed@.len() == self.order().len(),
            final(log)@ == (Calls {
                asks: old(log)@.asks + Seq::new(
                    closed@.len(),
                    |i: int| (Ask { tx: self@[self.order()[i]], closed: closed@[i] }),
                ),
                ..old(log)@
            }),
            forall|i: int|
                0 <= i < closed@.len() && old(log)@.asks.contains(
                    (Ask { tx: self@[self.order()[i]], closed: true }),
                ) ==> #[trigger] closed@[i],
    {
        let mut closed: Vec<bool> = Vec::new();
        let mut i: usize = 0;
        assert(log@.asks =~= old(log)@.asks + Seq::new(
            closed@.len(),
            |k: int| (Ask { tx: self@[self.order()[k]], closed: closed@[k] }),
        ));
        while i < self.remotes.len()
            invariant
                i <= self.remotes.len(),
                closed@.len() == i,
                self.wf(),
                self.order().len() == self.remotes.len(),
                log@.made == old(log)@.made,
                log@.offers == old(log)@.offers,
                log@.asks == old(log)@.asks + Seq::new(
                    closed@.len(),
                    |k: int| (Ask { tx: self@[self.order()[k]], closed: closed@[k] }),
                ),
                forall|k: int|
                    0 <= k < i && old(log)@.asks.contains(
                        (Ask { tx: self@[self.order()[k]], closed: true }),
                    ) ==> #[trigger] closed@[k],
            decreases self.remotes.len() - i,
        {
            let remote = &self.remotes[i];
            let ghost so_far = log@.asks;
            let ghost before = closed@;
            proof {
                assert(self.order()[i as int] == remote@);
                assert(self.order().contains(remote@));
                let gone = Ask { tx: self@[remote@], closed: true };
                if old(log)@.asks.contains(gone) {
                    let k = choose|k: int| 0 <= k < old(log)@.asks.len() && old(log)@.asks[k] == gone;
                    assert(so_far[k] == gone);
                }
            }
            let answer: bool = match self.by_remote.get(remote.as_str()) {
                Some(tx) => channel::is_closed(log, tx),
                None => false,
            };
            closed.push(answer);
            i = i + 1;
            assert(log@.asks =~= old(log)@.asks + Seq::new(
                closed@.len(),
                |k: int| (Ask { tx: self@[self.order()[k]], closed: closed@[k] }),
            ));
        }
        closed
    }

    /// Drops the sessions whose channel is closed: every channel is asked once, and exactly those
    /// that say yes lose their session. A channel that has said so before says so again.
    pub fn sweep(&mut self, log: &mut ChannelLog)
        requires
            old(self).wf(),
        ensures
            final(self).wf(),
            final(log)@ == (Calls {
                asks: old(log)@.asks + answers(old(self).order(), old(self)@, final(self)@),
                ..old(log)@
            }),
            swept(old(self)@, final(self)@, answers(old(self).order(), old(self)@, final(self)@)),
            forall|remote: Seq<char>| #[trigger]
                final(self)@.contains_key(remote) ==> old(self)@.contains_key(remote)
                    && final(self)@[remote] == old(self)@[remote],
            forall|remote: Seq<char>| #[trigger]
                old(self)@.contains_key(remote) && old(log)@.asks.contains(
                    (Ask { tx: old(self)@[remote], closed: true }),
                ) ==> !final(self)@.contains_key(remote),
    {
        let closed = self.ask_closed(log);
        let ghost order = self.order();
        let ghost pre = self@;
        self.retain_open(&closed);
        proof {
            assert forall|i: int| 0 <= i < order.len() implies #[trigger] closed@[i]
                == !self@.contains_key(order[i]) by {
                assert(self@.contains_key(order[i]) <==> !closed@[i]);
            }
            assert(Seq::new(
                closed@.len(),
                |i: int| (Ask { tx: pre[order[i]], closed: closed@[i] }),
            ) =~= answers(order, pre, self@));
            assert forall|remote: Seq<char>| #[trigger]
                pre.contains_key(remote) && old(log)@.asks.contains(
                    (Ask { tx: pre[remote], closed: true }),
                ) implies !self@.contains_key(remote) by {
                assert(order.contains(remote));
                let i = choose|i: int| 0 <= i < order.len() && order[i] == remote;
                assert(closed@[i]);
            }
        }
    }
}

} // verus!
