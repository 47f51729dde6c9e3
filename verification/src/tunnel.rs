//! The two halves of a tunnel. A client takes TCP connections and carries each over a KCP stream
//! of its own; a server takes KCP streams and carries each over a TCP connection of its own.
//!
//! What is said here is in which order things are done and what a failure leads to. The caller
//! does them, and hands back whether they went well.

use vstd::prelude::*;

verus! {

/// Which half of a tunnel.
#[derive(Clone, Copy, Debug, PartialEq, Eq, Structural)]
pub enum Role {
    Client,
    Server,
}

/// Which of the two ends of a carried connection.
#[derive(Clone, Copy, Debug, PartialEq, Eq, Structural)]
pub enum End {
    Tcp,
    Kcp,
}

impl Role {
    /// The end that connections come in on.
    pub open spec fn near_end(self) -> End {
        match self {
            Role::Client => End::Tcp,
            Role::Server => End::Kcp,
        }
    }

    /// The end that connections are carried over.
    pub open spec fn far_end(self) -> End {
        match self {
            Role::Client => End::Kcp,
            Role::Server => End::Tcp,
        }
    }

    /// The end that connections come in on.
    pub fn near(self) -> (end: End)
        ensures
            end == self.near_end(),
            end is Tcp <==> self is Client,
    {
        match self {
            Role::Client => End::Tcp,
            Role::Server => End::Kcp,
        }
    }

    /// The end that connections are carried over.
    pub fn far(self) -> (end: End)
        ensures
            end == self.far_end(),
            end is Tcp <==> self is Server,
    {
        match self {
            Role::Client => End::Kcp,
            Role::Server => End::Tcp,
        }
    }
}

/// A client takes TCP and carries over KCP, a server the other way round, so what comes in on one
/// end of a half goes out on its other end, and the far end of one half is the near end of the
/// other.
pub proof fn law_the_halves_mirror_each_other(role: Role, counterpart: Role)
    ensures
        role.near_end() == End::Tcp <==> role == Role::Client,
        role.far_end() == End::Kcp <==> role == Role::Client,
        role.near_end() != role.far_end(),
        role != counterpart <==> role.far_end() == counterpart.near_end(),
{
}

/// The round in which connections are taken and carried.
#[derive(Clone, Copy, Debug, PartialEq, Eq, Structural)]
pub enum Carry {
    /// Accept a connection on this end.
    Accept(End),
    /// Open its counterpart on this end.
    Connect(End),
    /// Leave the two to a task of their own.
    Spawn,
    /// Give up with the error that came.
    Failed,
}

impl Carry {
    /// What follows an action that went well or did not. Leaving two ends to a task cannot fail.
    pub open spec fn after(self, role: Role, ok: bool) -> Carry {
        match self {
            Carry::Accept(_) => if ok { Carry::Connect(role.far_end()) } else { Carry::Failed },
            Carry::Connect(_) => if ok { Carry::Spawn } else { Carry::Failed },
            Carry::Spawn => Carry::Accept(role.near_end()),
            Carry::Failed => Carry::Failed,
        }
    }

    /// Where `self` leads when the actions that come up end as `outcomes` says, one by one.
    pub open spec fn run(self, role: Role, outcomes: Seq<bool>) -> Carry
        decreases outcomes.len(),
    {
        if outcomes.len() == 0 {
            self
        } else {
            self.after(role, outcomes[0]).run(role, outcomes.drop_first())
        }
    }

    /// The first action.
    pub fn start(role: Role) -> (first: Carry)
        ensures
            first == Carry::Accept(role.near_end()),
            first == Carry::Accept(
                if role is Client {
                    End::Tcp
                } else {
                    End::Kcp
                },
            ),
    {
        Carry::Accept(role.near())
    }

    /// Takes the outcome of an action and says what follows.
    pub fn next(self, role: Role, ok: bool) -> (next: Carry)
        ensures
            next == self.after(role, ok),
            self is Accept && ok ==> next == Carry::Connect(
                if role is Client {
                    End::Kcp
                } else {
                    End::Tcp
                },
            ),
            self is Connect && ok ==> next is Spawn,
            (self is Accept || self is Connect) && !ok ==> next is Failed,
            self is Spawn ==> next == Carry::Accept(
                if role is Client {
                    End::Tcp
                } else {
                    End::Kcp
                },
            ),
            self is Failed ==> next is Failed,
    {
        match self {
            Carry::Accept(_) => if ok {
                Carry::Connect(role.far())
            } else {
                Carry::Failed
            },
            Carry::Connect(_) => if ok {
                Carry::Spawn
            } else {
                Carry::Failed
            },
            Carry::Spawn => Carry::Accept(role.near()),
            Carry::Failed => Carry::Failed,
        }
    }
}

/// In each half, a connection that was accepted, and only that, has its counterpart opened on the
/// other end; a counterpart that was opened, and only that, leads to a task; a task, and only
/// that, leads back to accepting; and whatever cannot be accepted or opened ends the round at
/// once.
pub proof fn law_carrying_goes_step_by_step(step: Carry, role: Role, ok: bool)
    ensures
        step.after(role, ok) is Failed <==> step is Failed || !ok && !(step is Spawn),
        step.after(role, ok) is Connect <==> step is Accept && ok,
        step.after(role, ok) is Spawn <==> step is Connect && ok,
        step.after(role, ok) is Accept <==> step is Spawn,
        step.after(role, ok) matches Carry::Connect(end) ==> (end == End::Kcp <==> role
            == Role::Client),
        step.after(role, ok) matches Carry::Accept(end) ==> (end == End::Tcp <==> role
            == Role::Client),
{
}

/// Whatever the outcomes, and however many there are, the round fails exactly where an accepting
/// or an opening failed, and otherwise stands where the number of outcomes puts it. The outcome of
/// leaving two ends to a task plays no part.
pub proof fn law_a_round_of_any_length(role: Role, outcomes: Seq<bool>)
    ensures
        ({
            let end = Carry::Accept(role.near_end()).run(role, outcomes);
            if exists|i: int| 0 <= i < outcomes.len() && i % 3 != 2 && !#[trigger] outcomes[i] {
                end == Carry::Failed
            } else if outcomes.len() % 3 == 0 {
                end == Carry::Accept(role.near_end())
            } else if outcomes.len() % 3 == 1 {
                end == Carry::Connect(role.far_end())
            } else {
                end == Carry::Spawn
            }
        }),
    decreases outcomes.len(),
{
    let start = Carry::Accept(role.near_end());
    reveal_with_fuel(Carry::run, 4);
    if outcomes.len() < 3 {
        if outcomes.len() > 0 && !outcomes[0] {
            law_a_failed_round_stays_failed(role, outcomes.drop_first());
        }
        if outcomes.len() == 2 {
            assert(outcomes.drop_first()[0] == outcomes[1]);
            assert(outcomes.drop_first().drop_first().len() == 0);
        }
    } else {
        let rest = outcomes.skip(3);
        assert(outcomes.drop_first().drop_first().drop_first() =~= rest);
        assert(outcomes.drop_first()[0] == outcomes[1]);
        assert(outcomes.drop_first().drop_first()[0] == outcomes[2]);
        if !outcomes[0] {
            law_a_failed_round_stays_failed(role, outcomes.drop_first());
        } else if !outcomes[1] {
            law_a_failed_round_stays_failed(role, outcomes.drop_first().drop_first());
        } else {
            law_a_round_of_any_length(role, rest);
            assert(start.run(role, outcomes) == start.run(role, rest));
            if exists|i: int| 0 <= i < rest.len() && i % 3 != 2 && !#[trigger] rest[i] {
                let i = choose|i: int| 0 <= i < rest.len() && i % 3 != 2 && !#[trigger] rest[i];
                assert(!outcomes[i + 3]);
            }
            if exists|i: int|
                0 <= i < outcomes.len() && i % 3 != 2 && !#[trigger] outcomes[i] {
                let i = choose|i: int|
                    0 <= i < outcomes.len() && i % 3 != 2 && !#[trigger] outcomes[i];
                assert(!rest[i - 3]);
            }
        }
    }
}

/// The first connection that cannot be taken or carried ends the whole round: nothing follows a
/// failure.
pub proof fn law_a_failed_round_stays_failed(role: Role, outcomes: Seq<bool>)
    ensures
        Carry::Failed.run(role, outcomes) == Carry::Failed,
    decreases outcomes.len(),
{
    if outcomes.len() > 0 {
        law_a_failed_round_stays_failed(role, outcomes.drop_first());
    }
}

/// A connection that is taken and carried leads back to where the round began, and to nothing
/// else; one that cannot be taken, or whose counterpart cannot be opened, ends the round.
pub proof fn law_a_round_comes_back(role: Role, outcomes: Seq<bool>)
    requires
        outcomes.len() == 3,
    ensures
        ({
            let start = Carry::Accept(role.near_end());
            if outcomes[0] && outcomes[1] {
                start.run(role, outcomes) == start
            } else {
                start.run(role, outcomes) == Carry::Failed
            }
        }),
{
    reveal_with_fuel(Carry::run, 4);
}

/// The task that two joined ends are left to.
#[derive(Clone, Copy, Debug, PartialEq, Eq, Structural)]
pub enum Relay {
    /// Copy both ways until both ends are through.
    Copy,
    /// Shut this end down.
    Shutdown(End),
    /// The tunnel is closed.
    Done,
    /// End with the error that came.
    Failed,
}

impl Relay {
    /// Whether there is an action to perform.
    pub open spec fn pending(self) -> bool {
        self is Copy || self is Shutdown
    }

    /// What follows an action that went well or did not: the far end is shut down before the
    /// near one, and the first failure ends the task.
    pub open spec fn after(self, role: Role, ok: bool) -> Relay {
        if !ok {
            Relay::Failed
        } else if self is Copy {
            Relay::Shutdown(role.far_end())
        } else if self == Relay::Shutdown(role.far_end()) {
            Relay::Shutdown(role.near_end())
        } else {
            Relay::Done
        }
    }

    /// The actions that are performed from `self` on when they end as `outcomes` says, one by
    /// one, and what comes after the last of them.
    pub open spec fn trace(self, role: Role, outcomes: Seq<bool>) -> Seq<Relay>
        decreases outcomes.len(),
    {
        if outcomes.len() == 0 || !self.pending() {
            seq![self]
        } else {
            seq![self] + self.after(role, outcomes[0]).trace(role, outcomes.drop_first())
        }
    }

    /// Takes the outcome of the pending action and says what follows.
    pub fn next(self, role: Role, ok: bool) -> (next: Relay)
        requires
            self.pending(),
        ensures
            next == self.after(role, ok),
            next is Failed <==> !ok,
            next == Relay::Shutdown(End::Kcp) <==> ok && if role is Client {
                self is Copy
            } else {
                self == Relay::Shutdown(End::Tcp)
            },
            next == Relay::Shutdown(End::Tcp) <==> ok && if role is Server {
                self is Copy
            } else {
                self == Relay::Shutdown(End::Kcp)
            },
            next is Done <==> ok && self == Relay::Shutdown(
                if role is Client {
                    End::Tcp
                } else {
                    End::Kcp
                },
            ),
    {
        if !ok {
            return Relay::Failed;
        }
        match self {
            Relay::Shutdown(end) => if end == role.far() {
                Relay::Shutdown(role.near())
            } else {
                Relay::Done
            },
            _ => Relay::Shutdown(role.far()),
        }
    }
}

/// In each half, the end that connections are carried over is shut down once the copying is
/// through, the other end once that went well, and the tunnel is closed once that went well too;
/// whatever fails ends the task at once. Copying and shutting down are all there is to perform.
pub proof fn law_relaying_goes_step_by_step(step: Relay, role: Role, ok: bool)
    ensures
        step.pending() <==> step is Copy || step is Shutdown,
        step.pending() ==> {
            let after = step.after(role, ok);
            let first = if role == Role::Client {
                End::Kcp
            } else {
                End::Tcp
            };
            let second = if role == Role::Client {
                End::Tcp
            } else {
                End::Kcp
            };
            &&& after == Relay::Failed <==> !ok
            &&& after == Relay::Shutdown(first) <==> ok && step == Relay::Copy
            &&& after == Relay::Shutdown(second) <==> ok && step == Relay::Shutdown(first)
            &&& after == Relay::Done <==> ok && step == Relay::Shutdown(second)
        },
{
}

/// A tunnel is closed exactly where the copying and both shutdowns went well: then each end was
/// shut down once, the far one first. Otherwise the task ends with the first error, and nothing
/// is done after it. Whatever the outcomes, three of them settle a task.
pub proof fn law_a_closed_tunnel_has_both_ends_shut_down(role: Role, outcomes: Seq<bool>)
    requires
        outcomes.len() >= 3,
    ensures
        ({
            let trace = Relay::Copy.trace(role, outcomes);
            let far = Relay::Shutdown(role.far_end());
            let near = Relay::Shutdown(role.near_end());
            trace == if !outcomes[0] {
                seq![Relay::Copy, Relay::Failed]
            } else if !outcomes[1] {
                seq![Relay::Copy, far, Relay::Failed]
            } else if !outcomes[2] {
                seq![Relay::Copy, far, near, Relay::Failed]
            } else {
                seq![Relay::Copy, far, near, Relay::Done]
            }
        }),
{
    reveal_with_fuel(Relay::trace, 4);
}

/// How a client gets ready to carry connections.
#[derive(Clone, Copy, Debug, PartialEq, Eq, Structural)]
pub enum ClientStart {
    /// Set up the KCP end over the encrypted socket.
    OpenHandle,
    /// Listen for TCP connections.
    BindTcp,
    /// Carry connections from now on.
    Ready,
    /// Give up with the error that came.
    Failed,
}

impl ClientStart {
    /// Whether there is an action to perform.
    pub open spec fn pending(self) -> bool {
        self is OpenHandle || self is BindTcp
    }

    /// Takes the outcome of the pending action and says what follows.
    pub fn next(self, ok: bool) -> (next: ClientStart)
        requires
            self.pending(),
        ensures
            next is Failed <==> !ok,
            next is BindTcp <==> ok && self is OpenHandle,
            next is Ready <==> ok && self is BindTcp,
    {
        match self {
            _ if !ok => ClientStart::Failed,
            ClientStart::OpenHandle => ClientStart::BindTcp,
            _ => ClientStart::Ready,
        }
    }
}

/// Setting up the KCP end and listening for TCP connections are all that a client has to perform
/// before it is ready.
pub proof fn law_a_client_starts_in_two_steps(step: ClientStart)
    ensures
        step.pending() <==> step == ClientStart::OpenHandle || step == ClientStart::BindTcp,
{
}

/// What a server does, over and over, once its settings are found to be sound.
#[derive(Clone, Copy, Debug, PartialEq, Eq, Structural)]
pub enum Serve {
    /// Check the settings.
    CheckConfig,
    /// Accept a UDP session.
    AcceptUdp,
    /// Set up the KCP end over the encrypted session.
    OpenHandle,
    /// Leave the streams of the session to a task of their own.
    SpawnCarrier,
    /// Let the idle sessions go and take the new one in.
    TakeIn,
    /// Give up with what is wrong with the settings.
    Failed,
    /// Panic: no session can come any more, because the listener has ended, or settings that
    /// were found to be sound were turned down after all.
    Panic,
}

impl Serve {
    /// Whether there is an action to perform.
    pub open spec fn pending(self) -> bool {
        !(self is Failed) && !(self is Panic)
    }

    /// What follows an action that went well or did not. Leaving a session to a task and taking
    /// it in cannot fail.
    pub open spec fn after(self, ok: bool) -> Serve {
        match self {
            Serve::CheckConfig => if ok { Serve::AcceptUdp } else { Serve::Failed },
            Serve::AcceptUdp => if ok { Serve::OpenHandle } else { Serve::Panic },
            Serve::OpenHandle => if ok { Serve::SpawnCarrier } else { Serve::Panic },
            Serve::SpawnCarrier => Serve::TakeIn,
            Serve::TakeIn => Serve::AcceptUdp,
            Serve::Failed => Serve::Failed,
            Serve::Panic => Serve::Panic,
        }
    }

    /// Where `self` leads when the actions that come up end as `outcomes` says, one by one.
    pub open spec fn run(self, outcomes: Seq<bool>) -> Serve
        decreases outcomes.len(),
    {
        if outcomes.len() == 0 {
            self
        } else {
            self.after(outcomes[0]).run(outcomes.drop_first())
        }
    }

    /// Takes the outcome of the pending action and says what follows.
    pub fn next(self, ok: bool) -> (next: Serve)
        requires
            self.pending(),
        ensures
            next == self.after(ok),
            next is Failed <==> self is CheckConfig && !ok,
            next is Panic <==> (self is AcceptUdp || self is OpenHandle) && !ok,
            next is AcceptUdp <==> self is CheckConfig && ok || self is TakeIn,
            next is OpenHandle <==> self is AcceptUdp && ok,
            next is SpawnCarrier <==> self is OpenHandle && ok,
            next is TakeIn <==> self is SpawnCarrier,
    {
        match self {
            Serve::CheckConfig => if ok {
                Serve::AcceptUdp
            } else {
                Serve::Failed
            },
            Serve::AcceptUdp => if ok {
                Serve::OpenHandle
            } else {
                Serve::Panic
            },
            Serve::OpenHandle => if ok {
                Serve::SpawnCarrier
            } else {
                Serve::Panic
            },
            Serve::SpawnCarrier => Serve::TakeIn,
            _ => Serve::AcceptUdp,
        }
    }
}

/// A session is set up only once it was accepted, left to a task only once it was set up, taken in
/// only once it was left to a task, and only then the next one is accepted. Refused settings end
/// the server with an error; a session that cannot be accepted or set up ends it with a panic.
/// Nothing else ends it.
pub proof fn law_serving_goes_step_by_step(step: Serve, ok: bool)
    ensures
        step.pending() <==> step != Serve::Failed && step != Serve::Panic,
        step.pending() ==> {
            let after = step.after(ok);
            &&& after == Serve::Failed <==> step == Serve::CheckConfig && !ok
            &&& after == Serve::Panic <==> (step == Serve::AcceptUdp || step == Serve::OpenHandle)
                && !ok
            &&& after == Serve::AcceptUdp <==> step == Serve::CheckConfig && ok || step
                == Serve::TakeIn
            &&& after == Serve::OpenHandle <==> step == Serve::AcceptUdp && ok
            &&& after == Serve::SpawnCarrier <==> step == Serve::OpenHandle && ok
            &&& after == Serve::TakeIn <==> step == Serve::SpawnCarrier
        },
        !step.pending() ==> step.after(ok) == step,
{
}

/// Once its settings are found to be sound, a server panics exactly where an accepting or a setting
/// up failed, however long it has served; otherwise it stands where the number of outcomes puts it.
/// How leaving a session to a task and taking it in came out plays no part.
pub proof fn law_serving_of_any_length(outcomes: Seq<bool>)
    ensures
        ({
            let end = Serve::AcceptUdp.run(outcomes);
            if exists|i: int| 0 <= i < outcomes.len() && i % 4 < 2 && !#[trigger] outcomes[i] {
                end == Serve::Panic
            } else if outcomes.len() % 4 == 0 {
                end == Serve::AcceptUdp
            } else if outcomes.len() % 4 == 1 {
                end == Serve::OpenHandle
            } else if outcomes.len() % 4 == 2 {
                end == Serve::SpawnCarrier
            } else {
                end == Serve::TakeIn
            }
        }),
    decreases outcomes.len(),
{
    if outcomes.len() > 0 {
        let before = outcomes.drop_last();
        let last = outcomes.len() - 1;
        law_serving_of_any_length(before);
        lemma_serve_run_ends(Serve::AcceptUdp, outcomes);
        if exists|i: int| 0 <= i < before.len() && i % 4 < 2 && !#[trigger] before[i] {
            let i = choose|i: int| 0 <= i < before.len() && i % 4 < 2 && !#[trigger] before[i];
            assert(!outcomes[i]);
        } else if exists|i: int| 0 <= i < outcomes.len() && i % 4 < 2 && !#[trigger] outcomes[i] {
            let i = choose|i: int| 0 <= i < outcomes.len() && i % 4 < 2 && !#[trigger] outcomes[i];
            if i != last {
                assert(!before[i]);
            }
        } else {
            assert(last % 4 < 2 ==> outcomes[last]);
        }
    }
}

proof fn lemma_serve_run_ends(serve: Serve, outcomes: Seq<bool>)
    requires
        outcomes.len() > 0,
    ensures
        serve.run(outcomes) == serve.run(outcomes.drop_last()).after(outcomes.last()),
    decreases outcomes.len(),
{
    reveal_with_fuel(Serve::run, 2);
    if outcomes.len() > 1 {
        let rest = outcomes.drop_first();
        lemma_serve_run_ends(serve.after(outcomes[0]), rest);
        assert(rest.drop_last() =~= outcomes.drop_last().drop_first());
        assert(rest.last() == outcomes.last());
    }
}

/// A server gives up with an error exactly where its settings are refused at the outset: the
/// settings are checked before all else, and once.
pub proof fn law_settings_are_checked_once_and_first(outcomes: Seq<bool>)
    requires
        outcomes.len() > 0,
    ensures
        Serve::CheckConfig.run(outcomes) is Failed <==> !outcomes[0],
        !(Serve::CheckConfig.run(outcomes) is CheckConfig),
{
    lemma_serve_settles(Serve::CheckConfig.after(outcomes[0]), outcomes.drop_first());
}

proof fn lemma_serve_settles(serve: Serve, outcomes: Seq<bool>)
    requires
        !(serve is CheckConfig),
    ensures
        serve.run(outcomes) is Failed <==> serve is Failed,
        !(serve.run(outcomes) is CheckConfig),
    decreases outcomes.len(),
{
    if outcomes.len() > 0 {
        lemma_serve_settles(serve.after(outcomes[0]), outcomes.drop_first());
    }
}

} // verus!
