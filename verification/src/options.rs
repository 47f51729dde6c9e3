//! What the command line says: verbosity, cipher, mode of operation, and the order in which a
//! client tries the addresses that the remote name resolved to.

use log::LevelFilter;
use ring::aead;
use vstd::prelude::*;

verus! {

/// The verbosity filter of the `log` crate, with its variants in view.
#[verifier::external_type_specification]
pub struct ExLevelFilter(log::LevelFilter);

/// An AEAD algorithm of `ring`. Nothing inside it is in view.
#[verifier::external_type_specification]
#[verifier::external_body]
pub struct ExAlgorithm(ring::aead::Algorithm);

/// The identifier by which `ring` tells an algorithm from the others: two algorithms are equal for
/// `ring` where it is the same.
pub uninterp spec fn aead_id(algorithm: aead::Algorithm) -> Seq<char>;

/// `ring::aead::AES_128_GCM`: the algorithm that bears this identifier.
#[verifier::external_body]
fn aes_128_gcm() -> (algorithm: &'static aead::Algorithm)
    ensures
        aead_id(*algorithm) == "AES_128_GCM"@,
{
    &aead::AES_128_GCM
}

/// `ring::aead::AES_256_GCM`: the algorithm that bears this identifier.
#[verifier::external_body]
fn aes_256_gcm() -> (algorithm: &'static aead::Algorithm)
    ensures
        aead_id(*algorithm) == "AES_256_GCM"@,
{
    &aead::AES_256_GCM
}

/// `ring::aead::CHACHA20_POLY1305`: the algorithm that bears this identifier.
#[verifier::external_body]
fn chacha20_poly1305() -> (algorithm: &'static aead::Algorithm)
    ensures
        aead_id(*algorithm) == "CHACHA20_POLY1305"@,
{
    &aead::CHACHA20_POLY1305
}

/// Whether two pieces of text are the same, character for character.
fn same_text(a: &str, b: &str) -> (same: bool)
    ensures
        same == (a@ == b@),
{
    a.to_owned() == b.to_owned()
}

/// The verbosity that `name` stands for, if it stands for one.
pub open spec fn level_named(name: Seq<char>) -> Option<LevelFilter> {
    if name == "trace"@ {
        Some(LevelFilter::Trace)
    } else if name == "debug"@ {
        Some(LevelFilter::Debug)
    } else if name == "info"@ {
        Some(LevelFilter::Info)
    } else if name == "warn"@ {
        Some(LevelFilter::Warn)
    } else if name == "error"@ {
        Some(LevelFilter::Error)
    } else {
        None
    }
}

/// Five names stand for a verbosity, each for its own; every other text, be it written in capitals,
/// with a blank too many or the name of a verbosity that the logger knows besides, stands for
/// none.
pub proof fn law_five_names_stand_for_a_level(name: Seq<char>)
    ensures
        level_named(name) == Some(LevelFilter::Trace) <==> name == "trace"@,
        level_named(name) == Some(LevelFilter::Debug) <==> name == "debug"@,
        level_named(name) == Some(LevelFilter::Info) <==> name == "info"@,
        level_named(name) == Some(LevelFilter::Warn) <==> name == "warn"@,
        level_named(name) == Some(LevelFilter::Error) <==> name == "error"@,
        level_named(name) is None <==> !seq![
            "trace"@,
            "debug"@,
            "info"@,
            "warn"@,
            "error"@,
        ].contains(name),
{
    reveal_strlit("trace");
    reveal_strlit("debug");
    reveal_strlit("info");
    reveal_strlit("warn");
    reveal_strlit("error");
    assert("trace"@[0] == 't');
    assert("debug"@[0] == 'd');
    assert("info"@[0] == 'i');
    assert("warn"@[0] == 'w');
    assert("error"@[0] == 'e');
    let names = seq!["trace"@, "debug"@, "info"@, "warn"@, "error"@];
    assert(names[0] == "trace"@ && names[1] == "debug"@ && names[2] == "info"@);
    assert(names[3] == "warn"@ && names[4] == "error"@);
}

/// No two names stand for one verbosity.
pub proof fn law_levels_have_one_name(one: Seq<char>, other: Seq<char>)
    requires
        level_named(one) is Some,
        level_named(other) is Some,
    ensures
        level_named(one) == level_named(other) <==> one == other,
{
    law_five_names_stand_for_a_level(one);
    law_five_names_stand_for_a_level(other);
}

/// Looks up a verbosity by name; `None` for a name that stands for none.
pub fn find_level(name: &str) -> (level: Option<LevelFilter>)
    ensures
        level == level_named(name@),
{
    if same_text(name, "trace") {
        Some(LevelFilter::Trace)
    } else if same_text(name, "debug") {
        Some(LevelFilter::Debug)
    } else if same_text(name, "info") {
        Some(LevelFilter::Info)
    } else if same_text(name, "warn") {
        Some(LevelFilter::Warn)
    } else if same_text(name, "error") {
        Some(LevelFilter::Error)
    } else {
        None
    }
}

/// The verbosity of a name that is known to stand for one. A caller that does not know asks
/// [`find_level`] first.
pub fn get_level(name: &str) -> (level: LevelFilter)
    requires
        level_named(name@) is Some,
    ensures
        level_named(name@) == Some(level),
{
    find_level(name).unwrap()
}

/// The identifier that `ring` gives to the algorithm that `name` stands for on the command line.
pub open spec fn algorithm_id(name: Seq<char>) -> Option<Seq<char>> {
    if name == "aes-128-gcm"@ {
        Some("AES_128_GCM"@)
    } else if name == "aes-256-gcm"@ {
        Some("AES_256_GCM"@)
    } else if name == "chacha20-poly1305"@ {
        Some("CHACHA20_POLY1305"@)
    } else {
        None
    }
}

/// Three names stand for an algorithm, each for the one that `ring` identifies alike; every other
/// text stands for none.
pub proof fn law_three_names_stand_for_an_algorithm(name: Seq<char>)
    ensures
        algorithm_id(name) == Some("AES_128_GCM"@) <==> name == "aes-128-gcm"@,
        algorithm_id(name) == Some("AES_256_GCM"@) <==> name == "aes-256-gcm"@,
        algorithm_id(name) == Some("CHACHA20_POLY1305"@) <==> name == "chacha20-poly1305"@,
        algorithm_id(name) is None <==> !seq![
            "aes-128-gcm"@,
            "aes-256-gcm"@,
            "chacha20-poly1305"@,
        ].contains(name),
{
    reveal_strlit("aes-128-gcm");
    reveal_strlit("aes-256-gcm");
    reveal_strlit("chacha20-poly1305");
    reveal_strlit("AES_128_GCM");
    reveal_strlit("AES_256_GCM");
    reveal_strlit("CHACHA20_POLY1305");
    assert("aes-128-gcm"@[4] == '1');
    assert("aes-256-gcm"@[4] == '2');
    assert("chacha20-poly1305"@[4] == 'h');
    assert("AES_128_GCM"@[4] == '1');
    assert("AES_256_GCM"@[4] == '2');
    assert("CHACHA20_POLY1305"@[4] == 'H');
    let names = seq!["aes-128-gcm"@, "aes-256-gcm"@, "chacha20-poly1305"@];
    assert(names[0] == "aes-128-gcm"@ && names[1] == "aes-256-gcm"@);
    assert(names[2] == "chacha20-poly1305"@);
}

/// Looks up an algorithm by its name on the command line; `None` for a name that stands for none.
pub fn find_algorithm(name: &str) -> (algorithm: Option<&'static aead::Algorithm>)
    ensures
        match algorithm_id(name@) {
            Some(id) => algorithm is Some && aead_id(*algorithm->0) == id,
            None => algorithm is None,
        },
{
    if same_text(name, "aes-128-gcm") {
        Some(aes_128_gcm())
    } else if same_text(name, "aes-256-gcm") {
        Some(aes_256_gcm())
    } else if same_text(name, "chacha20-poly1305") {
        Some(chacha20_poly1305())
    } else {
        None
    }
}

/// The algorithm of a name that is known to stand for one. A caller that does not know asks
/// [`find_algorithm`] first.
pub fn get_algorithm(name: &str) -> (algorithm: &'static aead::Algorithm)
    requires
        algorithm_id(name@) is Some,
    ensures
        algorithm_id(name@) == Some(aead_id(*algorithm)),
{
    find_algorithm(name).unwrap()
}

/// The verbosity where the command line names none.
pub const DEFAULT_LEVEL: &'static str = "info";

/// The algorithm where the command line names none.
pub const DEFAULT_ALGORITHM: &'static str = "aes-256-gcm";

/// The algorithm names that the command line accepts, in the order in which it lists them.
pub fn algorithm_names() -> (names: [&'static str; 3])
    ensures
        names@.map_values(|name: &'static str| name@) == accepted_algorithms(),
        names@[0]@ == "aes-256-gcm"@,
        names@[1]@ == "aes-128-gcm"@,
        names@[2]@ == "chacha20-poly1305"@,
{
    let names = ["aes-256-gcm", "aes-128-gcm", "chacha20-poly1305"];
    assert(names@.map_values(|name: &'static str| name@) =~= accepted_algorithms());
    names
}

/// What [`algorithm_names`] lists.
pub open spec fn accepted_algorithms() -> Seq<Seq<char>> {
    seq!["aes-256-gcm"@, "aes-128-gcm"@, "chacha20-poly1305"@]
}

/// The command line accepts exactly the algorithm names that [`get_algorithm`] knows, so no
/// accepted name is without an algorithm and no algorithm is out of reach.
pub proof fn law_accepted_algorithms_are_known(name: Seq<char>)
    ensures
        accepted_algorithms().contains(name) <==> algorithm_id(name) is Some,
{
    let names = accepted_algorithms();
    assert(names[0] == "aes-256-gcm"@);
    assert(names[1] == "aes-128-gcm"@);
    assert(names[2] == "chacha20-poly1305"@);
}

/// No two names stand for one algorithm: what [`get_algorithm`] gives for two names has one
/// identifier exactly where the names are the same.
pub proof fn law_names_have_their_own_algorithms(
    one_name: Seq<char>,
    one: aead::Algorithm,
    other_name: Seq<char>,
    other: aead::Algorithm,
)
    requires
        algorithm_id(one_name) == Some(aead_id(one)),
        algorithm_id(other_name) == Some(aead_id(other)),
    ensures
        aead_id(one) == aead_id(other) <==> one_name == other_name,
        one == other ==> one_name == other_name,
{
    reveal_strlit("AES_128_GCM");
    reveal_strlit("AES_256_GCM");
    reveal_strlit("CHACHA20_POLY1305");
    assert("AES_128_GCM"@[4] == '1');
    assert("AES_256_GCM"@[4] == '2');
    assert("CHACHA20_POLY1305"@[4] == 'H');
}

/// Where the command line names no verbosity and no algorithm, the program is as talkative as
/// "info" makes it and encrypts with AES-256, the first of the algorithms that are listed.
pub proof fn law_defaults_are_known()
    ensures
        level_named(DEFAULT_LEVEL@) == Some(LevelFilter::Info),
        algorithm_id(DEFAULT_ALGORITHM@) == Some("AES_256_GCM"@),
        accepted_algorithms()[0] == DEFAULT_ALGORITHM@,
{
    law_five_names_stand_for_a_level(DEFAULT_LEVEL@);
    law_three_names_stand_for_an_algorithm(DEFAULT_ALGORITHM@);
}

/// What one run of the program does.
#[derive(Clone, Copy, Debug, PartialEq, Eq, Structural)]
pub enum Mode {
    /// Carry local TCP connections to the remote tunnel end.
    Client,
    /// Carry tunnel streams to the remote TCP service.
    Server,
    /// Neither was asked for: warn and leave.
    Idle,
}

/// The mode that the two flags ask for. The client flag is looked at first; the command line
/// does not accept both.
pub fn select_mode(client: bool, server: bool) -> (mode: Mode)
    ensures
        mode is Client <==> client,
        mode is Server <==> server && !client,
        mode is Idle <==> !client && !server,
{
    if client {
        Mode::Client
    } else if server {
        Mode::Server
    } else {
        Mode::Idle
    }
}

/// The local address that a client's UDP socket is bound to: any address of the family of the
/// remote one, with a port of the system's choice.
pub fn local_address(remote_is_ipv4: bool) -> (address: &'static str)
    ensures
        address@ == (if remote_is_ipv4 {
            "0.0.0.0:0"@
        } else {
            "[::]:0"@
        }),
{
    if remote_is_ipv4 {
        "0.0.0.0:0"
    } else {
        "[::]:0"
    }
}

/// Where a client stands with one of the addresses that the remote name resolved to.
#[derive(Clone, Copy, Debug, PartialEq, Eq, Structural)]
pub enum Dial {
    /// Bind a local UDP socket.
    Bind,
    /// Connect the socket to the remote address.
    Connect,
    /// Run the client over the socket.
    Run,
    /// Turn to the next address.
    Skip,
    /// The client has ended in good order: look at no further address.
    Done,
    /// The client has ended with an error: panic.
    Panic,
}

impl Dial {
    /// Whether there is an action to perform whose success or failure decides what follows.
    pub open spec fn pending(self) -> bool {
        self is Bind || self is Connect || self is Run
    }

    /// What follows an action that went well or did not.
    pub open spec fn after(self, ok: bool) -> Dial {
        match self {
            Dial::Bind => if ok { Dial::Connect } else { Dial::Skip },
            Dial::Connect => if ok { Dial::Run } else { Dial::Skip },
            Dial::Run => if ok { Dial::Done } else { Dial::Panic },
            _ => self,
        }
    }

    /// Where `self` leads when the actions that come up end as `outcomes` says, one by one.
    pub open spec fn run(self, outcomes: Seq<bool>) -> Dial
        decreases outcomes.len(),
    {
        if outcomes.len() == 0 || !self.pending() {
            self
        } else {
            self.after(outcomes[0]).run(outcomes.drop_first())
        }
    }

    /// Takes the outcome of the pending action and says what follows.
    pub fn next(self, ok: bool) -> (next: Dial)
        requires
            self.pending(),
        ensures
            next == self.after(ok),
            self is Bind ==> if ok { next is Connect } else { next is Skip },
            self is Connect ==> if ok { next is Run } else { next is Skip },
            self is Run ==> if ok { next is Done } else { next is Panic },
    {
        match self {
            Dial::Bind => if ok {
                Dial::Connect
            } else {
                Dial::Skip
            },
            Dial::Connect => if ok {
                Dial::Run
            } else {
                Dial::Skip
            },
            _ => if ok {
                Dial::Done
            } else {
                Dial::Panic
            },
        }
    }
}

/// A socket has to be bound before it is connected, and connected before the client runs. An
/// address is passed over as soon as one of these fails; a client that fails ends in a panic, and
/// one that does not leaves nothing more to do. These three are all there is to perform.
pub proof fn law_dialling_goes_step_by_step(step: Dial, ok: bool)
    ensures
        step.pending() <==> step == Dial::Bind || step == Dial::Connect || step == Dial::Run,
        step.pending() && step.after(ok) == Dial::Connect <==> step == Dial::Bind && ok,
        step.pending() && step.after(ok) == Dial::Run <==> step == Dial::Connect && ok,
        step.pending() && step.after(ok) == Dial::Done <==> step == Dial::Run && ok,
        step.pending() && step.after(ok) == Dial::Panic <==> step == Dial::Run && !ok,
        step.pending() && step.after(ok) == Dial::Skip <==> (step == Dial::Bind || step
            == Dial::Connect) && !ok,
        !step.pending() ==> step.after(ok) == step,
{
}

/// An address is passed over exactly where no socket could be bound or connected for it; only
/// a client that has run can end the program, be it in good order or by a panic. Whatever the
/// outcomes, three of them settle an address.
pub proof fn law_dial_settles(outcomes: Seq<bool>)
    requires
        outcomes.len() >= 3,
    ensures
        ({
            let end = Dial::Bind.run(outcomes);
            &&& !end.pending()
            &&& end is Skip <==> !outcomes[0] || !outcomes[1]
            &&& end is Done <==> outcomes[0] && outcomes[1] && outcomes[2]
            &&& end is Panic <==> outcomes[0] && outcomes[1] && !outcomes[2]
        }),
{
    reveal_with_fuel(Dial::run, 4);
}

} // verus!
