use ap_kcp::udp::{
    judge, packet_buffer, received_packet, Action, Handled, SessionError, UdpListener, UdpSession,
    ACCEPT_BACKLOG, SESSION_BACKLOG, UDP_MTU,
};
use async_channel::{RecvError, TryRecvError};

const ALICE: &str = "10.0.0.1:4000";
const BOB: &str = "10.0.0.2:4000";

fn datagram(listener: &mut UdpListener, remote: &str, bytes: &[u8]) -> Action {
    let mut buf = packet_buffer();
    buf[..bytes.len()].copy_from_slice(bytes);
    listener.on_received(remote.to_string(), buf, bytes.len())
}

fn handled(action: Action) -> Handled {
    match action {
        Action::Receive(handled) => handled,
        _ => panic!("the listener is not ready for a datagram"),
    }
}

/// Has a remote open a session with a first packet, and performs what the listener asks for.
fn open(listener: &mut UdpListener, remote: &str, first: &[u8]) -> UdpSession {
    let session = match datagram(listener, remote, first) {
        Action::Announce(session) => session,
        _ => panic!("no session was announced"),
    };
    match listener.on_announced(true) {
        Action::Forward(tx, packet) => {
            assert_eq!(packet, first);
            assert!(tx.try_send(packet).is_ok());
        }
        _ => panic!("the first packet was not forwarded"),
    }
    assert_eq!(handled(listener.on_forwarded(true)), Handled::Cleaned);
    session
}

#[test]
fn buffer_has_room_for_one_datagram() {
    assert_eq!(UDP_MTU, 4096);
    assert_eq!(packet_buffer(), vec![0u8; 4096]);
}

#[test]
fn buffer_is_cut_to_the_packet() {
    assert_eq!(received_packet(vec![1, 2, 3, 4], 2), vec![1, 2]);
    assert_eq!(received_packet(vec![1, 2, 3, 4], 0), Vec::<u8>::new());
    assert_eq!(received_packet(vec![1, 2, 3, 4], 4), vec![1, 2, 3, 4]);
    assert_eq!(received_packet(vec![1, 2, 3, 4], 9), vec![1, 2, 3, 4]);
}

#[test]
fn backlogs() {
    assert_eq!(ACCEPT_BACKLOG, 16);
    assert_eq!(SESSION_BACKLOG, 512);
}

#[test]
fn unknown_remote_opens_a_session() {
    let mut listener = UdpListener::new();
    let session = open(&mut listener, ALICE, b"hello");
    assert_eq!(session.get_remote(), ALICE);
    assert_eq!(session.receiver().capacity(), Some(0x200));
    assert_eq!(session.receiver().try_recv(), Ok(b"hello".to_vec()));
    assert_eq!(session.receiver().try_recv(), Err(TryRecvError::Empty));
}

#[test]
fn known_remote_gets_its_packets_in_order() {
    let mut listener = UdpListener::new();
    let session = open(&mut listener, ALICE, b"one");
    assert_eq!(handled(datagram(&mut listener, ALICE, b"two")), Handled::Delivered);
    assert_eq!(handled(datagram(&mut listener, ALICE, b"")), Handled::Delivered);
    assert_eq!(session.receiver().try_recv(), Ok(b"one".to_vec()));
    assert_eq!(session.receiver().try_recv(), Ok(b"two".to_vec()));
    assert_eq!(session.receiver().try_recv(), Ok(Vec::new()));
}

#[test]
fn remotes_do_not_mix() {
    let mut listener = UdpListener::new();
    let alice = open(&mut listener, ALICE, b"a1");
    let bob = open(&mut listener, BOB, b"b1");
    assert_eq!(handled(datagram(&mut listener, ALICE, b"a2")), Handled::Delivered);
    assert_eq!(handled(datagram(&mut listener, BOB, b"b2")), Handled::Delivered);
    assert_eq!(alice.receiver().try_recv(), Ok(b"a1".to_vec()));
    assert_eq!(alice.receiver().try_recv(), Ok(b"a2".to_vec()));
    assert_eq!(alice.receiver().try_recv(), Err(TryRecvError::Empty));
    assert_eq!(bob.receiver().try_recv(), Ok(b"b1".to_vec()));
    assert_eq!(bob.receiver().try_recv(), Ok(b"b2".to_vec()));
}

#[test]
fn first_packet_goes_in_once_and_the_session_is_open() {
    let mut listener = UdpListener::new();
    let session = match datagram(&mut listener, ALICE, b"one") {
        Action::Announce(session) => session,
        _ => panic!("no session was announced"),
    };
    assert!(!session.receiver().is_closed());
    assert!(session.receiver().is_empty());
    match listener.on_announced(true) {
        Action::Forward(tx, packet) => {
            assert!(session.receiver().is_empty());
            assert!(tx.try_send(packet).is_ok());
        }
        _ => panic!("the first packet was not forwarded"),
    }
    assert_eq!(handled(listener.on_forwarded(true)), Handled::Cleaned);
    assert_eq!(session.receiver().len(), 1);
    assert!(!session.receiver().is_closed());
}

#[test]
fn datagrams_arrive_in_order_once_each_and_only_at_their_own_session() {
    let mut listener = UdpListener::new();
    let alice = open(&mut listener, ALICE, &[0]);
    let bob = open(&mut listener, BOB, &[100]);
    for n in 1..20u8 {
        assert_eq!(handled(datagram(&mut listener, ALICE, &[n])), Handled::Delivered);
        assert_eq!(handled(datagram(&mut listener, BOB, &[100 + n])), Handled::Delivered);
    }
    for n in 0..20u8 {
        assert_eq!(alice.receiver().try_recv(), Ok(vec![n]));
        assert_eq!(bob.receiver().try_recv(), Ok(vec![100 + n]));
    }
    assert!(alice.receiver().is_empty());
    assert!(bob.receiver().is_empty());
}

#[test]
fn what_is_left_in_a_closed_session_does_not_reach_the_next_one() {
    let mut listener = UdpListener::new();
    let mut old = open(&mut listener, ALICE, b"old");
    old.close();
    assert_eq!(handled(datagram(&mut listener, ALICE, b"lost")), Handled::Cleaned);
    let new = open(&mut listener, ALICE, b"new");
    assert_eq!(new.receiver().try_recv(), Ok(b"new".to_vec()));
    assert!(new.receiver().is_empty());
    assert_eq!(old.receiver().try_recv(), Ok(b"old".to_vec()));
    assert_eq!(old.receiver().try_recv(), Err(TryRecvError::Closed));
}

#[test]
fn packets_are_no_longer_than_the_buffer() {
    let mut listener = UdpListener::new();
    let session = open(&mut listener, ALICE, b"x");
    let full = vec![7u8; UDP_MTU];
    assert_eq!(handled(datagram(&mut listener, ALICE, &full)), Handled::Delivered);
    let _ = session.receiver().try_recv();
    assert_eq!(session.receiver().try_recv(), Ok(full));
}

#[test]
fn same_host_with_another_port_is_another_remote() {
    let mut listener = UdpListener::new();
    let _first = open(&mut listener, "10.0.0.1:4000", b"x");
    assert!(matches!(
        datagram(&mut listener, "10.0.0.1:4001", b"y"),
        Action::Announce(_)
    ));
}

#[test]
fn full_session_jams() {
    let mut listener = UdpListener::new();
    let session = open(&mut listener, ALICE, b"first");
    for _ in 1..SESSION_BACKLOG {
        assert_eq!(handled(datagram(&mut listener, ALICE, b"more")), Handled::Delivered);
    }
    assert_eq!(handled(datagram(&mut listener, ALICE, b"lost")), Handled::Jammed);
    assert_eq!(session.receiver().len(), 512);
    assert_eq!(session.receiver().try_recv(), Ok(b"first".to_vec()));
    assert_eq!(handled(datagram(&mut listener, ALICE, b"late")), Handled::Delivered);
    for _ in 1..SESSION_BACKLOG {
        assert_eq!(session.receiver().try_recv(), Ok(b"more".to_vec()));
    }
    assert_eq!(session.receiver().try_recv(), Ok(b"late".to_vec()));
}

#[test]
fn closed_session_loses_the_packet_and_frees_the_remote() {
    let mut listener = UdpListener::new();
    let mut session = open(&mut listener, ALICE, b"one");
    assert!(session.close());
    assert_eq!(handled(datagram(&mut listener, ALICE, b"two")), Handled::Cleaned);
    assert_eq!(session.receiver().try_recv(), Ok(b"one".to_vec()));
    assert_eq!(session.receiver().try_recv(), Err(TryRecvError::Closed));
    let again = open(&mut listener, ALICE, b"three");
    assert_eq!(again.receiver().try_recv(), Ok(b"three".to_vec()));
}

#[test]
fn dropped_session_counts_as_closed() {
    let mut listener = UdpListener::new();
    drop(open(&mut listener, ALICE, b"one"));
    assert_eq!(handled(datagram(&mut listener, ALICE, b"two")), Handled::Cleaned);
    assert!(matches!(datagram(&mut listener, ALICE, b"three"), Action::Announce(_)));
}

#[test]
fn one_closed_session_takes_the_others_that_are_closed_along() {
    let mut listener = UdpListener::new();
    let mut alice = open(&mut listener, ALICE, b"a");
    let mut bob = open(&mut listener, BOB, b"b");
    let carol = open(&mut listener, "[::1]:7", b"c");
    alice.close();
    bob.close();
    assert_eq!(handled(datagram(&mut listener, ALICE, b"lost")), Handled::Cleaned);
    // The session of the second remote is gone without a datagram of its own, the third stays.
    assert_eq!(handled(datagram(&mut listener, "[::1]:7", b"c2")), Handled::Delivered);
    assert_eq!(carol.receiver().len(), 2);
    assert!(matches!(datagram(&mut listener, BOB, b"b2"), Action::Announce(_)));
}

#[test]
fn new_session_sweeps_the_closed_ones() {
    let mut listener = UdpListener::new();
    let mut alice = open(&mut listener, ALICE, b"a");
    alice.close();
    let _bob = open(&mut listener, BOB, b"b");
    assert!(matches!(datagram(&mut listener, ALICE, b"a2"), Action::Announce(_)));
}

#[test]
fn closing_twice_is_told_apart() {
    let mut listener = UdpListener::new();
    let mut session = open(&mut listener, ALICE, b"a");
    assert!(session.close());
    assert!(!session.close());
}

#[test]
fn socket_error_stops_the_listener() {
    let mut listener = UdpListener::new();
    assert!(matches!(listener.on_receive_error(), Action::Stop));
}

#[test]
fn nobody_accepts() {
    let mut listener = UdpListener::new();
    assert!(matches!(datagram(&mut listener, ALICE, b"a"), Action::Announce(_)));
    assert!(matches!(listener.on_announced(false), Action::Panic));
}

#[test]
fn session_given_up_before_its_first_packet() {
    let mut listener = UdpListener::new();
    let session = match datagram(&mut listener, ALICE, b"a") {
        Action::Announce(session) => session,
        _ => panic!("no session was announced"),
    };
    drop(session);
    match listener.on_announced(true) {
        Action::Forward(tx, packet) => assert!(tx.try_send(packet).is_err()),
        _ => panic!("the first packet was not forwarded"),
    }
    assert!(matches!(listener.on_forwarded(false), Action::Panic));
}

#[test]
fn judgement_of_a_datagram() {
    assert_eq!(judge(false, true), Handled::Delivered);
    assert_eq!(judge(false, false), Handled::Jammed);
    assert_eq!(judge(true, false), Handled::Cleaned);
    assert_eq!(judge(true, true), Handled::Cleaned);
}

#[test]
fn packet_of_a_session_is_handed_out_as_it_is() {
    assert_eq!(UdpSession::recv_packet(Ok(vec![7, 8])), Ok(vec![7, 8]));
}

#[test]
fn drained_and_closed_session_is_reset() {
    assert_eq!(
        UdpSession::recv_packet(Err(RecvError)),
        Err(SessionError::ConnectionReset)
    );
}
