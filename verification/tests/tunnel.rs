use ap_kcp::tunnel::{Carry, ClientStart, End, Relay, Role, Serve};

#[test]
fn ends_of_the_two_roles() {
    assert_eq!((Role::Client.near(), Role::Client.far()), (End::Tcp, End::Kcp));
    assert_eq!((Role::Server.near(), Role::Server.far()), (End::Kcp, End::Tcp));
}

#[test]
fn client_takes_tcp_and_carries_over_kcp() {
    let accept = Carry::start(Role::Client);
    assert_eq!(accept, Carry::Accept(End::Tcp));
    let connect = accept.next(Role::Client, true);
    assert_eq!(connect, Carry::Connect(End::Kcp));
    let spawn = connect.next(Role::Client, true);
    assert_eq!(spawn, Carry::Spawn);
    assert_eq!(spawn.next(Role::Client, true), accept);
}

#[test]
fn server_takes_kcp_and_carries_over_tcp() {
    let accept = Carry::start(Role::Server);
    assert_eq!(accept, Carry::Accept(End::Kcp));
    let connect = accept.next(Role::Server, true);
    assert_eq!(connect, Carry::Connect(End::Tcp));
    assert_eq!(connect.next(Role::Server, true), Carry::Spawn);
}

#[test]
fn failed_round_is_over() {
    assert_eq!(Carry::Accept(End::Tcp).next(Role::Client, false), Carry::Failed);
    assert_eq!(Carry::Connect(End::Kcp).next(Role::Client, false), Carry::Failed);
    assert_eq!(Carry::Failed.next(Role::Client, true), Carry::Failed);
}

fn relay(role: Role, outcomes: &[bool]) -> Vec<Relay> {
    let mut step = Relay::Copy;
    let mut trace = vec![step];
    for ok in outcomes {
        if step == Relay::Done || step == Relay::Failed {
            break;
        }
        step = step.next(role, *ok);
        trace.push(step);
    }
    trace
}

#[test]
fn client_shuts_kcp_down_before_tcp() {
    assert_eq!(
        relay(Role::Client, &[true, true, true]),
        vec![
            Relay::Copy,
            Relay::Shutdown(End::Kcp),
            Relay::Shutdown(End::Tcp),
            Relay::Done
        ]
    );
}

#[test]
fn server_shuts_tcp_down_before_kcp() {
    assert_eq!(
        relay(Role::Server, &[true, true, true]),
        vec![
            Relay::Copy,
            Relay::Shutdown(End::Tcp),
            Relay::Shutdown(End::Kcp),
            Relay::Done
        ]
    );
}

#[test]
fn first_error_ends_the_relay() {
    assert_eq!(
        relay(Role::Client, &[false, true, true]),
        vec![Relay::Copy, Relay::Failed]
    );
    assert_eq!(
        relay(Role::Server, &[true, false, true]),
        vec![Relay::Copy, Relay::Shutdown(End::Tcp), Relay::Failed]
    );
    assert_eq!(relay(Role::Server, &[true, true, false]).last(), Some(&Relay::Failed));
}

#[test]
fn client_starts_with_the_kcp_end() {
    assert_eq!(ClientStart::OpenHandle.next(true), ClientStart::BindTcp);
    assert_eq!(ClientStart::BindTcp.next(true), ClientStart::Ready);
    assert_eq!(ClientStart::OpenHandle.next(false), ClientStart::Failed);
    assert_eq!(ClientStart::BindTcp.next(false), ClientStart::Failed);
}

#[test]
fn server_goes_round() {
    let mut step = Serve::CheckConfig;
    let mut trace = Vec::new();
    for _ in 0..5 {
        step = step.next(true);
        trace.push(step);
    }
    assert_eq!(
        trace,
        vec![
            Serve::AcceptUdp,
            Serve::OpenHandle,
            Serve::SpawnCarrier,
            Serve::TakeIn,
            Serve::AcceptUdp
        ]
    );
}

#[test]
fn server_with_bad_settings() {
    assert_eq!(Serve::CheckConfig.next(false), Serve::Failed);
    assert_eq!(Serve::OpenHandle.next(false), Serve::Panic);
}

#[test]
fn server_without_a_listener() {
    assert_eq!(Serve::AcceptUdp.next(false), Serve::Panic);
    assert_eq!(Serve::AcceptUdp.next(true), Serve::OpenHandle);
}
