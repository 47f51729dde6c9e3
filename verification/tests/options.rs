use ap_kcp::options::{
    algorithm_names, find_algorithm, find_level, get_algorithm, get_level, local_address,
    select_mode, Dial, Mode, DEFAULT_ALGORITHM, DEFAULT_LEVEL,
};
use log::LevelFilter;
use ring::aead;

#[test]
fn levels() {
    assert_eq!(get_level("trace"), LevelFilter::Trace);
    assert_eq!(get_level("debug"), LevelFilter::Debug);
    assert_eq!(get_level("info"), LevelFilter::Info);
    assert_eq!(get_level("warn"), LevelFilter::Warn);
    assert_eq!(get_level("error"), LevelFilter::Error);
}

#[test]
fn unknown_levels() {
    for name in ["", "off", "Info", "info ", "warning"] {
        assert_eq!(find_level(name), None);
    }
    assert_eq!(find_level("warn"), Some(LevelFilter::Warn));
}

#[test]
fn algorithms() {
    assert!(get_algorithm("aes-128-gcm") == &aead::AES_128_GCM);
    assert!(get_algorithm("aes-256-gcm") == &aead::AES_256_GCM);
    assert!(get_algorithm("chacha20-poly1305") == &aead::CHACHA20_POLY1305);
    assert_eq!(get_algorithm("aes-128-gcm").key_len(), 16);
    assert_eq!(get_algorithm("aes-256-gcm").key_len(), 32);
}

#[test]
fn no_two_names_share_an_algorithm() {
    for one in algorithm_names() {
        for other in algorithm_names() {
            assert_eq!(get_algorithm(one) == get_algorithm(other), one == other);
        }
    }
}

#[test]
fn unknown_algorithms() {
    for name in ["", "aes-192-gcm", "AES-128-GCM", "chacha20"] {
        assert!(find_algorithm(name).is_none());
    }
}

#[test]
fn accepted_algorithms_are_known() {
    assert_eq!(
        algorithm_names(),
        ["aes-256-gcm", "aes-128-gcm", "chacha20-poly1305"]
    );
    for name in algorithm_names() {
        assert!(find_algorithm(name).is_some());
    }
}

#[test]
fn defaults() {
    assert_eq!(get_level(DEFAULT_LEVEL), LevelFilter::Info);
    assert!(get_algorithm(DEFAULT_ALGORITHM) == &aead::AES_256_GCM);
    assert!(algorithm_names().contains(&DEFAULT_ALGORITHM));
}

#[test]
fn modes() {
    assert_eq!(select_mode(true, false), Mode::Client);
    assert_eq!(select_mode(false, true), Mode::Server);
    assert_eq!(select_mode(false, false), Mode::Idle);
    assert_eq!(select_mode(true, true), Mode::Client);
}

#[test]
fn local_addresses() {
    assert_eq!(local_address(true), "0.0.0.0:0");
    assert_eq!(local_address(false), "[::]:0");
}

#[test]
fn dialling() {
    assert_eq!(Dial::Bind.next(true), Dial::Connect);
    assert_eq!(Dial::Bind.next(false), Dial::Skip);
    assert_eq!(Dial::Connect.next(true), Dial::Run);
    assert_eq!(Dial::Connect.next(false), Dial::Skip);
    assert_eq!(Dial::Run.next(true), Dial::Done);
    assert_eq!(Dial::Run.next(false), Dial::Panic);
}
