use ap_kcp::server::{idle_sessions, is_idle, remove_sessions, take_in};

#[test]
fn idle_means_no_stream() {
    assert!(is_idle(0));
    assert!(!is_idle(1));
    assert!(!is_idle(usize::MAX));
}

#[test]
fn idle_sessions_are_found_in_order() {
    assert_eq!(idle_sessions(&vec![0, 3, 0, 1, 0]), vec![0, 2, 4]);
    assert_eq!(idle_sessions(&vec![1, 2]), Vec::<usize>::new());
    assert_eq!(idle_sessions(&vec![]), Vec::<usize>::new());
}

#[test]
fn removed_places_are_filled_from_the_end() {
    let mut sessions = vec!['a', 'b', 'c', 'd', 'e'];
    remove_sessions(&mut sessions, &vec![0, 2]);
    // First 'c' makes way for 'e', then 'a' for 'd'.
    assert_eq!(sessions, vec!['d', 'b', 'e']);
}

#[test]
fn all_or_none_may_be_removed() {
    let mut sessions = vec![1, 2, 3];
    remove_sessions(&mut sessions, &vec![]);
    assert_eq!(sessions, vec![1, 2, 3]);
    remove_sessions(&mut sessions, &vec![0, 1, 2]);
    assert!(sessions.is_empty());
}

#[test]
fn new_session_comes_last_and_idle_ones_go() {
    let mut sessions = vec!["a", "b", "c", "d"];
    take_in(&mut sessions, &vec![0, 2, 0, 1], "e");
    assert_eq!(sessions, vec!["d", "b", "e"]);
}

#[test]
fn busy_sessions_keep_their_places() {
    let mut sessions = vec![10, 11, 12];
    take_in(&mut sessions, &vec![1, 1, 1], 13);
    assert_eq!(sessions, vec![10, 11, 12, 13]);
}

#[test]
fn first_session() {
    let mut sessions: Vec<u8> = Vec::new();
    take_in(&mut sessions, &vec![], 1);
    assert_eq!(sessions, vec![1]);
}
