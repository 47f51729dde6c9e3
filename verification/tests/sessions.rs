use ap_kcp::channel::ChannelLog;
use ap_kcp::sessions::SessionTable;
use async_channel::{bounded, Receiver};

fn table_of(remotes: &[&str]) -> (SessionTable, Vec<Receiver<Vec<u8>>>) {
    let mut table = SessionTable::new();
    let mut receivers = Vec::new();
    for remote in remotes {
        let (tx, rx) = bounded(4);
        table.insert(remote.to_string(), tx);
        receivers.push(rx);
    }
    (table, receivers)
}

#[test]
fn empty_table_knows_nobody() {
    assert!(SessionTable::new().get("a").is_none());
}

#[test]
fn each_remote_has_its_own_channel() {
    let (table, receivers) = table_of(&["a", "b"]);
    assert!(table.get("b").unwrap().try_send(vec![1]).is_ok());
    assert_eq!(receivers[1].try_recv(), Ok(vec![1]));
    assert!(receivers[0].is_empty());
    assert!(table.get("c").is_none());
}

#[test]
fn marked_sessions_go_and_the_rest_stays() {
    let (mut table, receivers) = table_of(&["a", "b", "c", "d"]);
    table.retain_open(&vec![true, false, true, false]);
    assert!(table.get("a").is_none());
    assert!(table.get("c").is_none());
    assert!(table.get("b").unwrap().try_send(vec![2]).is_ok());
    assert_eq!(receivers[1].try_recv(), Ok(vec![2]));
    // What is left keeps its order, so the next marks are for "b" and "d".
    table.retain_open(&vec![false, true]);
    assert!(table.get("b").is_some());
    assert!(table.get("d").is_none());
}

#[test]
fn sweep_asks_every_channel() {
    let (mut table, receivers) = table_of(&["a", "b", "c"]);
    receivers[1].close();
    table.sweep(&mut ChannelLog::new());
    assert!(table.get("a").is_some());
    assert!(table.get("b").is_none());
    assert!(table.get("c").is_some());
}
