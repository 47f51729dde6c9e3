//! The decision core of a KCP tunnel: how datagrams are sorted into sessions, which sessions a
//! server keeps, in which order a tunnel is set up and taken down, and what the command line says.
//!
//! Nothing here waits, and nothing here owns a socket. Where something has to be waited for, the
//! library says what is to be done next and is told how it went.

pub mod channel;
pub mod history;
pub mod options;
pub mod server;
pub mod sessions;
pub mod tunnel;
pub mod udp;
