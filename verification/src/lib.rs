//! Netlink is a Linux kernel interface used for communication between
//! kernel and userspace.
//!
//! `packet` contains the wire structures, the attribute codec, the request
//! builder and the streaming reader; `tokio` frames messages in a buffer of
//! an asynchronous transport; `socket` names the protocols and options of
//! the socket family; `wire` holds the integers of the wire format and
//! `util` the alignment arithmetic shared by all of them.
pub mod packet;
pub mod socket;
pub mod tokio;
pub mod util;
pub mod wire;
