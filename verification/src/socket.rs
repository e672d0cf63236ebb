//! Netlink socket related constants
//!
//! The numbers by which the kernel knows the protocols of the socket family
//! and the options of its sockets. The socket itself is not part of this
//! library.
use vstd::prelude::*;

verus! {

#[derive(Debug, Clone, Copy, PartialEq, Eq, Structural)]
pub enum SockOpt {
    AddMembership,
    DropMembership,
    PktInfo,
    BroadcastError,
    NoEnobufs,
}

impl SockOpt {
    /// The number of the option.
    pub open spec fn number(self) -> i32 {
        match self {
            SockOpt::AddMembership => 1,
            SockOpt::DropMembership => 2,
            SockOpt::PktInfo => 3,
            SockOpt::BroadcastError => 4,
            SockOpt::NoEnobufs => 5,
        }
    }

    /// The number of the option.
    pub fn value(&self) -> (n: i32)
        ensures
            n == self.number(),
    {
        match self {
            SockOpt::AddMembership => 1,
            SockOpt::DropMembership => 2,
            SockOpt::PktInfo => 3,
            SockOpt::BroadcastError => 4,
            SockOpt::NoEnobufs => 5,
        }
    }
}

/// supported protocols
#[allow(non_camel_case_types)]
#[derive(Debug, Clone, Copy, PartialEq, Eq, Structural)]
pub enum NetlinkProtocol {
    Route,
    Usersock,
    Firewall,
    Inet_diag,
    NFlog,
    Xfrm,
    SELinux,
    ISCSI,
    Audit,
    FibLookup,
    Connector,
    Netfilter,
    IP6_fw,
    Dnrtmsg,
    KObjectUevent,
    Generic,
    SCSItransport,
    Ecryptfs,
    Rdma,
    Crypto,
}

impl NetlinkProtocol {
    /// The number of the protocol.
    pub open spec fn number(self) -> i32 {
        match self {
            NetlinkProtocol::Route => 0,
            NetlinkProtocol::Usersock => 2,
            NetlinkProtocol::Firewall => 3,
            NetlinkProtocol::Inet_diag => 4,
            NetlinkProtocol::NFlog => 5,
            NetlinkProtocol::Xfrm => 6,
            NetlinkProtocol::SELinux => 7,
            NetlinkProtocol::ISCSI => 8,
            NetlinkProtocol::Audit => 9,
            NetlinkProtocol::FibLookup => 10,
            NetlinkProtocol::Connector => 11,
            NetlinkProtocol::Netfilter => 12,
            NetlinkProtocol::IP6_fw => 13,
            NetlinkProtocol::Dnrtmsg => 14,
            NetlinkProtocol::KObjectUevent => 15,
            NetlinkProtocol::Generic => 16,
            NetlinkProtocol::SCSItransport => 18,
            NetlinkProtocol::Ecryptfs => 19,
            NetlinkProtocol::Rdma => 20,
            NetlinkProtocol::Crypto => 21,
        }
    }

    /// The number of the protocol.
    pub fn value(&self) -> (n: i32)
        ensures
            n == self.number(),
    {
        match self {
            NetlinkProtocol::Route => 0,
            NetlinkProtocol::Usersock => 2,
            NetlinkProtocol::Firewall => 3,
            NetlinkProtocol::Inet_diag => 4,
            NetlinkProtocol::NFlog => 5,
            NetlinkProtocol::Xfrm => 6,
            NetlinkProtocol::SELinux => 7,
            NetlinkProtocol::ISCSI => 8,
            NetlinkProtocol::Audit => 9,
            NetlinkProtocol::FibLookup => 10,
            NetlinkProtocol::Connector => 11,
            NetlinkProtocol::Netfilter => 12,
            NetlinkProtocol::IP6_fw => 13,
            NetlinkProtocol::Dnrtmsg => 14,
            NetlinkProtocol::KObjectUevent => 15,
            NetlinkProtocol::Generic => 16,
            NetlinkProtocol::SCSItransport => 18,
            NetlinkProtocol::Ecryptfs => 19,
            NetlinkProtocol::Rdma => 20,
            NetlinkProtocol::Crypto => 21,
        }
    }
}

} // verus!
