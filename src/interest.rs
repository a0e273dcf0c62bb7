use vstd::prelude::*;

use crate::filter::{self, Attributes, Protocol};
use crate::types::{IpAddr, IpVersion, SockMsgEvent, SockType, SocketAddr};

verus! {

/// Key under which a segment keeps counters: an integer triple, a tag for the
/// kind of interest and the address family, the address bits, and a pid or a
/// port.
pub type IndexKey = (u8, u128, u32);

/// An aggregation key of a segment.
#[derive(Clone, Copy, Debug, PartialEq, Eq, Structural, Hash)]
pub enum Interest {
    All,
    Pid(u32),
    LocalSocket(SocketAddr),
    RemoteSocket(SocketAddr),
    RemoteIp(IpAddr),
}

pub open spec fn family_tag(base: u8, ip: IpAddr) -> u8 {
    match ip.spec_version() {
        IpVersion::V4 => base,
        IpVersion::V6 => (base + 1) as u8,
    }
}

/// The key of a local endpoint, under which sockets and their counters are kept.
pub open spec fn local_key(a: SocketAddr) -> IndexKey {
    (family_tag(1, a.ip), a.ip.spec_bits(), a.port as u32)
}

impl Interest {
    pub open spec fn spec_key(self) -> IndexKey {
        match self {
            Interest::All => (7, 0, 0),
            Interest::Pid(p) => (0, 0, p),
            Interest::LocalSocket(a) => local_key(a),
            Interest::RemoteSocket(a) => (family_tag(3, a.ip), a.ip.spec_bits(), a.port as u32),
            Interest::RemoteIp(ip) => (family_tag(5, ip), ip.spec_bits(), 0),
        }
    }

    /// The key of this interest in a segment's index.
    pub fn key(&self) -> (r: IndexKey)
        ensures
            r == self.spec_key(),
    {
        match self {
            Interest::All => (7, 0, 0),
            Interest::Pid(p) => (0, 0, *p),
            Interest::LocalSocket(a) => endpoint_key(1, a),
            Interest::RemoteSocket(a) => endpoint_key(3, a),
            Interest::RemoteIp(ip) => {
                let tag: u8 = match ip.version() {
                    IpVersion::V4 => 5,
                    IpVersion::V6 => 6,
                };
                (tag, ip.bits(), 0)
            },
        }
    }

    /// The four interests that one event counts towards, besides the total.
    pub open spec fn spec_from_msg(msg: SockMsgEvent) -> Seq<Interest> {
        seq![
            Interest::Pid(msg.pid),
            Interest::LocalSocket(msg.spec_local()),
            Interest::RemoteSocket(msg.spec_remote()),
            Interest::RemoteIp(msg.remote_addr),
        ]
    }

    pub fn interests_from_msg(msg: &SockMsgEvent) -> (r: [Interest; 4])
        ensures
            r@ == Self::spec_from_msg(*msg),
    {
        let r = [
            Interest::Pid(msg.pid),
            Interest::LocalSocket(msg.local_sock_addr()),
            Interest::RemoteSocket(msg.remote_sock_addr()),
            Interest::RemoteIp(msg.remote_addr),
        ];
        assert(r@ =~= Self::spec_from_msg(*msg));
        r
    }
}

fn endpoint_key(base: u8, a: &SocketAddr) -> (r: IndexKey)
    requires
        base == 1 || base == 3,
    ensures
        r == (family_tag(base, a.ip), a.ip.spec_bits(), a.port as u32),
{
    let tag: u8 = match a.ip.version() {
        IpVersion::V4 => base,
        IpVersion::V6 => base + 1,
    };
    (tag, a.ip.bits(), a.port as u32)
}

/// Distinct interests have distinct keys.
pub proof fn lemma_key_injective(a: Interest, b: Interest)
    requires
        a.spec_key() == b.spec_key(),
    ensures
        a == b,
{
    match (a, b) {
        (Interest::LocalSocket(x), Interest::LocalSocket(y)) => lemma_ip_injective(x.ip, y.ip),
        (Interest::RemoteSocket(x), Interest::RemoteSocket(y)) => lemma_ip_injective(x.ip, y.ip),
        (Interest::RemoteIp(x), Interest::RemoteIp(y)) => lemma_ip_injective(x, y),
        _ => {},
    }
}

proof fn lemma_ip_injective(a: IpAddr, b: IpAddr)
    requires
        a.spec_version() == b.spec_version(),
        a.spec_bits() == b.spec_bits(),
    ensures
        a == b,
{
    match (a, b) {
        (IpAddr::V4(x), IpAddr::V4(y)) => {
            assert(x as u128 == y as u128);
        },
        _ => {},
    }
}

/// The restriction of a view: all traffic, one process, or one remote address.
#[derive(Clone, Copy, Debug, PartialEq, Eq, Structural)]
pub enum Filter {
    All,
    Process(u32),
    RemoteIp(IpAddr),
}

impl Filter {
    pub open spec fn spec_interest(self) -> Interest {
        match self {
            Filter::All => Interest::All,
            Filter::Process(pid) => Interest::Pid(pid),
            Filter::RemoteIp(ip) => Interest::RemoteIp(ip),
        }
    }

    /// The interest that the filter reads counters under.
    pub fn interest(self) -> (r: Interest)
        ensures
            r == self.spec_interest(),
    {
        match self {
            Filter::All => Interest::All,
            Filter::Process(pid) => Interest::Pid(pid),
            Filter::RemoteIp(ip) => Interest::RemoteIp(ip),
        }
    }
}

impl Default for Filter {
    fn default() -> (r: Self)
        ensures
            r == Filter::All,
    {
        Filter::All
    }
}

/// A socket seen in a segment. Two sockets are the same socket when their
/// local endpoints are equal.
#[derive(Clone, Copy, Debug)]
pub struct Socket {
    pub pid: u32,
    pub local: SocketAddr,
    pub remote: SocketAddr,
    pub sock_type: SockType,
}

impl PartialEq for Socket {
    fn eq(&self, rhs: &Self) -> (r: bool) {
        self.local == rhs.local
    }
}

impl vstd::std_specs::cmp::PartialEqSpecImpl for Socket {
    open spec fn obeys_eq_spec() -> bool {
        true
    }

    open spec fn eq_spec(&self, rhs: &Socket) -> bool {
        self.local == rhs.local
    }
}

impl Eq for Socket {
}

impl Socket {
    pub open spec fn spec_from_msg(msg: SockMsgEvent) -> Socket {
        Socket {
            pid: msg.pid,
            local: msg.spec_local(),
            remote: msg.spec_remote(),
            sock_type: msg.sock_type,
        }
    }

    pub fn from_msg(msg: &SockMsgEvent) -> (r: Socket)
        ensures
            r == Self::spec_from_msg(*msg),
    {
        Socket {
            pid: msg.pid,
            local: msg.local_sock_addr(),
            remote: msg.remote_sock_addr(),
            sock_type: msg.sock_type,
        }
    }

    pub open spec fn spec_attributes(self) -> Attributes {
        Attributes {
            pid: self.pid,
            protocol: match self.sock_type {
                SockType::Stream => Some(Protocol::Tcp),
                SockType::Dgram => Some(Protocol::Udp),
                _ => None,
            },
            ip_version: match self.local.ip.spec_version() {
                IpVersion::V4 => filter::IpVersion::IpV4,
                IpVersion::V6 => filter::IpVersion::IpV6,
            },
            local_address: self.local.ip,
            remote_address: self.remote.ip,
            local_port: self.local.port,
            remote_port: self.remote.port,
        }
    }

    /// The attributes that filter expressions read: `tcp` is a stream
    /// socket, `udp` a datagram socket.
    pub fn attributes(&self) -> (r: Attributes)
        ensures
            r == self.spec_attributes(),
    {
        Attributes {
            pid: self.pid,
            protocol: match self.sock_type {
                SockType::Stream => Some(Protocol::Tcp),
                SockType::Dgram => Some(Protocol::Udp),
                _ => None,
            },
            ip_version: match self.local.ip.version() {
                IpVersion::V4 => filter::IpVersion::IpV4,
                IpVersion::V6 => filter::IpVersion::IpV6,
            },
            local_address: self.local.ip,
            remote_address: self.remote.ip,
            local_port: self.local.port,
            remote_port: self.remote.port,
        }
    }

    /// Whether the socket falls under the interest.
    pub open spec fn spec_match_interest(self, interest: Interest) -> bool {
        match interest {
            Interest::All => true,
            Interest::Pid(p) => self.pid == p,
            Interest::LocalSocket(a) => self.local == a,
            Interest::RemoteSocket(a) => self.remote == a,
            Interest::RemoteIp(ip) => self.remote.ip == ip,
        }
    }

    pub fn match_interest(&self, interest: &Interest) -> (r: bool)
        ensures
            r == self.spec_match_interest(*interest),
    {
        match interest {
            Interest::All => true,
            Interest::Pid(p) => self.pid == *p,
            Interest::LocalSocket(a) => self.local == *a,
            Interest::RemoteSocket(a) => self.remote == *a,
            Interest::RemoteIp(ip) => self.remote.ip == *ip,
        }
    }
}

} // verus!
