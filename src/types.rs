use vstd::prelude::*;

verus! {

/// Version tag for IPs.
#[derive(Clone, Copy, Debug, PartialEq, Eq, Structural, Hash)]
pub enum IpVersion {
    /// IPv4
    V4,
    /// IPv6
    V6,
}

/// An IP address: a v4 address as a host-order `u32`, a v6 address as a
/// host-order `u128` (the first group in the high bits).
#[derive(Clone, Copy, Debug, PartialEq, Eq, Structural, Hash)]
pub enum IpAddr {
    V4(u32),
    V6(u128),
}

impl IpAddr {
    /// Builds an [IpAddr] from a v4 address.
    pub fn v4(addr: u32) -> (r: Self)
        ensures
            r == IpAddr::V4(addr),
    {
        IpAddr::V4(addr)
    }

    /// Builds an [IpAddr] from a v6 address.
    pub fn v6(addr: u128) -> (r: Self)
        ensures
            r == IpAddr::V6(addr),
    {
        IpAddr::V6(addr)
    }

    pub fn version(&self) -> (r: IpVersion)
        ensures
            r == self.spec_version(),
    {
        match self {
            IpAddr::V4(_) => IpVersion::V4,
            IpAddr::V6(_) => IpVersion::V6,
        }
    }

    pub open spec fn spec_version(&self) -> IpVersion {
        match self {
            IpAddr::V4(_) => IpVersion::V4,
            IpAddr::V6(_) => IpVersion::V6,
        }
    }

    /// The address bits, widened to 128 bits.
    pub open spec fn spec_bits(&self) -> u128 {
        match self {
            IpAddr::V4(a) => *a as u128,
            IpAddr::V6(a) => *a,
        }
    }

    pub fn bits(&self) -> (r: u128)
        ensures
            r == self.spec_bits(),
    {
        match self {
            IpAddr::V4(a) => *a as u128,
            IpAddr::V6(a) => *a,
        }
    }
}

/// An endpoint: an address and a host-order port.
#[derive(Clone, Copy, Debug, PartialEq, Eq, Structural, Hash)]
pub struct SocketAddr {
    pub ip: IpAddr,
    pub port: u16,
}

/// Socket type, as the kernel numbers it.
#[derive(Clone, Copy, Debug, PartialEq, Eq, Structural, Hash)]
pub enum SockType {
    Stream,
    Dgram,
    Raw,
    Rdm,
    Seqpacket,
    Dccp,
    Packet,
    Unknown,
}

impl SockType {
    pub open spec fn spec_from_raw(val: u32) -> SockType {
        if val == 1 {
            SockType::Stream
        } else if val == 2 {
            SockType::Dgram
        } else if val == 3 {
            SockType::Raw
        } else if val == 4 {
            SockType::Rdm
        } else if val == 5 {
            SockType::Seqpacket
        } else if val == 6 {
            SockType::Dccp
        } else if val == 10 {
            SockType::Packet
        } else {
            SockType::Unknown
        }
    }

    /// Decodes the kernel's socket type number.
    pub fn from_raw(val: u32) -> (r: SockType)
        ensures
            r == Self::spec_from_raw(val),
    {
        match val {
            1 => SockType::Stream,
            2 => SockType::Dgram,
            3 => SockType::Raw,
            4 => SockType::Rdm,
            5 => SockType::Seqpacket,
            6 => SockType::Dccp,
            10 => SockType::Packet,
            _ => SockType::Unknown,
        }
    }

    /// The kernel's name of the socket type.
    pub fn display(&self) -> (r: &'static str)
        ensures
            *self == SockType::Stream ==> r@ == "SOCK_STREAM"@,
            *self == SockType::Dgram ==> r@ == "SOCK_DGRAM"@,
            *self == SockType::Raw ==> r@ == "SOCK_RAW"@,
            *self == SockType::Rdm ==> r@ == "SOCK_RDM"@,
            *self == SockType::Seqpacket ==> r@ == "SOCK_SEQPACKET"@,
            *self == SockType::Dccp ==> r@ == "SOCK_DCCP"@,
            *self == SockType::Packet ==> r@ == "SOCK_PACKET"@,
            *self == SockType::Unknown ==> r@ == "SOCK_UNKNOWN"@,
    {
        match self {
            SockType::Stream => "SOCK_STREAM",
            SockType::Dgram => "SOCK_DGRAM",
            SockType::Raw => "SOCK_RAW",
            SockType::Rdm => "SOCK_RDM",
            SockType::Seqpacket => "SOCK_SEQPACKET",
            SockType::Dccp => "SOCK_DCCP",
            SockType::Packet => "SOCK_PACKET",
            SockType::Unknown => "SOCK_UNKNOWN",
        }
    }
}

/// Direction of a socket message.
#[derive(Clone, Copy, Debug, PartialEq, Eq, Structural, Hash)]
pub enum Channel {
    Tx,
    Rx,
}

impl Channel {
    pub fn display(&self) -> (r: &'static str)
        ensures
            *self == Channel::Tx ==> r@ == "TX"@,
            *self == Channel::Rx ==> r@ == "RX"@,
    {
        match self {
            Channel::Tx => "TX",
            Channel::Rx => "RX",
        }
    }
}

/// One socket message, as delivered by the event source, with its ports
/// already in host order.
///
/// `ret >= 0` is the payload length of a successful call; `ret < 0` is a
/// negated errno.
#[derive(Clone, Copy, Debug, PartialEq, Eq, Structural)]
pub struct SockMsgEvent {
    pub sock_type: SockType,
    pub local_addr: IpAddr,
    pub remote_addr: IpAddr,
    pub local_port: u16,
    pub remote_port: u16,
    pub ret: i32,
    pub pid: u32,
    pub channel: Channel,
}

impl SockMsgEvent {
    pub open spec fn spec_local(&self) -> SocketAddr {
        SocketAddr { ip: self.local_addr, port: self.local_port }
    }

    pub open spec fn spec_remote(&self) -> SocketAddr {
        SocketAddr { ip: self.remote_addr, port: self.remote_port }
    }

    /// The payload length of a successful call, none for a failed one.
    pub open spec fn spec_packet_size(&self) -> Option<u32> {
        if self.ret >= 0 {
            Some(self.ret as u32)
        } else {
            None
        }
    }

    pub fn local_sock_addr(&self) -> (r: SocketAddr)
        ensures
            r == self.spec_local(),
    {
        SocketAddr { ip: self.local_addr, port: self.local_port }
    }

    pub fn remote_sock_addr(&self) -> (r: SocketAddr)
        ensures
            r == self.spec_remote(),
    {
        SocketAddr { ip: self.remote_addr, port: self.remote_port }
    }

    pub fn packet_size(&self) -> (r: Option<u32>)
        ensures
            r == self.spec_packet_size(),
    {
        if self.ret >= 0 {
            Some(self.ret as u32)
        } else {
            None
        }
    }
}

/// Length of the record that the event source writes.
pub const RECORD_LEN: usize = 51;

/// The bytes `b[start..start + n]` read as a big-endian number.
pub open spec fn be_value(b: Seq<u8>, start: int, n: nat) -> nat
    decreases n,
{
    if n == 0 {
        0
    } else {
        be_value(b, start, (n - 1) as nat) * 256 + b[start + n - 1] as nat
    }
}

/// The bytes `b[start..start + 4]` read as a little-endian number.
pub open spec fn le_u32(b: Seq<u8>, start: int) -> nat {
    b[start] as nat + b[start + 1] as nat * 256 + b[start + 2] as nat * 65536 + b[start + 3] as nat
        * 16777216
}

/// A 32-bit value read as two's complement.
pub open spec fn as_signed(v: nat) -> int {
    if v < 0x8000_0000 {
        v as int
    } else {
        v - 0x1_0000_0000
    }
}

/// The address of a 17-byte field: a version byte (0 for v4, 1 for v6) and
/// 16 address bytes in network order, a v4 address in the last four.
pub open spec fn decode_ip(b: Seq<u8>, start: int) -> Option<IpAddr> {
    if b[start] == 0 {
        Some(IpAddr::V4(be_value(b, start + 13, 4) as u32))
    } else if b[start] == 1 {
        Some(IpAddr::V6(be_value(b, start + 1, 16) as u128))
    } else {
        None
    }
}

/// The event of a record: socket type, local and remote address, local and
/// remote port in network order, return value, pid (host order, which is
/// little-endian on the targets the probe runs on) and a channel byte (0 for
/// TX, 1 for RX). A record with an unknown address family or channel is
/// malformed.
pub open spec fn decode_spec(b: Seq<u8>) -> Option<SockMsgEvent> {
    if b.len() < RECORD_LEN {
        None
    } else {
        match (decode_ip(b, 4), decode_ip(b, 21)) {
            (Some(local), Some(remote)) => if b[50] == 0 || b[50] == 1 {
                Some(
                    SockMsgEvent {
                        sock_type: SockType::spec_from_raw(le_u32(b, 0) as u32),
                        local_addr: local,
                        remote_addr: remote,
                        local_port: be_value(b, 38, 2) as u16,
                        remote_port: be_value(b, 40, 2) as u16,
                        ret: as_signed(le_u32(b, 42)) as i32,
                        pid: le_u32(b, 46) as u32,
                        channel: if b[50] == 0 {
                            Channel::Tx
                        } else {
                            Channel::Rx
                        },
                    },
                )
            } else {
                None
            },
            _ => None,
        }
    }
}

proof fn lemma_pow_256_16()
    ensures
        vstd::arithmetic::power::pow(256, 16) == 0x1_0000_0000_0000_0000_0000_0000_0000_0000,
{
    vstd::arithmetic::power::lemma_pow1(256);
    vstd::arithmetic::power::lemma_pow_adds(256, 1, 1);
    assert(vstd::arithmetic::power::pow(256, 2) == 0x1_0000);
    vstd::arithmetic::power::lemma_pow_adds(256, 2, 2);
    assert(vstd::arithmetic::power::pow(256, 4) == 0x1_0000_0000);
    vstd::arithmetic::power::lemma_pow_adds(256, 4, 4);
    assert(vstd::arithmetic::power::pow(256, 8) == 0x1_0000_0000_0000_0000);
    vstd::arithmetic::power::lemma_pow_adds(256, 8, 8);
}

proof fn lemma_be_step(acc: nat, byte: nat, n: nat)
    requires
        acc < vstd::arithmetic::power::pow(256, n),
        byte < 256,
    ensures
        acc * 256 + byte < vstd::arithmetic::power::pow(256, n + 1),
{
    vstd::arithmetic::power::lemma_pow_adds(256, n, 1);
    vstd::arithmetic::power::lemma_pow1(256);
    let p = vstd::arithmetic::power::pow(256, n);
    assert(acc * 256 + byte < p * 256) by (nonlinear_arith)
        requires
            acc < p,
            byte < 256,
    ;
}

fn be_exec(b: &[u8], start: usize, n: usize) -> (r: u128)
    requires
        n <= 16,
        start + n <= b.len(),
    ensures
        r as nat == be_value(b@, start as int, n as nat),
{
    let mut acc: u128 = 0;
    let mut i: usize = 0;
    proof {
        vstd::arithmetic::power::lemma_pow0(256);
    }
    while i < n
        invariant
            i <= n <= 16,
            start + n <= b.len(),
            acc as nat == be_value(b@, start as int, i as nat),
            (acc as nat) < vstd::arithmetic::power::pow(256, i as nat),
        decreases n - i,
    {
        proof {
            lemma_be_step(acc as nat, b@[start + i] as nat, i as nat);
            vstd::arithmetic::power::lemma_pow_increases(256, (i + 1) as nat, 16);
            lemma_pow_256_16();
        }
        acc = acc * 256 + b[start + i] as u128;
        i = i + 1;
    }
    acc
}

fn le_u32_exec(b: &[u8], start: usize) -> (r: u32)
    requires
        start + 4 <= b@.len(),
    ensures
        r as nat == le_u32(b@, start as int),
{
    b[start] as u32 + b[start + 1] as u32 * 256 + b[start + 2] as u32 * 65536 + b[start + 3] as u32
        * 16777216
}

fn decode_ip_exec(b: &[u8], start: usize) -> (r: Option<IpAddr>)
    requires
        start + 17 <= b@.len(),
    ensures
        r == decode_ip(b@, start as int),
{
    if b[start] == 0 {
        Some(IpAddr::V4(be_exec(b, start + 13, 4) as u32))
    } else if b[start] == 1 {
        Some(IpAddr::V6(be_exec(b, start + 1, 16)))
    } else {
        None
    }
}

/// Decodes one record of the event source; none for a short or malformed
/// record.
pub fn decode_event(b: &[u8]) -> (r: Option<SockMsgEvent>)
    ensures
        r == decode_spec(b@),
{
    if b.len() < RECORD_LEN {
        return None;
    }
    let local = match decode_ip_exec(b, 4) {
        Some(ip) => ip,
        None => {
            return None;
        },
    };
    let remote = match decode_ip_exec(b, 21) {
        Some(ip) => ip,
        None => {
            return None;
        },
    };
    let channel = if b[50] == 0 {
        Channel::Tx
    } else if b[50] == 1 {
        Channel::Rx
    } else {
        return None;
    };
    let raw_ret = le_u32_exec(b, 42);
    let ret: i32 = if raw_ret < 0x8000_0000 {
        raw_ret as i32
    } else {
        (raw_ret as i64 - 0x1_0000_0000) as i32
    };
    Some(
        SockMsgEvent {
            sock_type: SockType::from_raw(le_u32_exec(b, 0)),
            local_addr: local,
            remote_addr: remote,
            local_port: be_exec(b, 38, 2) as u16,
            remote_port: be_exec(b, 40, 2) as u16,
            ret,
            pid: le_u32_exec(b, 46),
            channel,
        },
    )
}

} // verus!
