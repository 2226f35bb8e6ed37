//! The two result structures of the platform resolver, as plain values.
//!
//! A [`HostRecord`] is what the legacy lookups hand out, an [`AddressInfo`]
//! what the modern lookup hands out. Both are built here field by field, so
//! that laying them out in memory is a matter of copying fields.

use vstd::prelude::*;
use vstd::string::StringExecFns;
use crate::address::Address;

verus! {

/// The address family tag of a native structure.
#[derive(Debug, Clone, Copy, PartialEq, Eq, Structural)]
pub enum AddressFamily {
    Inet,
    Inet6,
}

/// The socket type of an address-info node.
#[derive(Debug, Clone, Copy, PartialEq, Eq, Structural)]
pub enum SocketType {
    Stream,
    Datagram,
}

/// Size in bytes of a raw IPv4 address.
pub const IN_ADDR_LEN: usize = 4;

/// Size in bytes of a raw IPv6 address.
pub const IN6_ADDR_LEN: usize = 16;

/// Size in bytes of an IPv4 socket address structure.
pub const SOCKADDR_IN_LEN: usize = 16;

/// Size in bytes of an IPv6 socket address structure.
pub const SOCKADDR_IN6_LEN: usize = 28;

impl Address {
    /// The family an address belongs to.
    pub open spec fn family(self) -> AddressFamily {
        match self {
            Address::V4(_) => AddressFamily::Inet,
            Address::V6(_) => AddressFamily::Inet6,
        }
    }
}

impl AddressFamily {
    /// Size in bytes of a raw address of this family.
    pub open spec fn address_len(self) -> nat {
        match self {
            AddressFamily::Inet => IN_ADDR_LEN as nat,
            AddressFamily::Inet6 => IN6_ADDR_LEN as nat,
        }
    }

    /// Size in bytes of the socket address structure of this family.
    pub open spec fn socket_address_len(self) -> nat {
        match self {
            AddressFamily::Inet => SOCKADDR_IN_LEN as nat,
            AddressFamily::Inet6 => SOCKADDR_IN6_LEN as nat,
        }
    }
}

/// The legacy host record: a canonical name, an alias list, and a list of raw
/// addresses that all belong to one family. The two lists hold what comes
/// before their terminating null entry.
#[derive(Debug, Clone, PartialEq, Eq)]
pub struct HostRecord {
    pub name: String,
    pub aliases: Vec<String>,
    pub family: AddressFamily,
    pub length: usize,
    pub addresses: Vec<Vec<u8>>,
}

impl HostRecord {
    /// The length field fits the family, and every raw address has that many
    /// bytes.
    pub open spec fn wf(&self) -> bool {
        &&& self.length == self.family.address_len()
        &&& forall|i: int|
            0 <= i < self.addresses@.len() ==> (#[trigger] self.addresses@[i])@.len()
                == self.length
    }

    /// The record is the one that answers a lookup of `hostname` with `addr`:
    /// it is named `hostname`, has no alias, and lists `addr` alone.
    pub open spec fn answers(&self, hostname: Seq<char>, addr: Address) -> bool {
        &&& self.name@ == hostname
        &&& self.aliases@.len() == 0
        &&& self.family == addr.family()
        &&& self.length == addr.family().address_len()
        &&& self.addresses@.len() == 1
        &&& self.addresses@[0]@ == addr.octets()
    }

    /// A reader that follows the family tag and takes `length` bytes from the
    /// first entry of the address list finds `addr`.
    pub open spec fn yields(&self, addr: Address) -> bool {
        &&& self.addresses@.len() >= 1
        &&& self.family == addr.family()
        &&& self.addresses@[0]@.take(self.length as int) == addr.octets()
    }
}

/// The IPv4 socket address structure, with the address in network order.
#[derive(Debug, Clone, Copy, PartialEq, Eq)]
pub struct SocketAddressV4 {
    pub port: u16,
    pub addr: [u8; 4],
}

/// The IPv6 socket address structure, with the address in network order.
#[derive(Debug, Clone, Copy, PartialEq, Eq)]
pub struct SocketAddressV6 {
    pub port: u16,
    pub flow_info: u32,
    pub addr: [u8; 16],
    pub scope_id: u32,
}

/// A socket address structure of either family.
#[derive(Debug, Clone, Copy, PartialEq, Eq)]
pub enum SocketAddress {
    V4(SocketAddressV4),
    V6(SocketAddressV6),
}

impl SocketAddress {
    /// The family tag the structure carries.
    pub open spec fn family(self) -> AddressFamily {
        match self {
            SocketAddress::V4(_) => AddressFamily::Inet,
            SocketAddress::V6(_) => AddressFamily::Inet6,
        }
    }

    /// The address the structure carries.
    pub open spec fn address(self) -> Address {
        match self {
            SocketAddress::V4(s) => Address::V4(s.addr),
            SocketAddress::V6(s) => Address::V6(s.addr),
        }
    }

    /// The socket address of `addr` with the port and every other field left
    /// at zero.
    pub open spec fn of(addr: Address) -> SocketAddress {
        match addr {
            Address::V4(a) => SocketAddress::V4(SocketAddressV4 { port: 0, addr: a }),
            Address::V6(a) => SocketAddress::V6(
                SocketAddressV6 { port: 0, flow_info: 0, addr: a, scope_id: 0 },
            ),
        }
    }
}

/// One node of the address-info list of the modern lookup.
#[derive(Debug, PartialEq, Eq)]
pub struct AddressInfo {
    pub flags: i32,
    pub family: AddressFamily,
    pub socket_type: SocketType,
    pub protocol: i32,
    pub address_len: usize,
    pub canonical_name: String,
    pub address: SocketAddress,
    pub next: Option<Box<AddressInfo>>,
}

impl AddressInfo {
    /// The family tag and the length field fit the socket address.
    pub open spec fn wf(&self) -> bool {
        &&& self.family == self.address.family()
        &&& self.address_len == self.family.socket_address_len()
    }

    /// The node is the one that answers a lookup of `hostname` with `addr`:
    /// a single stream-oriented entry named `hostname` that ends the list.
    pub open spec fn answers(&self, hostname: Seq<char>, addr: Address) -> bool {
        &&& self.flags == 0
        &&& self.family == addr.family()
        &&& self.socket_type == SocketType::Stream
        &&& self.protocol == 0
        &&& self.address_len == addr.family().socket_address_len()
        &&& self.canonical_name@ == hostname
        &&& self.address == SocketAddress::of(addr)
        &&& self.next is None
    }

    /// A reader that follows the family tag into the socket address finds
    /// `addr`.
    pub open spec fn yields(&self, addr: Address) -> bool {
        &&& self.family == self.address.family()
        &&& self.address.address() == addr
    }
}

/// Builds the host record that answers a lookup of `hostname` with `addr`.
pub fn build_host_record(hostname: &str, addr: Address) -> (r: HostRecord)
    ensures
        r.answers(hostname@, addr),
        r.wf(),
{
    let name = String::from_str(hostname);
    let raw = addr.to_octets();
    let (family, length) = match addr {
        Address::V4(_) => (AddressFamily::Inet, IN_ADDR_LEN),
        Address::V6(_) => (AddressFamily::Inet6, IN6_ADDR_LEN),
    };
    let mut addresses: Vec<Vec<u8>> = Vec::new();
    addresses.push(raw);
    HostRecord { name, aliases: Vec::new(), family, length, addresses }
}

/// Builds the address-info node that answers a lookup of `hostname` with
/// `addr`.
pub fn build_address_info(hostname: &str, addr: Address) -> (r: AddressInfo)
    ensures
        r.answers(hostname@, addr),
        r.wf(),
{
    let canonical_name = String::from_str(hostname);
    let family = match addr {
        Address::V4(_) => AddressFamily::Inet,
        Address::V6(_) => AddressFamily::Inet6,
    };
    let address_len = match addr {
        Address::V4(_) => SOCKADDR_IN_LEN,
        Address::V6(_) => SOCKADDR_IN6_LEN,
    };
    let address = match addr {
        Address::V4(a) => SocketAddress::V4(SocketAddressV4 { port: 0, addr: a }),
        Address::V6(a) => SocketAddress::V6(
            SocketAddressV6 { port: 0, flow_info: 0, addr: a, scope_id: 0 },
        ),
    };
    AddressInfo {
        flags: 0,
        family,
        socket_type: SocketType::Stream,
        protocol: 0,
        address_len,
        canonical_name,
        address,
        next: None,
    }
}

/// Two addresses of one family with the same octets are the same address.
pub proof fn lemma_address_from_octets(a: Address, b: Address)
    requires
        a.family() == b.family(),
        a.octets() == b.octets(),
    ensures
        a == b,
{
    match (a, b) {
        (Address::V4(x), Address::V4(y)) => {
            assert(x =~= y);
        },
        (Address::V6(x), Address::V6(y)) => {
            assert(x =~= y);
        },
        _ => {},
    }
}

/// Reading the address back out of the host record built for `addr` gives
/// `addr` again, and nothing else.
pub proof fn lemma_host_record_round_trip(
    record: HostRecord,
    hostname: Seq<char>,
    addr: Address,
    read: Address,
)
    requires
        record.answers(hostname, addr),
    ensures
        record.yields(addr),
        record.yields(read) ==> read == addr,
{
    assert(record.addresses@[0]@.take(record.length as int) == record.addresses@[0]@);
    if record.yields(read) {
        lemma_address_from_octets(read, addr);
    }
}

/// Reading the address back out of the address-info node built for `addr`
/// gives `addr` again, and nothing else.
pub proof fn lemma_address_info_round_trip(
    node: AddressInfo,
    hostname: Seq<char>,
    addr: Address,
    read: Address,
)
    requires
        node.answers(hostname, addr),
    ensures
        node.yields(addr),
        node.yields(read) ==> read == addr,
{
}

} // verus!
