//! Packing of socket addresses into network byte order.

use crate::base::Ipv4Address;
use crate::base::SocketAddress;
use crate::error::ProtocolError;
use vstd::prelude::*;

verus! {

/// Length of a packed IPv4 socket address: four octets and a two-byte port.
pub const ADDRESS_BYTE_SIZE: usize = 6;

/// The packed form of an IPv4 socket address: the four octets in order, then
/// the port with its high byte first.  Other address families have no packed
/// form; for them the result is unspecified.
pub open spec fn address_bytes(addr: SocketAddress) -> Seq<u8> {
    match addr {
        SocketAddress::V4(ip, port) => seq![
            ip.0,
            ip.1,
            ip.2,
            ip.3,
            (port / 256) as u8,
            (port % 256) as u8,
        ],
        SocketAddress::V6(_, _) => Seq::empty(),
    }
}

/// The IPv4 socket address that six bytes stand for.
pub open spec fn address_from_bytes(bytes: Seq<u8>) -> SocketAddress {
    SocketAddress::V4(
        Ipv4Address(bytes[0], bytes[1], bytes[2], bytes[3]),
        (bytes[4] as int * 256 + bytes[5] as int) as u16,
    )
}

/// Convert socket address to bytes in network order.
///
/// Only IPv4 addresses can be packed; any other address is refused.
pub fn netaddr_to_netbytes(addr: &SocketAddress) -> (res: Result<Vec<u8>, ProtocolError>)
    ensures
        match res {
            Ok(bytes) => *addr is V4 && bytes@ == address_bytes(*addr) && bytes@.len()
                == ADDRESS_BYTE_SIZE,
            Err(e) => *addr is V6 && e == ProtocolError::UnsupportedAddressFamily,
        },
{
    match addr {
        SocketAddress::V4(ip, port) => {
            let port: u16 = *port;
            let high: u8 = (port >> 8) as u8;
            let low: u8 = (port & 0xFF) as u8;
            assert(port >> 8 == port / 256) by (bit_vector);
            assert(port & 0xFF == port % 256) by (bit_vector);
            let mut res: Vec<u8> = Vec::new();
            res.push(ip.0);
            res.push(ip.1);
            res.push(ip.2);
            res.push(ip.3);
            res.push(high);
            res.push(low);
            assert(res@ =~= address_bytes(*addr));
            Ok(res)
        },
        SocketAddress::V6(_, _) => Err(ProtocolError::UnsupportedAddressFamily),
    }
}

/// Get socket address from netbytes.
pub fn netaddr_from_netbytes(bytes: &[u8]) -> (addr: SocketAddress)
    requires
        bytes@.len() == ADDRESS_BYTE_SIZE,
    ensures
        addr == address_from_bytes(bytes@),
{
    let high: u8 = bytes[4];
    let low: u8 = bytes[5];
    assert((high as u16) << 8 == high as u16 * 256) by (bit_vector);
    let port: u16 = ((high as u16) << 8) + low as u16;
    SocketAddress::V4(Ipv4Address(bytes[0], bytes[1], bytes[2], bytes[3]), port)
}

/// Unpacking undoes packing: every IPv4 socket address comes back unchanged.
pub proof fn lemma_address_round_trip(addr: SocketAddress)
    requires
        addr is V4,
    ensures
        address_bytes(addr).len() == ADDRESS_BYTE_SIZE,
        address_from_bytes(address_bytes(addr)) == addr,
{
}

/// Packing undoes unpacking: any six bytes come back unchanged.
pub proof fn lemma_address_bytes_round_trip(bytes: Seq<u8>)
    requires
        bytes.len() == ADDRESS_BYTE_SIZE,
    ensures
        address_bytes(address_from_bytes(bytes)) == bytes,
{
    assert(address_bytes(address_from_bytes(bytes)) =~= bytes);
}

} // verus!
