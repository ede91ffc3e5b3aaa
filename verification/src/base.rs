//! Nodes and their addresses.

use crate::bignum::biguint_value;
use crate::text::number_text;
use crate::text::push_number;
use num::BigUint;
use vstd::prelude::*;
use vstd::string::StringExecFns;

verus! {

/// An IPv4 address: its four octets, first octet first.
#[derive(Clone, Copy, Debug, PartialEq, Eq)]
pub struct Ipv4Address(pub u8, pub u8, pub u8, pub u8);

/// An IPv6 address: its eight 16-bit groups, first group first.
#[derive(Clone, Copy, Debug, PartialEq, Eq)]
pub struct Ipv6Address(pub [u16; 8]);

/// Where a node can be reached: an internet address and a port.
#[derive(Clone, Copy, Debug, PartialEq, Eq)]
pub enum SocketAddress {
    V4(Ipv4Address, u16),
    V6(Ipv6Address, u16),
}

/// An IPv4 address as text: its octets in decimal, separated by dots.
pub open spec fn ipv4_text(ip: Ipv4Address) -> Seq<char> {
    number_text(ip.0 as nat, 10) + seq!['.'] + number_text(ip.1 as nat, 10) + seq!['.']
        + number_text(ip.2 as nat, 10) + seq!['.'] + number_text(ip.3 as nat, 10)
}

/// The first `count` groups of an IPv6 address as text: each group in
/// hexadecimal without leading zeros, separated by colons.
pub open spec fn ipv6_groups_text(ip: Ipv6Address, count: nat) -> Seq<char>
    decreases count,
{
    if count == 0 {
        Seq::empty()
    } else if count == 1 {
        number_text(ip.0@[0] as nat, 16)
    } else {
        ipv6_groups_text(ip, (count - 1) as nat) + seq![':'] + number_text(
            ip.0@[count - 1] as nat,
            16,
        )
    }
}

/// A socket address as text: `a.b.c.d:port` for an IPv4 address, and the
/// eight groups of an IPv6 address in brackets before the port.
pub open spec fn address_text(address: SocketAddress) -> Seq<char> {
    match address {
        SocketAddress::V4(ip, port) => ipv4_text(ip) + seq![':'] + number_text(port as nat, 10),
        SocketAddress::V6(ip, port) => seq!['['] + ipv6_groups_text(ip, 8) + seq![']', ':']
            + number_text(port as nat, 10),
    }
}

impl SocketAddress {
    /// The address as text, such as `127.0.0.1:80`.  The groups of an IPv6
    /// address are all written out: no run of zeros is left away.
    pub fn to_string(&self) -> (text: String)
        ensures
            text@ == address_text(*self),
    {
        proof {
            reveal_strlit(".");
            reveal_strlit(":");
            reveal_strlit("[");
            reveal_strlit("]:");
        }
        let mut text = String::new();
        match self {
            SocketAddress::V4(ip, port) => {
                push_number(&mut text, ip.0 as u16, 10);
                text.append(".");
                push_number(&mut text, ip.1 as u16, 10);
                text.append(".");
                push_number(&mut text, ip.2 as u16, 10);
                text.append(".");
                push_number(&mut text, ip.3 as u16, 10);
                text.append(":");
                push_number(&mut text, *port, 10);
                assert(text@ =~= address_text(*self));
            },
            SocketAddress::V6(ip, port) => {
                text.append("[");
                push_number(&mut text, ip.0[0], 16);
                let mut i: usize = 1;
                while i < 8
                    invariant
                        1 <= i <= 8,
                        text@ == seq!['['] + ipv6_groups_text(*ip, i as nat),
                    decreases 8 - i,
                {
                    proof {
                        reveal_strlit(":");
                    }
                    text.append(":");
                    let group: u16 = ip.0[i];
                    push_number(&mut text, group, 16);
                    assert(ipv6_groups_text(*ip, (i + 1) as nat) == ipv6_groups_text(
                        *ip,
                        i as nat,
                    ) + seq![':'] + number_text(group as nat, 16));
                    assert(text@ =~= seq!['['] + ipv6_groups_text(*ip, (i + 1) as nat));
                    i += 1;
                }
                text.append("]:");
                push_number(&mut text, *port, 10);
                assert("]:"@ =~= seq![']', ':']);
                assert(text@ =~= address_text(*self));
            },
        }
        text
    }
}

/// A participant of the hash table.
#[derive(Debug, PartialEq, Eq)]
pub struct Node {
    /// Identifier of the node, a number below `2^160`.
    pub id: BigUint,
    /// Address the node listens on.
    pub address: SocketAddress,
}

/// A node as contracts see it: the identifier is the number it stands for.
pub struct NodeModel {
    pub id: nat,
    pub address: SocketAddress,
}

impl View for Node {
    type V = NodeModel;

    open spec fn view(&self) -> NodeModel {
        NodeModel { id: biguint_value(self.id), address: self.address }
    }
}

impl Clone for Node {
    /// A copy with the same identifier and the same address.
    fn clone(&self) -> (copy: Node)
        ensures
            copy@ == self@,
    {
        Node { id: self.id.clone(), address: self.address }
    }
}

} // verus!
