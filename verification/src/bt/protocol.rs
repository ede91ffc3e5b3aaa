//! KRPC protocol bits as described in
//! [BEP 0005](http://www.bittorrent.org/beps/bep_0005.html).

use crate::assoc::distinct_keys;
use crate::assoc::entries_map;
use crate::assoc::has_key;
use crate::assoc::lemma_empty_entries;
use crate::assoc::lemma_entry_in_map;
use crate::assoc::lemma_push_entry;
use crate::base::Node;
use crate::base::NodeModel;
use crate::bencoding::bencode_value;
use crate::bencoding::borrowed_entries;
use crate::bencoding::byte_string;
use crate::bencoding::dict;
use crate::bencoding::inspect;
use crate::bencoding::item_values;
use crate::bencoding::list;
use crate::bencoding::number;
use crate::bencoding::owned_entries;
use crate::bencoding::Shape;
use crate::bencoding::Value;
use crate::bignum::biguint_add;
use crate::bignum::biguint_and;
use crate::bignum::biguint_from_u8;
use crate::bignum::biguint_shl;
use crate::bignum::biguint_shr;
use crate::bignum::biguint_to_u8;
use crate::bignum::biguint_value;
use crate::bignum::lemma_bit_length_bound;
use crate::bignum::lemma_nat_and_low_byte;
use crate::bt::big_endian::be_bytes;
use crate::bt::big_endian::be_value;
use crate::bt::big_endian::lemma_be_value_bound;
use crate::bt::big_endian::lemma_be_value_of_bytes;
use crate::bt::payload_dict::field_pairs;
use crate::bt::payload_dict::PayloadDict;
use crate::error::ProtocolError;
use crate::text::same_bytes;
use crate::text::string_from_utf8;
use crate::utils::address_bytes;
use crate::utils::address_from_bytes;
use crate::utils::netaddr_from_netbytes;
use crate::utils::netaddr_to_netbytes;
use crate::utils::ADDRESS_BYTE_SIZE;
use bencode::Bencode;
use num::BigUint;
use vstd::arithmetic::power2::*;
use vstd::prelude::*;
use vstd::slice::slice_subrange;
use vstd::slice::slice_to_vec;
use vstd::utf8::decode_utf8;
use vstd::utf8::decode_utf8_encode_utf8;
use vstd::utf8::encode_utf8;
use vstd::utf8::encode_utf8_decode_utf8;
use vstd::utf8::encode_utf8_valid_utf8;
use vstd::utf8::valid_utf8;

verus! {

/// Length of a packed node identifier.
pub const ID_BYTE_SIZE: usize = 20;

/// Number of binary digits an identifier may have.
pub const ID_BIT_SIZE: u64 = 160;

/// Whether a number can be an identifier: it has at most 160 binary digits.
pub open spec fn is_id(v: nat) -> bool {
    v < pow2(160)
}

/// Whether `id` can be packed: it needs no more than 160 bits.
pub fn id_fits(id: &BigUint) -> (fits: bool)
    ensures
        fits == is_id(biguint_value(*id)),
{
    proof {
        lemma_bit_length_bound(biguint_value(*id), 160);
    }
    id.bits() <= ID_BIT_SIZE
}

/// Packs an identifier into 20 bytes, most significant byte first, with
/// leading zero bytes as needed.
pub fn id_to_netbytes(id: &BigUint) -> (result: Vec<u8>)
    requires
        is_id(biguint_value(*id)),
    ensures
        result@ == be_bytes(biguint_value(*id), ID_BYTE_SIZE as nat),
        result@.len() == ID_BYTE_SIZE,
        be_value(result@) == biguint_value(*id),
{
    let mask = biguint_from_u8(0xFF);
    let mut rest = id.clone();
    let mut result: Vec<u8> = vec![0u8; ID_BYTE_SIZE];
    let mut i: usize = ID_BYTE_SIZE;
    let ghost full = be_bytes(biguint_value(*id), ID_BYTE_SIZE as nat);
    while i > 0
        invariant
            i <= ID_BYTE_SIZE,
            result@.len() == ID_BYTE_SIZE,
            biguint_value(mask) == 255,
            full == be_bytes(biguint_value(rest), i as nat) + result@.subrange(
                i as int,
                ID_BYTE_SIZE as int,
            ),
        decreases i,
    {
        let ghost before = biguint_value(rest);
        let ghost filled = result@.subrange(i as int, ID_BYTE_SIZE as int);
        let part = biguint_and(&rest, &mask);
        proof {
            lemma_nat_and_low_byte(before);
        }
        let byte = biguint_to_u8(&part).unwrap();
        i -= 1;
        result.set(i, byte);
        rest = biguint_shr(&rest, 8);
        proof {
            lemma2_to64();
            assert(biguint_value(rest) == before / 256);
            assert(result@.subrange(i as int, ID_BYTE_SIZE as int) =~= seq![byte] + filled);
            assert(be_bytes(before, (i + 1) as nat) == be_bytes(before / 256, i as nat).push(byte));
            assert(full =~= be_bytes(biguint_value(rest), i as nat) + result@.subrange(
                i as int,
                ID_BYTE_SIZE as int,
            ));
        }
    }
    proof {
        assert(result@ =~= full);
        lemma_be_value_of_bytes(biguint_value(*id), ID_BYTE_SIZE as nat);
    }
    result
}

/// Reads bytes, most significant byte first, as an identifier.  Any bytes are
/// accepted; 20 bytes always give a number below `2^160`.
pub fn id_from_netbytes(bytes: &[u8]) -> (id: BigUint)
    ensures
        biguint_value(id) == be_value(bytes@),
        bytes@.len() == ID_BYTE_SIZE ==> is_id(biguint_value(id)),
{
    let mut result = biguint_from_u8(0);
    let mut i: usize = 0;
    while i < bytes.len()
        invariant
            i <= bytes@.len(),
            biguint_value(result) == be_value(bytes@.take(i as int)),
        decreases bytes@.len() - i,
    {
        let val = biguint_from_u8(bytes[i]);
        let shifted = biguint_shl(&result, 8);
        result = biguint_add(&shifted, &val);
        proof {
            lemma2_to64();
            let next = bytes@.take(i + 1);
            assert(next.drop_last() =~= bytes@.take(i as int));
            assert(next.last() == bytes@[i as int]);
        }
        i += 1;
    }
    proof {
        assert(bytes@.take(i as int) =~= bytes@);
        lemma_be_value_bound(bytes@);
    }
    result
}

/// Length of a compact node: a packed identifier and a packed IPv4 address.
pub const NODE_BYTE_SIZE: usize = 26;

/// The compact form of a node: its packed identifier, then its packed address.
pub open spec fn node_bytes(node: NodeModel) -> Seq<u8> {
    be_bytes(node.id, ID_BYTE_SIZE as nat) + address_bytes(node.address)
}

/// The node that 26 bytes stand for: the first 20 are the identifier, the
/// last 6 the address.
pub open spec fn node_from_bytes(bytes: Seq<u8>) -> NodeModel {
    NodeModel {
        id: be_value(bytes.subrange(0, ID_BYTE_SIZE as int)),
        address: address_from_bytes(bytes.subrange(ID_BYTE_SIZE as int, NODE_BYTE_SIZE as int)),
    }
}

/// A node as a bencoded value: the byte string of its compact form.
pub open spec fn encode_node(node: NodeModel) -> Value {
    Value::ByteString(node_bytes(node))
}

/// The node a bencoded value stands for: a byte string of exactly 26 bytes
/// is a node, anything else is none.
pub open spec fn decode_node(value: Value) -> Option<NodeModel> {
    match value {
        Value::ByteString(bytes) => if bytes.len() == NODE_BYTE_SIZE {
            Some(node_from_bytes(bytes))
        } else {
            None
        },
        _ => None,
    }
}

impl Node {
    /// Encodes the node as a byte string of 26 bytes.
    ///
    /// The identifier must fit in 160 bits.  A node without an IPv4 address
    /// cannot be encoded.
    pub fn to_bencode(&self) -> (res: Result<Bencode, ProtocolError>)
        requires
            is_id(self@.id),
        ensures
            match res {
                Ok(b) => self.address is V4 && bencode_value(b) == encode_node(self@)
                    && node_bytes(self@).len() == NODE_BYTE_SIZE,
                Err(e) => self.address is V6 && e == ProtocolError::UnsupportedAddressFamily,
            },
    {
        let mut result = id_to_netbytes(&self.id);
        match netaddr_to_netbytes(&self.address) {
            Ok(mut address) => {
                result.append(&mut address);
                Ok(byte_string(result))
            },
            Err(e) => Err(e),
        }
    }

    /// Encodes the node if its identifier fits in 160 bits, and reports a
    /// contract violation if it does not.
    pub fn try_to_bencode(&self) -> (res: Result<Bencode, ProtocolError>)
        ensures
            match res {
                Ok(b) => is_id(self@.id) && self.address is V4 && bencode_value(b) == encode_node(
                    self@,
                ),
                Err(e) => if is_id(self@.id) {
                    self.address is V6 && e == ProtocolError::UnsupportedAddressFamily
                } else {
                    e == ProtocolError::ContractViolation
                },
            },
    {
        if id_fits(&self.id) {
            self.to_bencode()
        } else {
            Err(ProtocolError::ContractViolation)
        }
    }

    /// Decodes a node from a byte string of exactly 26 bytes.  Any other
    /// value is no node.
    pub fn from_bencode(b: &Bencode) -> (res: Option<Node>)
        ensures
            match res {
                Some(node) => decode_node(bencode_value(*b)) == Some(node@),
                None => decode_node(bencode_value(*b)) is None,
            },
    {
        match inspect(b) {
            Shape::ByteString(v) => {
                if v.len() == NODE_BYTE_SIZE {
                    let bytes = v.as_slice();
                    let id = id_from_netbytes(slice_subrange(bytes, 0, ID_BYTE_SIZE));
                    let address = netaddr_from_netbytes(
                        slice_subrange(bytes, ID_BYTE_SIZE, NODE_BYTE_SIZE),
                    );
                    Some(Node { id, address })
                } else {
                    None
                }
            },
            _ => None,
        }
    }
}

/// Package payload in KRPC: either Query (request) or Response or Error.
#[derive(Debug, PartialEq)]
pub enum Payload {
    /// Request to a node.
    Query(PayloadDict),
    /// Response to request.
    Response(PayloadDict),
    /// Error: code and string message.
    Error(i64, String),
}

/// KRPC package.
#[derive(Debug, PartialEq)]
pub struct Package {
    /// Transaction ID generated by requester and passed back by responder.
    pub transaction_id: Vec<u8>,
    /// Package payload.
    pub payload: Payload,
    /// Sender Node (note that as per BEP 0005 it is stored in payload).
    /// Queries and responses carry it; an error carries no node.
    pub sender: Option<Node>,
}

/// A payload as contracts see it.
pub enum PayloadModel {
    Query(Map<Seq<char>, Seq<u8>>),
    Response(Map<Seq<char>, Seq<u8>>),
    Error(i64, Seq<char>),
}

/// A package as contracts see it.
pub struct PackageModel {
    pub transaction_id: Seq<u8>,
    pub payload: PayloadModel,
    pub sender: Option<NodeModel>,
}

impl View for Payload {
    type V = PayloadModel;

    open spec fn view(&self) -> PayloadModel {
        match self {
            Payload::Query(fields) => PayloadModel::Query(fields@),
            Payload::Response(fields) => PayloadModel::Response(fields@),
            Payload::Error(code, message) => PayloadModel::Error(*code, message@),
        }
    }
}

/// The sender of a package as contracts see it.
pub open spec fn sender_model(sender: Option<Node>) -> Option<NodeModel> {
    match sender {
        Some(node) => Some(node@),
        None => None,
    }
}

impl View for Package {
    type V = PackageModel;

    open spec fn view(&self) -> PackageModel {
        PackageModel {
            transaction_id: self.transaction_id@,
            payload: self.payload@,
            sender: sender_model(self.sender),
        }
    }
}

impl Clone for Payload {
    /// A copy of the same kind with the same contents.
    fn clone(&self) -> (copy: Payload)
        ensures
            copy@ == self@,
    {
        match self {
            Payload::Query(fields) => Payload::Query(fields.clone()),
            Payload::Response(fields) => Payload::Response(fields.clone()),
            Payload::Error(code, message) => Payload::Error(*code, message.clone()),
        }
    }
}

impl Clone for Package {
    /// A copy with the same transaction id, payload and sender.
    fn clone(&self) -> (copy: Package)
        ensures
            copy@ == self@,
    {
        let transaction_id = self.transaction_id.clone();
        assert(transaction_id@ =~= self.transaction_id@);
        let sender = match &self.sender {
            Some(node) => Some(node.clone()),
            None => None,
        };
        Package { transaction_id, payload: self.payload.clone(), sender }
    }
}

/// Byte `t`: the key of the transaction id.
pub const TRANSACTION_KEY: u8 = 0x74;

/// Byte `y`: the key of the message type.
pub const TYPE_KEY: u8 = 0x79;

/// Byte `q`: the type of a query and the key of its payload.
pub const QUERY_TAG: u8 = 0x71;

/// Byte `r`: the type of a response and the key of its payload.
pub const RESPONSE_TAG: u8 = 0x72;

/// Byte `e`: the type of an error and the key of its payload.
pub const ERROR_TAG: u8 = 0x65;

/// The bytes `id`: the reserved key under which a payload holds its sender.
pub open spec fn sender_key() -> Seq<u8> {
    seq![0x69u8, 0x64u8]
}

/// The type of a payload, which is also the key it is stored under.
pub open spec fn payload_tag(payload: PayloadModel) -> u8 {
    match payload {
        PayloadModel::Query(_) => QUERY_TAG,
        PayloadModel::Response(_) => RESPONSE_TAG,
        PayloadModel::Error(_, _) => ERROR_TAG,
    }
}

/// The caller's fields as dictionary entries: every field but one under the
/// reserved key is stored under the UTF-8 encoding of its key, as a byte
/// string.
pub open spec fn field_entries(fields: Map<Seq<char>, Seq<u8>>) -> Map<Seq<u8>, Value> {
    Map::new(
        |key: Seq<u8>|
            key != sender_key() && valid_utf8(key) && fields.contains_key(decode_utf8(key)),
        |key: Seq<u8>| Value::ByteString(fields[decode_utf8(key)]),
    )
}

/// The dictionary of a query or a response: the caller's fields, and the
/// sender under the reserved key.
pub open spec fn encode_fields(fields: Map<Seq<char>, Seq<u8>>, sender: NodeModel) -> Value {
    Value::Dict(field_entries(fields).insert(sender_key(), encode_node(sender)))
}

/// The value stored under the payload key.
pub open spec fn encode_payload(package: PackageModel) -> Value {
    match package.payload {
        PayloadModel::Query(fields) => encode_fields(fields, package.sender.unwrap()),
        PayloadModel::Response(fields) => encode_fields(fields, package.sender.unwrap()),
        PayloadModel::Error(code, message) => Value::List(
            seq![Value::Number(code), Value::ByteString(encode_utf8(message))],
        ),
    }
}

/// A package as a bencoded value: a dictionary of the transaction id, the
/// message type, and the payload under the key that the type names.
pub open spec fn encode_package(package: PackageModel) -> Value {
    Value::Dict(
        Map::<Seq<u8>, Value>::empty().insert(
            seq![TRANSACTION_KEY],
            Value::ByteString(package.transaction_id),
        ).insert(seq![TYPE_KEY], Value::ByteString(seq![payload_tag(package.payload)])).insert(
            seq![payload_tag(package.payload)],
            encode_payload(package),
        ),
    )
}

/// Whether a package can be handed to the encoder: a query or a response
/// names its sender, and the sender's identifier fits in 160 bits.
pub open spec fn encodable(package: PackageModel) -> bool {
    !(package.payload is Error) ==> package.sender is Some && is_id(package.sender.unwrap().id)
}

/// Whether the encoder can pack the sender's address.  An error carries no
/// sender, so it can always be encoded.
pub open spec fn sender_supported(package: PackageModel) -> bool {
    !(package.payload is Error) ==> package.sender.unwrap().address is V4
}

/// Appends an entry under a key that the entries do not hold yet.
fn push_entry(entries: &mut Vec<(Vec<u8>, Bencode)>, key: Vec<u8>, value: Bencode)
    requires
        distinct_keys(owned_entries(old(entries)@)),
        !entries_map(owned_entries(old(entries)@)).contains_key(key@),
    ensures
        distinct_keys(owned_entries(final(entries)@)),
        entries_map(owned_entries(final(entries)@)) == entries_map(
            owned_entries(old(entries)@),
        ).insert(key@, bencode_value(value)),
{
    proof {
        let before = owned_entries(entries@);
        assert(!has_key(before, key@));
        lemma_push_entry(before, key@, bencode_value(value));
        assert(owned_entries(entries@.push((key, value))) =~= before.push(
            (key@, bencode_value(value)),
        ));
    }
    entries.push((key, value));
}

/// The reserved key under which a payload holds its sender.
fn sender_key_bytes() -> (key: Vec<u8>)
    ensures
        key@ == sender_key(),
{
    let mut key: Vec<u8> = Vec::new();
    key.push(0x69);
    key.push(0x64);
    assert(key@ =~= sender_key());
    key
}

/// A key of one byte.
fn byte_key(byte: u8) -> (key: Vec<u8>)
    ensures
        key@ == seq![byte],
{
    let mut key: Vec<u8> = Vec::new();
    key.push(byte);
    assert(key@ =~= seq![byte]);
    key
}

/// Adding a field that is not stored under the reserved key adds one entry.
proof fn lemma_field_entries_insert(fields: Map<Seq<char>, Seq<u8>>, key: Seq<char>, bytes: Seq<u8>)
    requires
        encode_utf8(key) != sender_key(),
    ensures
        field_entries(fields.insert(key, bytes)) == field_entries(fields).insert(
            encode_utf8(key),
            Value::ByteString(bytes),
        ),
{
    encode_utf8_valid_utf8(key);
    encode_utf8_decode_utf8(key);
    let left = field_entries(fields.insert(key, bytes));
    let right = field_entries(fields).insert(encode_utf8(key), Value::ByteString(bytes));
    assert forall|k: Seq<u8>| left.contains_key(k) <==> right.contains_key(k) by {
        if valid_utf8(k) {
            decode_utf8_encode_utf8(k);
        }
    }
    assert forall|k: Seq<u8>| left.contains_key(k) implies left[k] == right[k] by {
        decode_utf8_encode_utf8(k);
    }
    assert(left =~= right);
}

/// A field under the reserved key leaves no entry.
proof fn lemma_field_entries_reserved(
    fields: Map<Seq<char>, Seq<u8>>,
    key: Seq<char>,
    bytes: Seq<u8>,
)
    requires
        encode_utf8(key) == sender_key(),
        !fields.contains_key(key),
    ensures
        field_entries(fields.insert(key, bytes)) == field_entries(fields),
{
    let left = field_entries(fields.insert(key, bytes));
    let right = field_entries(fields);
    assert forall|k: Seq<u8>| left.contains_key(k) <==> right.contains_key(k) by {
        if valid_utf8(k) {
            decode_utf8_encode_utf8(k);
        }
    }
    assert forall|k: Seq<u8>| left.contains_key(k) implies left[k] == right[k] by {
        decode_utf8_encode_utf8(k);
    }
    assert(left =~= right);
}

/// Whether the entries of a payload dictionary can be fields: every key but
/// the reserved one is valid UTF-8 and holds a byte string.
pub open spec fn fields_valid(entries: Map<Seq<u8>, Value>) -> bool {
    forall|key: Seq<u8>|
        #![trigger entries.contains_key(key)]
        entries.contains_key(key) && key != sender_key() ==> valid_utf8(key)
            && entries[key] is ByteString
}

/// The fields that a payload dictionary holds: every entry but the one under
/// the reserved key, with the key read as UTF-8.
pub open spec fn decode_fields(entries: Map<Seq<u8>, Value>) -> Map<Seq<char>, Seq<u8>> {
    Map::new(
        |key: Seq<char>| encode_utf8(key) != sender_key() && entries.contains_key(encode_utf8(key)),
        |key: Seq<char>| entries[encode_utf8(key)]->ByteString_0,
    )
}

/// Whether a value can be the dictionary of a query or a response: it is a
/// dictionary, it holds a node under the reserved key, and its other entries
/// can be fields.
pub open spec fn payload_dict_valid(value: Value) -> bool {
    &&& value is Dict
    &&& value->Dict_0.contains_key(sender_key())
    &&& decode_node(value->Dict_0[sender_key()]) is Some
    &&& fields_valid(value->Dict_0)
}

/// Whether a value can be the payload of an error: a list of an integer and
/// a byte string that is valid UTF-8.
pub open spec fn error_valid(value: Value) -> bool {
    &&& value is List
    &&& value->List_0.len() == 2
    &&& value->List_0[0] is Number
    &&& value->List_0[1] is ByteString
    &&& valid_utf8(value->List_0[1]->ByteString_0)
}

/// The message that the entries of a top-level dictionary stand for.
///
/// The transaction id is looked at first, then the message type, then the
/// payload that the type names.  A missing key, a value of the wrong type or
/// a wrong length makes the message malformed; a type other than `q`, `r`
/// and `e` is unknown.
pub open spec fn decode_entries(entries: Map<Seq<u8>, Value>) -> Result<
    PackageModel,
    ProtocolError,
> {
    if !(entries.contains_key(seq![TRANSACTION_KEY]) && entries[seq![
        TRANSACTION_KEY,
    ]] is ByteString) {
        Err(ProtocolError::MalformedMessage)
    } else if !(entries.contains_key(seq![TYPE_KEY]) && entries[seq![TYPE_KEY]] is ByteString) {
        Err(ProtocolError::MalformedMessage)
    } else {
        let transaction_id = entries[seq![TRANSACTION_KEY]]->ByteString_0;
        let tag = entries[seq![TYPE_KEY]]->ByteString_0;
        if tag == seq![QUERY_TAG] || tag == seq![RESPONSE_TAG] {
            if entries.contains_key(tag) && payload_dict_valid(entries[tag]) {
                let payload = entries[tag]->Dict_0;
                let fields = decode_fields(payload);
                Ok(
                    PackageModel {
                        transaction_id,
                        payload: if tag == seq![QUERY_TAG] {
                            PayloadModel::Query(fields)
                        } else {
                            PayloadModel::Response(fields)
                        },
                        sender: decode_node(payload[sender_key()]),
                    },
                )
            } else {
                Err(ProtocolError::MalformedMessage)
            }
        } else if tag == seq![ERROR_TAG] {
            if entries.contains_key(tag) && error_valid(entries[tag]) {
                let items = entries[tag]->List_0;
                Ok(
                    PackageModel {
                        transaction_id,
                        payload: PayloadModel::Error(
                            items[0]->Number_0,
                            decode_utf8(items[1]->ByteString_0),
                        ),
                        sender: None,
                    },
                )
            } else {
                Err(ProtocolError::MalformedMessage)
            }
        } else {
            Err(ProtocolError::UnknownMessageType)
        }
    }
}

/// The message that a bencoded value stands for.  A value that is no
/// dictionary is malformed.
pub open spec fn decode_package(value: Value) -> Result<PackageModel, ProtocolError> {
    match value {
        Value::Dict(entries) => decode_entries(entries),
        _ => Err(ProtocolError::MalformedMessage),
    }
}

/// The value stored under `key`, if the dictionary holds the key.
fn lookup<'a>(entries: &Vec<(&'a [u8], &'a Bencode)>, key: &[u8]) -> (found: Option<&'a Bencode>)
    requires
        distinct_keys(borrowed_entries(entries@)),
    ensures
        match found {
            Some(value) => entries_map(borrowed_entries(entries@)).contains_key(key@)
                && bencode_value(*value) == entries_map(borrowed_entries(entries@))[key@],
            None => !entries_map(borrowed_entries(entries@)).contains_key(key@),
        },
{
    let ghost listed = borrowed_entries(entries@);
    let mut i: usize = 0;
    while i < entries.len()
        invariant
            i <= entries@.len(),
            listed == borrowed_entries(entries@),
            distinct_keys(listed),
            forall|j: int| 0 <= j < i ==> (#[trigger] listed[j]).0 != key@,
        decreases entries@.len() - i,
    {
        if same_bytes(entries[i].0, key) {
            proof {
                assert(listed[i as int].0 == key@);
                lemma_entry_in_map(listed, i as int);
            }
            return Some(entries[i].1);
        }
        i += 1;
    }
    None
}

/// The bytes of a value that is a byte string.
fn byte_string_of<'a>(b: &'a Bencode) -> (found: Option<&'a Vec<u8>>)
    ensures
        match found {
            Some(bytes) => bencode_value(*b) == Value::ByteString(bytes@),
            None => !(bencode_value(*b) is ByteString),
        },
{
    match inspect(b) {
        Shape::ByteString(bytes) => Some(bytes),
        _ => None,
    }
}

/// The bytes stored under `key`, if the dictionary holds a byte string there.
fn lookup_bytes<'a>(entries: &Vec<(&'a [u8], &'a Bencode)>, key: &[u8]) -> (found: Option<
    &'a Vec<u8>,
>)
    requires
        distinct_keys(borrowed_entries(entries@)),
    ensures
        match found {
            Some(bytes) => entries_map(borrowed_entries(entries@)).contains_key(key@)
                && entries_map(borrowed_entries(entries@))[key@] == Value::ByteString(bytes@),
            None => !(entries_map(borrowed_entries(entries@)).contains_key(key@) && entries_map(
                borrowed_entries(entries@),
            )[key@] is ByteString),
        },
{
    match lookup(entries, key) {
        Some(value) => byte_string_of(value),
        None => None,
    }
}

/// Putting an entry that can be a field into a payload dictionary adds the
/// field.
proof fn lemma_decode_fields_insert(entries: Map<Seq<u8>, Value>, key: Seq<u8>, bytes: Seq<u8>)
    requires
        key != sender_key(),
        valid_utf8(key),
    ensures
        decode_fields(entries.insert(key, Value::ByteString(bytes))) == decode_fields(
            entries,
        ).insert(decode_utf8(key), bytes),
{
    decode_utf8_encode_utf8(key);
    let left = decode_fields(entries.insert(key, Value::ByteString(bytes)));
    let right = decode_fields(entries).insert(decode_utf8(key), bytes);
    assert forall|k: Seq<char>| left.contains_key(k) <==> right.contains_key(k) by {
        encode_utf8_decode_utf8(k);
    }
    assert forall|k: Seq<char>| left.contains_key(k) implies left[k] == right[k] by {
        encode_utf8_decode_utf8(k);
    }
    assert(left =~= right);
}

/// The entry under the reserved key is no field.
proof fn lemma_decode_fields_reserved(entries: Map<Seq<u8>, Value>, value: Value)
    ensures
        decode_fields(entries.insert(sender_key(), value)) == decode_fields(entries),
{
    assert(decode_fields(entries.insert(sender_key(), value)) =~= decode_fields(entries));
}

/// Reads the fields of a query or a response from the entries of its
/// dictionary.
fn fields_from_entries(entries: &Vec<(&[u8], &Bencode)>) -> (res: Option<PayloadDict>)
    requires
        distinct_keys(borrowed_entries(entries@)),
    ensures
        match res {
            Some(fields) => fields_valid(entries_map(borrowed_entries(entries@))) && fields@
                == decode_fields(entries_map(borrowed_entries(entries@))),
            None => !fields_valid(entries_map(borrowed_entries(entries@))),
        },
{
    let ghost listed = borrowed_entries(entries@);
    let reserved = sender_key_bytes();
    let mut fields = PayloadDict::new();
    proof {
        lemma_empty_entries::<Seq<u8>, Value>();
        assert(listed.take(0) =~= Seq::empty());
        assert(decode_fields(Map::<Seq<u8>, Value>::empty()) =~= Map::<
            Seq<char>,
            Seq<u8>,
        >::empty());
    }
    let mut i: usize = 0;
    while i < entries.len()
        invariant
            i <= entries@.len(),
            listed == borrowed_entries(entries@),
            distinct_keys(listed),
            reserved@ == sender_key(),
            distinct_keys(listed.take(i as int)),
            fields_valid(entries_map(listed.take(i as int))),
            fields@ == decode_fields(entries_map(listed.take(i as int))),
        decreases entries@.len() - i,
    {
        let key = entries[i].0;
        let ghost held = bencode_value(*entries@[i as int].1);
        proof {
            let seen = listed.take(i as int);
            assert(listed[i as int] == (key@, held));
            assert(listed.take(i + 1) =~= seen.push((key@, held)));
            assert(!has_key(seen, key@)) by {
                if has_key(seen, key@) {
                    let j = choose|j: int| 0 <= j < seen.len() && (#[trigger] seen[j]).0 == key@;
                    assert(listed[j].0 != listed[i as int].0);
                }
            }
            lemma_push_entry(seen, key@, held);
            lemma_entry_in_map(listed, i as int);
        }
        if same_bytes(key, reserved.as_slice()) {
            proof {
                lemma_decode_fields_reserved(entries_map(listed.take(i as int)), held);
            }
        } else {
            let text = match string_from_utf8(key) {
                Some(text) => text,
                None => {
                    return None;
                },
            };
            let bytes = match byte_string_of(entries[i].1) {
                Some(bytes) => bytes.clone(),
                None => {
                    return None;
                },
            };
            proof {
                assert(bytes@ =~= held->ByteString_0);
                encode_utf8_valid_utf8(text@);
                encode_utf8_decode_utf8(text@);
                lemma_decode_fields_insert(entries_map(listed.take(i as int)), key@, bytes@);
            }
            fields.insert(text, bytes);
        }
        i += 1;
    }
    proof {
        assert(listed.take(i as int) =~= listed);
    }
    Some(fields)
}

impl Package {
    /// Encodes the fields of a query or a response together with the sender,
    /// which is stored under the reserved key `id`.
    fn payload_dict_to_bencode(&self, d: &PayloadDict) -> (res: Result<Bencode, ProtocolError>)
        requires
            self.sender is Some,
            is_id(self.sender.unwrap()@.id),
        ensures
            match res {
                Ok(b) => self.sender.unwrap().address is V4 && bencode_value(b) == encode_fields(
                    d@,
                    self.sender.unwrap()@,
                ),
                Err(e) => self.sender.unwrap().address is V6 && e
                    == ProtocolError::UnsupportedAddressFamily,
            },
    {
        let fields = d.entries();
        let ghost pairs = d.pairs();
        let reserved = sender_key_bytes();
        let mut result: Vec<(Vec<u8>, Bencode)> = Vec::new();
        proof {
            lemma_empty_entries::<Seq<u8>, Value>();
            lemma_empty_entries::<Seq<char>, Seq<u8>>();
            assert(owned_entries(result@) =~= Seq::empty());
            assert(pairs.take(0) =~= Seq::empty());
            assert(field_entries(Map::<Seq<char>, Seq<u8>>::empty()) =~= Map::<
                Seq<u8>,
                Value,
            >::empty());
        }
        let mut i: usize = 0;
        while i < fields.len()
            invariant
                i <= fields@.len(),
                field_pairs(fields@) == pairs,
                distinct_keys(pairs),
                reserved@ == sender_key(),
                distinct_keys(pairs.take(i as int)),
                distinct_keys(owned_entries(result@)),
                entries_map(owned_entries(result@)) == field_entries(
                    entries_map(pairs.take(i as int)),
                ),
            decreases fields@.len() - i,
        {
            let key = slice_to_vec(fields[i].0.as_str().as_bytes());
            let ghost text = fields@[i as int].0@;
            let ghost bytes = fields@[i as int].1@;
            proof {
                let seen = pairs.take(i as int);
                let next = pairs.take(i + 1);
                assert(pairs[i as int] == (text, bytes));
                assert(next =~= seen.push((text, bytes)));
                assert(!has_key(seen, text)) by {
                    if has_key(seen, text) {
                        let j = choose|j: int| 0 <= j < seen.len() && (#[trigger] seen[j]).0 == text;
                        assert(pairs[j].0 != pairs[i as int].0);
                    }
                }
                lemma_push_entry(seen, text, bytes);
            }
            if same_bytes(key.as_slice(), reserved.as_slice()) {
                proof {
                    lemma_field_entries_reserved(entries_map(pairs.take(i as int)), text, bytes);
                }
            } else {
                let value = fields[i].1.clone();
                proof {
                    assert(value@ =~= bytes);
                    lemma_field_entries_insert(entries_map(pairs.take(i as int)), text, bytes);
                    encode_utf8_decode_utf8(text);
                    encode_utf8_valid_utf8(text);
                }
                push_entry(&mut result, key, byte_string(value));
            }
            i += 1;
        }
        proof {
            assert(pairs.take(i as int) =~= pairs);
        }
        match self.sender.as_ref().unwrap().to_bencode() {
            Ok(sender) => {
                push_entry(&mut result, reserved, sender);
                Ok(dict(result))
            },
            Err(e) => Err(e),
        }
    }

    /// Encodes the package as a dictionary with the transaction id under `t`,
    /// the message type under `y`, and the payload under the key that the
    /// type names.
    ///
    /// The package must be encodable: a query or a response names its sender,
    /// whose identifier fits in 160 bits.  A sender without an IPv4 address
    /// cannot be encoded; an error carries no sender and is always encoded.
    pub fn to_bencode(&self) -> (res: Result<Bencode, ProtocolError>)
        requires
            encodable(self@),
        ensures
            match res {
                Ok(b) => sender_supported(self@) && bencode_value(b) == encode_package(self@),
                Err(e) => !sender_supported(self@) && e == ProtocolError::UnsupportedAddressFamily,
            },
    {
        let mut result: Vec<(Vec<u8>, Bencode)> = Vec::new();
        proof {
            lemma_empty_entries::<Seq<u8>, Value>();
            assert(owned_entries(result@) =~= Seq::empty());
        }
        let id = self.transaction_id.clone();
        assert(id@ =~= self.transaction_id@);
        push_entry(&mut result, byte_key(TRANSACTION_KEY), byte_string(id));
        let (typ, payload): (u8, Bencode) = match &self.payload {
            Payload::Query(d) => match self.payload_dict_to_bencode(d) {
                Ok(fields) => (QUERY_TAG, fields),
                Err(e) => {
                    return Err(e);
                },
            },
            Payload::Response(d) => match self.payload_dict_to_bencode(d) {
                Ok(fields) => (RESPONSE_TAG, fields),
                Err(e) => {
                    return Err(e);
                },
            },
            Payload::Error(code, s) => {
                let mut l: Vec<Bencode> = Vec::new();
                l.push(number(*code));
                l.push(byte_string(slice_to_vec(s.as_str().as_bytes())));
                proof {
                    assert(item_values(l@) =~= seq![
                        Value::Number(*code),
                        Value::ByteString(encode_utf8(s@)),
                    ]);
                }
                (ERROR_TAG, list(l))
            },
        };
        proof {
            assert(seq![TYPE_KEY] != seq![TRANSACTION_KEY]) by {
                assert(seq![TYPE_KEY][0] != seq![TRANSACTION_KEY][0]);
            }
            assert(seq![typ] != seq![TRANSACTION_KEY]) by {
                assert(seq![typ][0] != seq![TRANSACTION_KEY][0]);
            }
            assert(seq![typ] != seq![TYPE_KEY]) by {
                assert(seq![typ][0] != seq![TYPE_KEY][0]);
            }
        }
        push_entry(&mut result, byte_key(TYPE_KEY), byte_string(byte_key(typ)));
        push_entry(&mut result, byte_key(typ), payload);
        Ok(dict(result))
    }

    /// Encodes the package if it is encodable, and reports a contract
    /// violation if it is not: if a query or a response names no sender, or
    /// the sender's identifier needs more than 160 bits.
    pub fn try_to_bencode(&self) -> (res: Result<Bencode, ProtocolError>)
        ensures
            match res {
                Ok(b) => encodable(self@) && sender_supported(self@) && bencode_value(b)
                    == encode_package(self@),
                Err(e) => if encodable(self@) {
                    !sender_supported(self@) && e == ProtocolError::UnsupportedAddressFamily
                } else {
                    e == ProtocolError::ContractViolation
                },
            },
    {
        let ready = match &self.payload {
            Payload::Error(_, _) => true,
            _ => match &self.sender {
                Some(node) => id_fits(&node.id),
                None => false,
            },
        };
        if ready {
            self.to_bencode()
        } else {
            Err(ProtocolError::ContractViolation)
        }
    }

    /// Decodes a package from a dictionary with the transaction id under `t`,
    /// the message type under `y`, and the payload under the key that the
    /// type names.  A value that does not have this form is refused: as a
    /// message of unknown type when the type is none of `q`, `r` and `e`, and
    /// as malformed otherwise.
    pub fn from_bencode(b: &Bencode) -> (res: Result<Package, ProtocolError>)
        ensures
            match res {
                Ok(package) => decode_package(bencode_value(*b)) == Ok::<
                    PackageModel,
                    ProtocolError,
                >(package@),
                Err(e) => decode_package(bencode_value(*b)) == Err::<PackageModel, ProtocolError>(
                    e,
                ),
            },
    {
        let entries = match inspect(b) {
            Shape::Dict(entries) => entries,
            _ => {
                return Err(ProtocolError::MalformedMessage);
            },
        };
        let transaction_id = match lookup_bytes(&entries, byte_key(TRANSACTION_KEY).as_slice()) {
            Some(bytes) => bytes.clone(),
            None => {
                return Err(ProtocolError::MalformedMessage);
            },
        };
        let tag = match lookup_bytes(&entries, byte_key(TYPE_KEY).as_slice()) {
            Some(bytes) => bytes,
            None => {
                return Err(ProtocolError::MalformedMessage);
            },
        };
        proof {
            assert(transaction_id@ =~= entries_map(borrowed_entries(entries@))[seq![
                TRANSACTION_KEY,
            ]]->ByteString_0);
        }
        let is_query = same_bytes(tag.as_slice(), byte_key(QUERY_TAG).as_slice());
        let is_response = same_bytes(tag.as_slice(), byte_key(RESPONSE_TAG).as_slice());
        let is_error = same_bytes(tag.as_slice(), byte_key(ERROR_TAG).as_slice());
        if is_query || is_response {
            let payload = match lookup(&entries, tag.as_slice()) {
                Some(payload) => payload,
                None => {
                    return Err(ProtocolError::MalformedMessage);
                },
            };
            let inner = match inspect(payload) {
                Shape::Dict(inner) => inner,
                _ => {
                    return Err(ProtocolError::MalformedMessage);
                },
            };
            let sender = match lookup(&inner, sender_key_bytes().as_slice()) {
                Some(value) => match Node::from_bencode(value) {
                    Some(node) => node,
                    None => {
                        return Err(ProtocolError::MalformedMessage);
                    },
                },
                None => {
                    return Err(ProtocolError::MalformedMessage);
                },
            };
            let fields = match fields_from_entries(&inner) {
                Some(fields) => fields,
                None => {
                    return Err(ProtocolError::MalformedMessage);
                },
            };
            let payload = if is_query {
                Payload::Query(fields)
            } else {
                Payload::Response(fields)
            };
            Ok(Package { transaction_id, payload, sender: Some(sender) })
        } else if is_error {
            let payload = match lookup(&entries, tag.as_slice()) {
                Some(payload) => payload,
                None => {
                    return Err(ProtocolError::MalformedMessage);
                },
            };
            let items = match inspect(payload) {
                Shape::List(items) => items,
                _ => {
                    return Err(ProtocolError::MalformedMessage);
                },
            };
            if items.len() != 2 {
                return Err(ProtocolError::MalformedMessage);
            }
            let code = match inspect(&items[0]) {
                Shape::Number(code) => code,
                _ => {
                    return Err(ProtocolError::MalformedMessage);
                },
            };
            let message = match byte_string_of(&items[1]) {
                Some(bytes) => match string_from_utf8(bytes.as_slice()) {
                    Some(text) => text,
                    None => {
                        return Err(ProtocolError::MalformedMessage);
                    },
                },
                None => {
                    return Err(ProtocolError::MalformedMessage);
                },
            };
            proof {
                encode_utf8_decode_utf8(message@);
                encode_utf8_valid_utf8(message@);
            }
            Ok(Package { transaction_id, payload: Payload::Error(code, message), sender: None })
        } else {
            Err(ProtocolError::UnknownMessageType)
        }
    }
}

} // verus!
