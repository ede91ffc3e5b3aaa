//! What holds of the codec as a whole: decoding undoes encoding.

use crate::base::NodeModel;
use crate::bencoding::Value;
use crate::bt::big_endian::be_bytes;
use crate::bt::big_endian::be_value;
use crate::bt::big_endian::lemma_be_bytes_len;
use crate::bt::big_endian::lemma_be_bytes_max;
use crate::bt::big_endian::lemma_be_bytes_of_value;
use crate::bt::big_endian::lemma_be_bytes_zero;
use crate::bt::big_endian::lemma_be_value_bound;
use crate::bt::big_endian::lemma_be_value_of_bytes;
use crate::bt::protocol::decode_fields;
use crate::bt::protocol::decode_node;
use crate::bt::protocol::decode_package;
use crate::bt::protocol::encodable;
use crate::bt::protocol::encode_node;
use crate::bt::protocol::encode_package;
use crate::bt::protocol::encode_payload;
use crate::bt::protocol::field_entries;
use crate::bt::protocol::fields_valid;
use crate::bt::protocol::is_id;
use crate::bt::protocol::node_bytes;
use crate::bt::protocol::node_from_bytes;
use crate::bt::protocol::payload_tag;
use crate::bt::protocol::sender_key;
use crate::bt::protocol::sender_supported;
use crate::bt::protocol::PackageModel;
use crate::bt::protocol::PayloadModel;
use crate::bt::protocol::ERROR_TAG;
use crate::bt::protocol::ID_BYTE_SIZE;
use crate::bt::protocol::NODE_BYTE_SIZE;
use crate::bt::protocol::QUERY_TAG;
use crate::bt::protocol::RESPONSE_TAG;
use crate::bt::protocol::TRANSACTION_KEY;
use crate::bt::protocol::TYPE_KEY;
use crate::error::ProtocolError;
use crate::utils::address_bytes;
use crate::utils::lemma_address_bytes_round_trip;
use crate::utils::lemma_address_round_trip;
use crate::utils::ADDRESS_BYTE_SIZE;
use vstd::arithmetic::power2::pow2;
use vstd::prelude::*;
use vstd::utf8::decode_utf8_encode_utf8;
use vstd::utf8::encode_utf8;
use vstd::utf8::encode_utf8_decode_utf8;
use vstd::utf8::encode_utf8_valid_utf8;
use vstd::utf8::is_ascii_chars;
use vstd::utf8::is_ascii_chars_encode_utf8;
use vstd::utf8::valid_utf8;

verus! {

/// A packed identifier has 20 bytes, a packed IPv4 address 6, and the compact
/// form of a node with an IPv4 address 26.
pub proof fn lemma_packed_lengths(node: NodeModel)
    requires
        node.address is V4,
    ensures
        be_bytes(node.id, ID_BYTE_SIZE as nat).len() == ID_BYTE_SIZE,
        address_bytes(node.address).len() == ADDRESS_BYTE_SIZE,
        node_bytes(node).len() == NODE_BYTE_SIZE,
{
    lemma_be_bytes_len(node.id, ID_BYTE_SIZE as nat);
}

/// Unpacking a packed identifier gives the identifier back, and packing the
/// identifier that 20 bytes stand for gives the bytes back.
pub proof fn lemma_id_round_trip(id: nat, bytes: Seq<u8>)
    requires
        is_id(id),
        bytes.len() == ID_BYTE_SIZE,
    ensures
        be_value(be_bytes(id, ID_BYTE_SIZE as nat)) == id,
        is_id(be_value(bytes)),
        be_bytes(be_value(bytes), ID_BYTE_SIZE as nat) == bytes,
{
    lemma_be_value_of_bytes(id, ID_BYTE_SIZE as nat);
    lemma_be_value_bound(bytes);
    lemma_be_bytes_of_value(bytes);
}

/// The identifier zero is packed as 20 zero bytes, and the largest
/// identifier, `2^160 - 1`, as 20 bytes `0xFF`.
pub proof fn lemma_extreme_ids()
    ensures
        be_bytes(0, ID_BYTE_SIZE as nat) == Seq::new(ID_BYTE_SIZE as nat, |i: int| 0u8),
        pow2(160) >= 1,
        is_id((pow2(160) - 1) as nat),
        be_bytes((pow2(160) - 1) as nat, ID_BYTE_SIZE as nat) == Seq::new(
            ID_BYTE_SIZE as nat,
            |i: int| 0xFFu8,
        ),
{
    lemma_be_bytes_zero(ID_BYTE_SIZE as nat);
    lemma_be_bytes_max(ID_BYTE_SIZE as nat);
}

/// Decoding an encoded node gives the node back, for every node with an IPv4
/// address whose identifier fits in 160 bits.
pub proof fn lemma_node_round_trip(node: NodeModel)
    requires
        is_id(node.id),
        node.address is V4,
    ensures
        decode_node(encode_node(node)) == Some(node),
{
    let id = be_bytes(node.id, ID_BYTE_SIZE as nat);
    let address = address_bytes(node.address);
    let bytes = node_bytes(node);
    lemma_packed_lengths(node);
    lemma_be_value_of_bytes(node.id, ID_BYTE_SIZE as nat);
    lemma_address_round_trip(node.address);
    assert(bytes.subrange(0, ID_BYTE_SIZE as int) =~= id);
    assert(bytes.subrange(ID_BYTE_SIZE as int, NODE_BYTE_SIZE as int) =~= address);
}

/// Any 26 bytes are a node with an IPv4 address and an identifier that fits
/// in 160 bits, and encoding that node gives the bytes back.
pub proof fn lemma_node_bytes_round_trip(bytes: Seq<u8>)
    requires
        bytes.len() == NODE_BYTE_SIZE,
    ensures
        decode_node(Value::ByteString(bytes)) == Some(node_from_bytes(bytes)),
        is_id(node_from_bytes(bytes).id),
        node_from_bytes(bytes).address is V4,
        encode_node(node_from_bytes(bytes)) == Value::ByteString(bytes),
{
    let id = bytes.subrange(0, ID_BYTE_SIZE as int);
    let address = bytes.subrange(ID_BYTE_SIZE as int, NODE_BYTE_SIZE as int);
    lemma_be_value_bound(id);
    lemma_be_bytes_of_value(id);
    lemma_address_bytes_round_trip(address);
    assert(node_bytes(node_from_bytes(bytes)) =~= bytes);
}

/// Only a byte string of exactly 26 bytes is a node.
pub proof fn lemma_node_needs_26_bytes(value: Value)
    ensures
        decode_node(value) is Some <==> value is ByteString && value->ByteString_0.len()
            == NODE_BYTE_SIZE,
{
}

/// The text `id`: the field key that is reserved for the sender.
pub open spec fn sender_field() -> Seq<char> {
    seq!['i', 'd']
}

/// A field key is stored under the reserved key exactly when it is the text
/// `id`.
pub proof fn lemma_sender_field(key: Seq<char>)
    ensures
        encode_utf8(key) == sender_key() <==> key == sender_field(),
{
    let text = sender_field();
    assert(is_ascii_chars(text));
    is_ascii_chars_encode_utf8(text);
    assert(encode_utf8(text) =~= sender_key());
    encode_utf8_decode_utf8(text);
    encode_utf8_decode_utf8(key);
}

/// What the receiver of an encoded package decodes: the package without a
/// field under the reserved key, and without a sender if it is an error.
pub open spec fn received(package: PackageModel) -> PackageModel {
    match package.payload {
        PayloadModel::Query(fields) => PackageModel {
            transaction_id: package.transaction_id,
            payload: PayloadModel::Query(fields.remove(sender_field())),
            sender: package.sender,
        },
        PayloadModel::Response(fields) => PackageModel {
            transaction_id: package.transaction_id,
            payload: PayloadModel::Response(fields.remove(sender_field())),
            sender: package.sender,
        },
        PayloadModel::Error(code, message) => PackageModel {
            transaction_id: package.transaction_id,
            payload: PayloadModel::Error(code, message),
            sender: None,
        },
    }
}

/// Reading the fields back from an encoded payload dictionary gives every
/// field but one under the reserved key.
pub proof fn lemma_fields_round_trip(fields: Map<Seq<char>, Seq<u8>>, sender: Value)
    ensures
        fields_valid(field_entries(fields).insert(sender_key(), sender)),
        decode_fields(field_entries(fields).insert(sender_key(), sender)) == fields.remove(
            sender_field(),
        ),
{
    let entries = field_entries(fields).insert(sender_key(), sender);
    let left = decode_fields(entries);
    let right = fields.remove(sender_field());
    assert forall|key: Seq<char>| left.contains_key(key) <==> right.contains_key(key) by {
        lemma_sender_field(key);
        encode_utf8_valid_utf8(key);
        encode_utf8_decode_utf8(key);
    }
    assert forall|key: Seq<char>| left.contains_key(key) implies left[key] == right[key] by {
        encode_utf8_decode_utf8(key);
    }
    assert(left =~= right);
}

/// Decoding an encoded package gives back its transaction id, the kind of its
/// payload and its contents: the fields of a query or a response but one
/// under the reserved key, together with the sender, or the code and the
/// message of an error.
pub proof fn lemma_package_round_trip(package: PackageModel)
    requires
        encodable(package),
        sender_supported(package),
    ensures
        decode_package(encode_package(package)) == Ok::<PackageModel, ProtocolError>(
            received(package),
        ),
{
    let tag = payload_tag(package.payload);
    let entries = encode_package(package)->Dict_0;
    assert(seq![TYPE_KEY] != seq![TRANSACTION_KEY]) by {
        assert(seq![TYPE_KEY][0] != seq![TRANSACTION_KEY][0]);
    }
    assert(seq![tag] != seq![TRANSACTION_KEY]) by {
        assert(seq![tag][0] != seq![TRANSACTION_KEY][0]);
    }
    assert(seq![tag] != seq![TYPE_KEY]) by {
        assert(seq![tag][0] != seq![TYPE_KEY][0]);
    }
    assert(seq![QUERY_TAG] != seq![RESPONSE_TAG]) by {
        assert(seq![QUERY_TAG][0] != seq![RESPONSE_TAG][0]);
    }
    assert(seq![QUERY_TAG] != seq![ERROR_TAG]) by {
        assert(seq![QUERY_TAG][0] != seq![ERROR_TAG][0]);
    }
    assert(seq![RESPONSE_TAG] != seq![ERROR_TAG]) by {
        assert(seq![RESPONSE_TAG][0] != seq![ERROR_TAG][0]);
    }
    assert(entries[seq![TRANSACTION_KEY]] == Value::ByteString(package.transaction_id));
    assert(entries[seq![TYPE_KEY]] == Value::ByteString(seq![tag]));
    assert(entries[seq![tag]] == encode_payload(package));
    match package.payload {
        PayloadModel::Query(fields) => {
            let sender = package.sender.unwrap();
            lemma_node_round_trip(sender);
            lemma_fields_round_trip(fields, encode_node(sender));
        },
        PayloadModel::Response(fields) => {
            let sender = package.sender.unwrap();
            lemma_node_round_trip(sender);
            lemma_fields_round_trip(fields, encode_node(sender));
        },
        PayloadModel::Error(code, message) => {
            encode_utf8_valid_utf8(message);
            encode_utf8_decode_utf8(message);
        },
    }
}

/// A package without a field under the reserved key comes back with all its
/// fields.
pub proof fn lemma_fields_preserved(fields: Map<Seq<char>, Seq<u8>>)
    requires
        !fields.contains_key(sender_field()),
    ensures
        fields.remove(sender_field()) == fields,
{
    assert(fields.remove(sender_field()) =~= fields);
}

} // verus!
