//! Bencoded values.
//!
//! Messages are handed over as `bencode::Bencode` values.  The verifier cannot
//! look inside such a value, so this module gives the library a mathematical
//! picture of it, [`Value`], and the few functions through which the codec
//! builds and takes apart `Bencode` values.  What these functions promise is
//! read off the definition of the `Bencode` enum and is not proved.

use crate::assoc::distinct_keys;
use crate::assoc::entries_map;
use bencode::util::ByteString;
use bencode::Bencode;
use vstd::prelude::*;

verus! {

/// `bencode::Bencode`, known to the verifier as a type without visible parts.
#[verifier::external_type_specification]
#[verifier::external_body]
pub struct ExBencode(Bencode);

/// What a bencoded value holds: nothing, an integer, a string of bytes, a
/// list of values, or a dictionary from byte strings to values.
pub enum Value {
    Empty,
    Number(i64),
    ByteString(Seq<u8>),
    List(Seq<Value>),
    Dict(Map<Seq<u8>, Value>),
}

/// What a `Bencode` value holds.
pub uninterp spec fn bencode_value(b: Bencode) -> Value;

/// The values held by a sequence of `Bencode` items.
pub open spec fn item_values(items: Seq<Bencode>) -> Seq<Value> {
    Seq::new(items.len(), |i: int| bencode_value(items[i]))
}

/// Keys and held values of entries that own their parts.
pub open spec fn owned_entries(entries: Seq<(Vec<u8>, Bencode)>) -> Seq<(Seq<u8>, Value)> {
    Seq::new(entries.len(), |i: int| (entries[i].0@, bencode_value(entries[i].1)))
}

/// Keys and held values of entries that borrow their parts.
pub open spec fn borrowed_entries(entries: Seq<(&[u8], &Bencode)>) -> Seq<(Seq<u8>, Value)> {
    Seq::new(entries.len(), |i: int| (entries[i].0@, bencode_value(*entries[i].1)))
}

/// One level of a `Bencode` value: its variant with the parts still bencoded.
pub enum Shape<'a> {
    Empty,
    Number(i64),
    ByteString(&'a Vec<u8>),
    List(&'a Vec<Bencode>),
    Dict(Vec<(&'a [u8], &'a Bencode)>),
}

impl<'a> Shape<'a> {
    /// The value that this level and its parts make up.
    pub open spec fn value(self) -> Value {
        match self {
            Shape::Empty => Value::Empty,
            Shape::Number(n) => Value::Number(n),
            Shape::ByteString(bytes) => Value::ByteString(bytes@),
            Shape::List(items) => Value::List(item_values(items@)),
            Shape::Dict(entries) => Value::Dict(entries_map(borrowed_entries(entries@))),
        }
    }
}

/// `Bencode::ByteString`: the value that holds exactly these bytes.
#[verifier::external_body]
pub(crate) fn byte_string(bytes: Vec<u8>) -> (b: Bencode)
    ensures
        bencode_value(b) == Value::ByteString(bytes@),
{
    Bencode::ByteString(bytes)
}

/// `Bencode::Number`: the value that holds this integer.
#[verifier::external_body]
pub(crate) fn number(n: i64) -> (b: Bencode)
    ensures
        bencode_value(b) == Value::Number(n),
{
    Bencode::Number(n)
}

/// `Bencode::List`: the value that holds these items in this order.
#[verifier::external_body]
pub(crate) fn list(items: Vec<Bencode>) -> (b: Bencode)
    ensures
        bencode_value(b) == Value::List(item_values(items@)),
{
    Bencode::List(items)
}

/// `Bencode::Dict` over `ByteString::from_vec` keys: the dictionary that holds
/// exactly these entries.  The keys must differ from each other, so that no
/// entry is dropped when the map is built.
#[verifier::external_body]
pub(crate) fn dict(entries: Vec<(Vec<u8>, Bencode)>) -> (b: Bencode)
    requires
        distinct_keys(owned_entries(entries@)),
    ensures
        bencode_value(b) == Value::Dict(entries_map(owned_entries(entries@))),
{
    Bencode::Dict(entries.into_iter().map(|(k, v)| (ByteString::from_vec(k), v)).collect())
}

/// Tells the variants of `Bencode` apart and hands out the parts of the value.
/// A dictionary comes as the list of its entries, each key once, with
/// `ByteString::as_slice` as the key.
#[verifier::external_body]
pub(crate) fn inspect<'a>(b: &'a Bencode) -> (shape: Shape<'a>)
    ensures
        shape.value() == bencode_value(*b),
        shape matches Shape::Dict(entries) ==> distinct_keys(borrowed_entries(entries@)),
{
    match b {
        Bencode::Empty => Shape::Empty,
        Bencode::Number(n) => Shape::Number(*n),
        Bencode::ByteString(bytes) => Shape::ByteString(bytes),
        Bencode::List(items) => Shape::List(items),
        Bencode::Dict(map) => Shape::Dict(map.iter().map(|(k, v)| (k.as_slice(), v)).collect()),
    }
}

} // verus!
