//! The unit of storage and its binary form.
//!
//! A stored entry is a type tag, a ttl and raw bytes. At rest it is one blob:
//! the tag as four little-endian bytes, the ttl as eight, the number of value
//! bytes as eight, then the value bytes themselves.

use crate::errors::{lift, DatabaseError, ErrorView};
use crate::storages::decimal::{parse_decimal, parse_i64};
use vstd::bytes::*;
use vstd::prelude::*;
use vstd::slice::*;

verus! {

/// How the bytes of a value are to be read.
#[derive(Clone, Copy, Debug, PartialEq, Eq, Structural)]
pub enum ValueType {
    /// UTF-8 text.
    String,
    /// The decimal ASCII text of a 64-bit signed integer.
    Integer,
}

/// A value in the store: its type, its ttl and its bytes.
///
/// Handed to `set`, `ttl` is a duration in seconds, negative for an entry that
/// never expires. At rest it is the instant of expiry, or `-1`. Handed out by
/// `get` it is the seconds that remain, or `-1`.
#[derive(Debug)]
pub struct StorageValue {
    pub value_type: ValueType,
    pub ttl: i64,
    pub value: Vec<u8>,
}

/// The mathematical form of a [`StorageValue`].
pub struct Entry {
    pub value_type: ValueType,
    pub ttl: i64,
    pub value: Seq<u8>,
}

impl View for StorageValue {
    type V = Entry;

    open spec fn view(&self) -> Entry {
        Entry { value_type: self.value_type, ttl: self.ttl, value: self.value@ }
    }
}

impl Clone for StorageValue {
    fn clone(&self) -> (copy: Self)
        ensures
            copy@ == self@,
    {
        StorageValue {
            value_type: self.value_type,
            ttl: self.ttl,
            value: slice_to_vec(self.value.as_slice()),
        }
    }
}

/// The tag that a type is stored under.
pub open spec fn type_tag(t: ValueType) -> u32 {
    match t {
        ValueType::String => 0,
        ValueType::Integer => 1,
    }
}

/// The type that a tag stands for, if any.
pub open spec fn type_of_tag(tag: u32) -> Option<ValueType> {
    if tag == 0 {
        Some(ValueType::String)
    } else if tag == 1 {
        Some(ValueType::Integer)
    } else {
        None
    }
}

/// The blob of a tag, a ttl and value bytes: the three fixed-width numbers in
/// little-endian order, the ttl in two's complement, then the value bytes.
pub open spec fn layout(tag: u32, ttl: i64, value: Seq<u8>) -> Seq<u8> {
    spec_u32_to_le_bytes(tag) + spec_u64_to_le_bytes(ttl as u64) + spec_u64_to_le_bytes(
        value.len() as u64,
    ) + value
}

/// What a blob holds, if it is long enough for its header and for the value
/// bytes that the header announces. Bytes after the value are ignored.
pub open spec fn parse_layout(data: Seq<u8>) -> Option<(u32, i64, Seq<u8>)> {
    if data.len() < 20 {
        None
    } else {
        let len = spec_u64_from_le_bytes(data.subrange(12, 20));
        if 20 + len > data.len() {
            None
        } else {
            Some(
                (
                    spec_u32_from_le_bytes(data.subrange(0, 4)),
                    spec_u64_from_le_bytes(data.subrange(4, 12)) as i64,
                    data.subrange(20, 20 + len),
                ),
            )
        }
    }
}

/// The blob that an entry is stored as.
pub open spec fn encode(e: Entry) -> Seq<u8> {
    layout(type_tag(e.value_type), e.ttl, e.value)
}

/// The entry that a blob holds, if it is well formed and its tag is known.
pub open spec fn decode(data: Seq<u8>) -> Option<Entry> {
    match parse_layout(data) {
        Some((tag, ttl, value)) => match type_of_tag(tag) {
            Some(value_type) => Some(Entry { value_type, ttl, value }),
            None => None,
        },
        None => None,
    }
}

/// What a value reads as a counter: the integer that its bytes denote, an
/// `InvalidValueType` failure for a value that is no integer, an
/// `InternalError` for an integer whose bytes are no decimal text.
pub open spec fn integer_value(e: Entry) -> Result<i64, ErrorView> {
    if e.value_type != ValueType::Integer {
        Err(ErrorView::InvalidValueType("Value is not an integer"@))
    } else {
        match parse_decimal(e.value) {
            Some(n) => Ok(n),
            None => Err(ErrorView::InternalError("Failed to parse integer value"@)),
        }
    }
}

/// A blob parses back to what it was laid out from.
pub proof fn lemma_parse_layout(tag: u32, ttl: i64, value: Seq<u8>)
    requires
        value.len() <= u64::MAX,
    ensures
        parse_layout(layout(tag, ttl, value)) == Some((tag, ttl, value)),
        layout(tag, ttl, value).len() == 20 + value.len(),
{
    lemma_auto_spec_u32_to_from_le_bytes();
    lemma_auto_spec_u64_to_from_le_bytes();
    let a = spec_u32_to_le_bytes(tag);
    let b = spec_u64_to_le_bytes(ttl as u64);
    let c = spec_u64_to_le_bytes(value.len() as u64);
    let data = layout(tag, ttl, value);
    assert(data.subrange(0, 4) =~= a);
    assert(data.subrange(4, 12) =~= b);
    assert(data.subrange(12, 20) =~= c);
    assert(data.subrange(20, 20 + value.len() as int) =~= value);
    assert((ttl as u64) as i64 == ttl) by (bit_vector);
}

/// Decoding the blob of an entry gives the entry back.
pub proof fn lemma_decode_encode(e: Entry)
    requires
        e.value.len() <= u64::MAX,
    ensures
        decode(encode(e)) == Some(e),
{
    lemma_parse_layout(type_tag(e.value_type), e.ttl, e.value);
}

/// Lays a tag, a ttl and value bytes out as one blob.
///
/// Calls `bincode::serialize` on the three as a tuple. Trusted: with its
/// default options bincode writes a tuple as its fields in order, an integer
/// at its fixed width in little-endian order, and a vector of bytes as its
/// length in eight bytes followed by the bytes.
#[verifier::external_body]
fn bincode_serialize(tag: u32, ttl: i64, value: &Vec<u8>) -> (data: Vec<u8>)
    ensures
        data@ == layout(tag, ttl, value@),
{
    bincode::serialize(&(tag, ttl, value)).unwrap()
}

/// Reads a tag, a ttl and value bytes back out of a blob.
///
/// Calls `bincode::deserialize` for the three as a tuple. Trusted: it reads
/// what `bincode::serialize` writes, fails where the blob ends before the
/// header or the announced value bytes do, and ignores what follows them.
#[verifier::external_body]
fn bincode_deserialize(data: &[u8]) -> (parts: Option<(u32, i64, Vec<u8>)>)
    ensures
        parts is Some <==> parse_layout(data@) is Some,
        parts matches Some(p) ==> parse_layout(data@) == Some((p.0, p.1, p.2@)),
{
    bincode::deserialize::<(u32, i64, Vec<u8>)>(data).ok()
}

impl ValueType {
    /// The name of the type: `String` or `Integer`.
    pub fn name(&self) -> (text: String)
        ensures
            text@ == (match self {
                ValueType::String => "String"@,
                ValueType::Integer => "Integer"@,
            }),
    {
        match self {
            ValueType::String => "String".to_owned(),
            ValueType::Integer => "Integer".to_owned(),
        }
    }
}

impl StorageValue {
    /// The blob that this value is stored as.
    pub fn to_binary(&self) -> (data: Vec<u8>)
        ensures
            data@ == encode(self@),
            decode(data@) == Some(self@),
    {
        let tag: u32 = match self.value_type {
            ValueType::String => 0,
            ValueType::Integer => 1,
        };
        let len = self.value.len();
        proof {
            assert(self@.value.len() == len);
            lemma_decode_encode(self@);
        }
        bincode_serialize(tag, self.ttl, &self.value)
    }

    /// The value that a blob holds, or `None` for a blob that is cut short or
    /// carries an unknown type tag.
    pub fn try_from_binary(data: &[u8]) -> (value: Option<Self>)
        ensures
            value is Some <==> decode(data@) is Some,
            value matches Some(v) ==> decode(data@) == Some(v@),
    {
        match bincode_deserialize(data) {
            Some((tag, ttl, value)) => {
                if tag == 0 {
                    Some(StorageValue { value_type: ValueType::String, ttl, value })
                } else if tag == 1 {
                    Some(StorageValue { value_type: ValueType::Integer, ttl, value })
                } else {
                    None
                }
            },
            None => None,
        }
    }

    /// The value that a well-formed blob holds.
    pub fn from_binary(data: &[u8]) -> (value: Self)
        requires
            decode(data@) is Some,
        ensures
            decode(data@) == Some(value@),
    {
        match StorageValue::try_from_binary(data) {
            Some(value) => value,
            None => {
                assert(false);
                StorageValue { value_type: ValueType::String, ttl: -1, value: Vec::new() }
            },
        }
    }

    /// Reads the value as a counter.
    ///
    /// Fails with `InvalidValueType` for a value that is no integer, and with
    /// `InternalError` for an integer whose bytes are not the decimal text of
    /// a 64-bit signed integer.
    pub fn get_integer_value(&self) -> (r: Result<i64, DatabaseError>)
        ensures
            lift(r) == integer_value(self@),
    {
        match self.value_type {
            ValueType::String => Err(
                DatabaseError::InvalidValueType("Value is not an integer".to_owned()),
            ),
            ValueType::Integer => match parse_i64(self.value.as_slice()) {
                Some(n) => Ok(n),
                None => Err(
                    DatabaseError::InternalError("Failed to parse integer value".to_owned()),
                ),
            },
        }
    }
}

} // verus!
