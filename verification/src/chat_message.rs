//! The message that chat peers send each other, in bebop's wire format:
//! each field a string, written as its byte length (4 bytes, little endian)
//! followed by its UTF-8 bytes.

use vstd::prelude::*;
use vstd::utf8::{valid_utf8, encode_utf8};
use vstd::string::StringSliceAdditionalSpecFns;

verus! {

#[verifier::external_type_specification]
#[verifier::external_body]
pub struct ExSerializeError(bebop::SerializeError);

#[verifier::external_type_specification]
#[verifier::external_body]
pub struct ExDeserializeError(bebop::DeserializeError);

/// `n` as 4 little-endian bytes.
pub open spec fn u32_le(n: nat) -> Seq<u8> {
    seq![(n % 256) as u8, (n / 256 % 256) as u8, (n / 65536 % 256) as u8, (n / 16777216 % 256) as u8]
}

/// The number held by 4 little-endian bytes.
pub open spec fn le_value(b: Seq<u8>) -> nat {
    (b[0] + 256 * b[1] + 65536 * b[2] + 16777216 * b[3]) as nat
}

/// A string field on the wire: length, then bytes.
pub open spec fn str_wire(bytes: Seq<u8>) -> Seq<u8> {
    u32_le(bytes.len()) + bytes
}

/// A string field read from the front of `raw`: the number of bytes it
/// takes and its bytes; `None` when `raw` is too short or the bytes are not
/// UTF-8.
pub open spec fn decode_str(raw: Seq<u8>) -> Option<(nat, Seq<u8>)> {
    if raw.len() < 4 {
        None
    } else {
        let len = le_value(raw.take(4));
        if 4 + len > raw.len() || !valid_utf8(raw.subrange(4, 4 + len as int)) {
            None
        } else {
            Some(((4 + len) as nat, raw.subrange(4, 4 + len as int)))
        }
    }
}

/// Writes the string field `s` to `dest`.
///
/// Calls bebop's `SubRecord::_serialize_chained` for `&str`, which writes
/// the byte length as a little-endian `u32` and then the bytes, and fails
/// (writing nothing) when the length does not fit in 32 bits; writing to a
/// `Vec` does not fail otherwise.
#[verifier::external_body]
fn write_str(s: &str, dest: &mut Vec<u8>) -> (r: Result<usize, bebop::SerializeError>)
    ensures
        match r {
            Ok(n) => {
                &&& s.spec_bytes().len() <= u32::MAX
                &&& n == 4 + s.spec_bytes().len()
                &&& final(dest)@ == old(dest)@ + str_wire(s.spec_bytes())
            },
            Err(_) => {
                &&& s.spec_bytes().len() > u32::MAX
                &&& final(dest)@ == old(dest)@
            },
        },
{
    bebop::SubRecord::_serialize_chained(&s, dest)
}

/// Reads a string field from the front of `raw`.
///
/// Calls bebop's `SubRecord::_deserialize_chained` for `&str`: it reads a
/// little-endian `u32` length, checks that the bytes are there and are
/// UTF-8 (`std::str::from_utf8`), and returns the number of bytes read and
/// the string. It adds 4 to the length it read in `usize`, so `requires`
/// leaves out a length prefix for which that sum does not fit.
#[verifier::external_body]
fn read_str<'a>(raw: &'a [u8]) -> (r: Result<(usize, &'a str), bebop::DeserializeError>)
    requires
        raw@.len() >= 4 ==> le_value(raw@.take(4)) + 4 <= usize::MAX,
    ensures
        match r {
            Ok((n, s)) => decode_str(raw@) == Some((n as nat, s.spec_bytes())),
            Err(_) => decode_str(raw@) is None,
        },
{
    <&str as bebop::SubRecord>::_deserialize_chained(raw)
}

/// Whether the length prefix at the front of `raw` (if `raw` has one) plus
/// the 4 bytes of the prefix itself can be counted in a `usize`.
fn length_prefix_fits(raw: &[u8]) -> (b: bool)
    ensures
        b == (raw@.len() < 4 || le_value(raw@.take(4)) + 4 <= usize::MAX),
{
    if raw.len() < 4 {
        return true;
    }
    let v: u64 = raw[0] as u64 + 256 * (raw[1] as u64) + 65536 * (raw[2] as u64) + 16777216 * (raw[3] as u64);
    proof {
        assert(raw@.take(4)[0] == raw@[0] && raw@.take(4)[1] == raw@[1]);
        assert(raw@.take(4)[2] == raw@[2] && raw@.take(4)[3] == raw@[3]);
    }
    v <= (usize::MAX - 4) as u64
}

/// What went wrong on the wire.
#[derive(Debug, PartialEq, Eq)]
pub enum WireError {
    /// A field is longer than 32 bits can count.
    FieldTooLong,
    /// The bytes do not hold a message.
    Malformed,
}

/// A chat message between peers.
#[derive(Debug, PartialEq, Clone, Copy)]
pub struct Message<'a> {
    pub from: &'a str,
    pub to: &'a str,
    pub msg: &'a str,
}

/// The message with fields `a`, `b`, `c` (as bytes) on the wire.
pub open spec fn message_wire(a: Seq<u8>, b: Seq<u8>, c: Seq<u8>) -> Seq<u8> {
    str_wire(a) + str_wire(b) + str_wire(c)
}

/// The three fields read in turn from `raw`: the bytes of each, or `None`
/// when a field cannot be read.
pub open spec fn decode_message(raw: Seq<u8>) -> Option<(Seq<u8>, Seq<u8>, Seq<u8>)> {
    match decode_str(raw) {
        None => None,
        Some((n1, a)) => match decode_str(raw.skip(n1 as int)) {
            None => None,
            Some((n2, b)) => match decode_str(raw.skip((n1 + n2) as int)) {
                None => None,
                Some((n3, c)) => Some((a, b, c)),
            },
        },
    }
}

impl<'a> Message<'a> {
    /// The fewest bytes a message takes on the wire: three empty fields.
    pub const MIN_SERIALIZED_SIZE: usize = 12;

    /// Appends the message to `dest`; returns the number of bytes written.
    /// Fails when a field is longer than 32 bits can count, after writing
    /// the fields before it.
    pub fn serialize(&self, dest: &mut Vec<u8>) -> (r: Result<usize, WireError>)
        ensures
            ({
                let (a, b, c) = (self.from.spec_bytes(), self.to.spec_bytes(), self.msg.spec_bytes());
                match r {
                    Ok(n) => {
                        &&& a.len() <= u32::MAX && b.len() <= u32::MAX && c.len() <= u32::MAX
                        &&& final(dest)@ == old(dest)@ + message_wire(a, b, c)
                        &&& n == message_wire(a, b, c).len()
                    },
                    Err(e) => {
                        &&& e == WireError::FieldTooLong
                        &&& final(dest)@ == if a.len() > u32::MAX {
                            old(dest)@
                        } else if b.len() > u32::MAX {
                            old(dest)@ + str_wire(a)
                        } else {
                            old(dest)@ + str_wire(a) + str_wire(b)
                        }
                        &&& (a.len() > u32::MAX || b.len() > u32::MAX || c.len() > u32::MAX)
                    },
                }
            }),
    {
        let n1 = match write_str(self.from, dest) {
            Ok(n) => n,
            Err(_) => return Err(WireError::FieldTooLong),
        };
        let n2 = match write_str(self.to, dest) {
            Ok(n) => n,
            Err(_) => return Err(WireError::FieldTooLong),
        };
        let n3 = match write_str(self.msg, dest) {
            Ok(n) => n,
            Err(_) => return Err(WireError::FieldTooLong),
        };
        let total = dest.len();
        proof {
            assert(dest@ =~= old(dest)@ + message_wire(self.from.spec_bytes(), self.to.spec_bytes(), self.msg.spec_bytes()));
            assert(n1 + n2 + n3 <= total);
        }
        Ok(n1 + n2 + n3)
    }

    /// The message that carries `contents` from this peer: refused (with
    /// the error text "his") when `contents` is longer than 1000 bytes
    /// (`str::len`).
    pub fn outgoing(contents: &'a str) -> (r: Result<Message<'a>, &'static str>)
        ensures
            match r {
                Ok(m) => {
                    &&& contents.len() <= 1000
                    &&& m.from@ == "hi"@
                    &&& m.to@ == "you"@
                    &&& m.msg == contents
                },
                Err(e) => contents.len() > 1000 && e@ == "his"@,
            },
    {
        if contents.len() > 1000 {
            return Err("his");
        }
        Ok(Message { from: "hi", to: "you", msg: contents })
    }

    /// Reads a message from the front of `raw`.
    pub fn deserialize(raw: &'a [u8]) -> (r: Result<Message<'a>, WireError>)
        ensures
            match r {
                Ok(m) => raw@.len() >= 12 && decode_message(raw@) == Some((m.from.spec_bytes(), m.to.spec_bytes(), m.msg.spec_bytes())),
                Err(e) => e == WireError::Malformed && (raw@.len() < 12 || decode_message(raw@) is None),
            },
    {
        if raw.len() < 12 || !length_prefix_fits(raw) {
            return Err(WireError::Malformed);
        }
        let (n1, from) = match read_str(raw) {
            Ok(x) => x,
            Err(_) => return Err(WireError::Malformed),
        };
        let rest1 = vstd::slice::slice_subrange(raw, n1, raw.len());
        if !length_prefix_fits(rest1) {
            proof {
                assert(rest1@ =~= raw@.skip(n1 as int));
            }
            return Err(WireError::Malformed);
        }
        let (n2, to) = match read_str(rest1) {
            Ok(x) => x,
            Err(_) => {
                proof {
                    assert(rest1@ =~= raw@.skip(n1 as int));
                }
                return Err(WireError::Malformed);
            },
        };
        proof {
            assert(rest1@ =~= raw@.skip(n1 as int));
        }
        let rest2 = vstd::slice::slice_subrange(rest1, n2, rest1.len());
        proof {
            assert(rest2@ =~= raw@.skip(n1 + n2));
        }
        if !length_prefix_fits(rest2) {
            return Err(WireError::Malformed);
        }
        let (_n3, msg) = match read_str(rest2) {
            Ok(x) => x,
            Err(_) => return Err(WireError::Malformed),
        };
        Ok(Message { from, to, msg })
    }
}

/// Four little-endian bytes give back the number they were written from.
pub proof fn lemma_u32_le_roundtrip(n: nat)
    requires
        n <= u32::MAX,
    ensures
        u32_le(n).len() == 4,
        le_value(u32_le(n)) == n,
{
    let b = u32_le(n);
    let x = n as u32;
    assert(b[0] == (x % 256) as u8 && b[1] == (x / 256 % 256) as u8 && b[2] == (x / 65536 % 256) as u8 && b[3] == (x / 16777216 % 256) as u8);
    assert(x == (x % 256) + 256 * (x / 256 % 256) + 65536 * (x / 65536 % 256) + 16777216 * (x / 16777216 % 256)) by (bit_vector);
}

/// A UTF-8 field followed by anything reads back as itself.
pub proof fn lemma_str_roundtrip(bytes: Seq<u8>, rest: Seq<u8>)
    requires
        bytes.len() <= u32::MAX,
        valid_utf8(bytes),
    ensures
        decode_str(str_wire(bytes) + rest) == Some(((4 + bytes.len()) as nat, bytes)),
        (str_wire(bytes) + rest).skip(4 + bytes.len() as int) == rest,
{
    lemma_u32_le_roundtrip(bytes.len());
    let raw = str_wire(bytes) + rest;
    assert(raw.take(4) =~= u32_le(bytes.len()));
    assert(raw.subrange(4, 4 + bytes.len() as int) =~= bytes);
    assert(raw.skip(4 + bytes.len() as int) =~= rest);
}

/// Writing a message and reading it back gives the same three fields:
/// the bytes of each field, and hence (UTF-8 encoding being one-to-one)
/// the same strings.
pub proof fn lemma_message_roundtrip(from: Seq<char>, to: Seq<char>, msg: Seq<char>)
    requires
        encode_utf8(from).len() <= u32::MAX,
        encode_utf8(to).len() <= u32::MAX,
        encode_utf8(msg).len() <= u32::MAX,
    ensures
        decode_message(message_wire(encode_utf8(from), encode_utf8(to), encode_utf8(msg)))
            == Some((encode_utf8(from), encode_utf8(to), encode_utf8(msg))),
        vstd::utf8::decode_utf8(encode_utf8(from)) == from,
        vstd::utf8::decode_utf8(encode_utf8(to)) == to,
        vstd::utf8::decode_utf8(encode_utf8(msg)) == msg,
{
    let (a, b, c) = (encode_utf8(from), encode_utf8(to), encode_utf8(msg));
    vstd::utf8::encode_utf8_valid_utf8(from);
    vstd::utf8::encode_utf8_valid_utf8(to);
    vstd::utf8::encode_utf8_valid_utf8(msg);
    vstd::utf8::encode_utf8_decode_utf8(from);
    vstd::utf8::encode_utf8_decode_utf8(to);
    vstd::utf8::encode_utf8_decode_utf8(msg);
    let raw = message_wire(a, b, c);
    let tail = str_wire(b) + str_wire(c);
    assert(raw =~= str_wire(a) + tail);
    lemma_str_roundtrip(a, tail);
    let n1 = (4 + a.len()) as nat;
    assert(raw.skip(n1 as int) == tail);
    lemma_str_roundtrip(b, str_wire(c));
    let n2 = (4 + b.len()) as nat;
    assert(raw.skip((n1 + n2) as int) =~= str_wire(c));
    lemma_str_roundtrip(c, Seq::<u8>::empty());
    assert(str_wire(c) + Seq::<u8>::empty() =~= str_wire(c));
}

} // verus!
