//! The handshake that both peers run before any payload byte flows: the
//! receiver sends its resume offset; the redirector answers with the total
//! size and the resource's name.
use crate::codec::{
    be_bytes, be_value, decode_be, encode_be, lemma_be_bytes_len, lemma_be_round_trip,
    lemma_pow256_facts,
};
use vstd::prelude::*;
use vstd::slice::slice_subrange;
use vstd::string::StringSliceAdditionalSpecFns;
use vstd::utf8::{decode_utf8, encode_utf8, encode_utf8_decode_utf8, encode_utf8_valid_utf8, valid_utf8};

verus! {

/// Bytes that carry the resume offset or the total size.
pub const SIZE_FIELD_LEN: usize = 8;

/// Bytes that carry the length of the name.
pub const NAME_LEN_FIELD_LEN: usize = 2;

/// The longest name, in bytes, that the header can carry.
pub const MAX_NAME_LEN: usize = 65535;

/// What the receiver sends first: its resume offset.
pub open spec fn request_bytes(offset: u64) -> Seq<u8> {
    be_bytes(offset as nat, 8)
}

/// The size that the redirector announces for `remaining` bytes: never 0.
pub open spec fn floored_total(remaining: u64) -> u64 {
    if remaining == 0 {
        1
    } else {
        remaining
    }
}

/// What the redirector sends back: the total size, the name's length, the name.
pub open spec fn header_bytes(total: u64, name: Seq<u8>) -> Seq<u8> {
    be_bytes(total as nat, 8) + be_bytes(name.len(), 2) + name
}

/// The size field and the name-length field at the start of a header.
pub open spec fn header_prefix(bytes: Seq<u8>) -> (u64, u16) {
    (be_value(bytes.subrange(0, 8)) as u64, be_value(bytes.subrange(8, 10)) as u16)
}

/// Whether the UTF-8 bytes of `name` fit in the header's length field.
pub open spec fn name_fits(name: Seq<char>) -> bool {
    encode_utf8(name).len() <= 65535
}

/// Why a header cannot be sent.
#[derive(Clone, Copy, Debug, PartialEq, Eq, Structural)]
pub enum HandshakeError {
    /// The name takes more bytes than the length field can count.
    NameTooLong,
}

/// The offset that the receiver sends is the offset that the redirector reads.
pub proof fn lemma_request_round_trip(offset: u64)
    ensures
        request_bytes(offset).len() == 8,
        be_value(request_bytes(offset).subrange(0, 8)) == offset,
{
    lemma_pow256_facts();
    lemma_be_bytes_len(offset as nat, 8);
    lemma_be_round_trip(offset as nat, 8);
    assert(request_bytes(offset).subrange(0, 8) =~= request_bytes(offset));
}

/// The receiver's first message.
pub fn encode_request(offset: u64) -> (r: Vec<u8>)
    ensures
        r@ == request_bytes(offset),
{
    proof {
        lemma_pow256_facts();
    }
    encode_be(offset, SIZE_FIELD_LEN)
}

/// The resume offset at the start of `bytes`; `None` when fewer than eight bytes came.
pub fn decode_request(bytes: &[u8]) -> (r: Option<u64>)
    ensures
        bytes@.len() >= 8 <==> r is Some,
        r matches Some(v) ==> v as nat == be_value(bytes@.subrange(0, 8)),
{
    if bytes.len() < SIZE_FIELD_LEN {
        None
    } else {
        Some(decode_be(bytes, SIZE_FIELD_LEN))
    }
}

/// The size to announce when the origin reports `remaining` bytes.
pub fn announced_total(remaining: u64) -> (r: u64)
    ensures
        r == floored_total(remaining),
        r >= 1,
{
    if remaining == 0 {
        1
    } else {
        remaining
    }
}

/// The redirector's answer: the floored total size, then the name with its length.
pub fn encode_header(remaining: u64, name: &str) -> (r: Result<Vec<u8>, HandshakeError>)
    ensures
        r is Ok <==> name.spec_bytes().len() <= 65535,
        r matches Ok(v) ==> v@ == header_bytes(floored_total(remaining), name.spec_bytes()),
        r matches Err(e) ==> e == HandshakeError::NameTooLong,
{
    let name_bytes = name.as_bytes();
    if name_bytes.len() > MAX_NAME_LEN {
        return Err(HandshakeError::NameTooLong);
    }
    proof {
        lemma_pow256_facts();
    }
    let mut out = encode_be(announced_total(remaining), SIZE_FIELD_LEN);
    let mut len_field = encode_be(name_bytes.len() as u64, NAME_LEN_FIELD_LEN);
    out.append(&mut len_field);
    let mut i: usize = 0;
    while i < name_bytes.len()
        invariant
            i <= name_bytes@.len(),
            out@ == be_bytes(floored_total(remaining) as nat, 8) + be_bytes(
                name_bytes@.len(),
                2,
            ) + name_bytes@.subrange(0, i as int),
        decreases name_bytes@.len() - i,
    {
        out.push(name_bytes[i]);
        i = i + 1;
        proof {
            assert(out@ =~= be_bytes(floored_total(remaining) as nat, 8) + be_bytes(
                name_bytes@.len(),
                2,
            ) + name_bytes@.subrange(0, i as int));
        }
    }
    proof {
        assert(name_bytes@.subrange(0, i as int) =~= name_bytes@);
    }
    Ok(out)
}

/// The size field and the name-length field of a header; `None` when fewer
/// than ten bytes came.
pub fn decode_header_prefix(bytes: &[u8]) -> (r: Option<(u64, u16)>)
    ensures
        bytes@.len() >= 10 <==> r is Some,
        r matches Some(p) ==> p == header_prefix(bytes@),
{
    if bytes.len() < SIZE_FIELD_LEN + NAME_LEN_FIELD_LEN {
        return None;
    }
    let total = decode_be(bytes, SIZE_FIELD_LEN);
    let rest = slice_subrange(bytes, SIZE_FIELD_LEN, SIZE_FIELD_LEN + NAME_LEN_FIELD_LEN);
    let name_len = decode_be(rest, NAME_LEN_FIELD_LEN);
    proof {
        assert(rest@.subrange(0, 2) =~= bytes@.subrange(8, 10));
        crate::codec::lemma_be_value_bound(bytes@.subrange(8, 10));
        lemma_pow256_facts();
    }
    Some((total, name_len as u16))
}

/// Relies on `String::from_utf8`: it accepts exactly the valid UTF-8 byte
/// strings and keeps their characters.
#[verifier::external_body]
fn string_from_utf8(bytes: Vec<u8>) -> (r: Option<String>)
    ensures
        r is Some <==> valid_utf8(bytes@),
        r matches Some(s) ==> s@ == decode_utf8(bytes@),
{
    String::from_utf8(bytes).ok()
}

/// The name carried by a header, as text; `None` when it is not UTF-8.
pub fn decode_name(bytes: Vec<u8>) -> (r: Option<String>)
    ensures
        r is Some <==> valid_utf8(bytes@),
        r matches Some(s) ==> s@ == decode_utf8(bytes@),
{
    string_from_utf8(bytes)
}

/// A name of at most 65535 bytes sent in a header comes out of it unchanged:
/// the size field holds the floored total, the length field the name's
/// length, and the bytes after them decode as UTF-8 to the same characters.
pub proof fn lemma_name_round_trip(remaining: u64, name: Seq<char>)
    requires
        encode_utf8(name).len() <= 65535,
    ensures
        ({
            let sent = header_bytes(floored_total(remaining), encode_utf8(name));
            let tail = sent.subrange(10, sent.len() as int);
            &&& sent.len() >= 10
            &&& header_prefix(sent) == (floored_total(remaining), encode_utf8(name).len() as u16)
            &&& tail == encode_utf8(name)
            &&& valid_utf8(tail)
            &&& decode_utf8(tail) == name
        }),
{
    let bytes = encode_utf8(name);
    let total = floored_total(remaining);
    let sent = header_bytes(total, bytes);
    lemma_pow256_facts();
    lemma_be_bytes_len(total as nat, 8);
    lemma_be_bytes_len(bytes.len(), 2);
    lemma_be_round_trip(total as nat, 8);
    lemma_be_round_trip(bytes.len(), 2);
    assert(sent.subrange(0, 8) =~= be_bytes(total as nat, 8));
    assert(sent.subrange(8, 10) =~= be_bytes(bytes.len(), 2));
    assert(sent.subrange(10, sent.len() as int) =~= bytes);
    encode_utf8_valid_utf8(name);
    encode_utf8_decode_utf8(name);
}

} // verus!
