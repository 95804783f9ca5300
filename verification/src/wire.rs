//! Big-endian primitives of the record format: fixed-width integers, flags,
//! and length-prefixed byte buffers.

use byteorder::{BigEndian, ByteOrder};
use vstd::prelude::*;
use vstd::slice::slice_subrange;
use vstd::utf8::{decode_utf8, encode_utf8, valid_utf8};

verus! {

/// Why a record could not be decoded.
#[derive(Clone, Copy, Debug, PartialEq, Eq, Structural)]
pub enum DecodeError {
    /// The buffer ends before the field does.
    Short,
    /// A field holds a value the format does not allow, or bytes are left over.
    Malformed,
    /// The opcode names no operation this engine knows.
    UnknownOpcode,
}

/// The value of `v` read as an unsigned 32-bit number.
pub open spec fn unsigned32(v: i32) -> int {
    if v < 0 {
        v + 0x1_0000_0000
    } else {
        v as int
    }
}

/// The value of `v` read as an unsigned 64-bit number.
pub open spec fn unsigned64(v: i64) -> int {
    if v < 0 {
        v + 0x1_0000_0000_0000_0000
    } else {
        v as int
    }
}

/// The signed 32-bit number whose unsigned reading is `u`.
pub open spec fn signed32(u: int) -> i32 {
    if u >= 0x8000_0000 {
        (u - 0x1_0000_0000) as i32
    } else {
        u as i32
    }
}

/// The signed 64-bit number whose unsigned reading is `u`.
pub open spec fn signed64(u: int) -> i64 {
    if u >= 0x8000_0000_0000_0000 {
        (u - 0x1_0000_0000_0000_0000) as i64
    } else {
        u as i64
    }
}

/// 256 to the power `n`.
pub open spec fn pow256(n: nat) -> int
    decreases n,
{
    if n == 0 {
        1
    } else {
        256 * pow256((n - 1) as nat)
    }
}

/// The `n` low bytes of `u`, most significant first.
pub open spec fn be_uint(u: int, n: nat) -> Seq<u8>
    decreases n,
{
    if n == 0 {
        Seq::empty()
    } else {
        be_uint(u / 256, (n - 1) as nat).push((u % 256) as u8)
    }
}

/// The number that the bytes of `b` spell, most significant first.
pub open spec fn uint_of_be(b: Seq<u8>) -> int
    decreases b.len(),
{
    if b.len() == 0 {
        0
    } else {
        uint_of_be(b.drop_last()) * 256 + b.last()
    }
}

/// The four bytes of `v`, most significant first.
pub open spec fn be_i32(v: i32) -> Seq<u8> {
    be_uint(unsigned32(v), 4)
}

/// The eight bytes of `v`, most significant first.
pub open spec fn be_i64(v: i64) -> Seq<u8> {
    be_uint(unsigned64(v), 8)
}

/// The signed number that four bytes spell, most significant first.
pub open spec fn i32_of_be(b: Seq<u8>) -> i32
    recommends
        b.len() == 4,
{
    signed32(uint_of_be(b))
}

/// The signed number that eight bytes spell, most significant first.
pub open spec fn i64_of_be(b: Seq<u8>) -> i64
    recommends
        b.len() == 8,
{
    signed64(uint_of_be(b))
}

/// Spelling out a number that fits in `n` bytes and reading it back gives the
/// number.
pub proof fn lemma_uint_round_trip(u: int, n: nat)
    requires
        0 <= u < pow256(n),
    ensures
        be_uint(u, n).len() == n,
        uint_of_be(be_uint(u, n)) == u,
    decreases n,
{
    if n > 0 {
        let head = be_uint(u / 256, (n - 1) as nat);
        lemma_uint_round_trip(u / 256, (n - 1) as nat);
        assert(be_uint(u, n).drop_last() =~= head);
    }
}

/// Bytes spell a number that fits in as many bytes, and are that number's
/// bytes.
pub proof fn lemma_uint_bytes_unique(b: Seq<u8>)
    ensures
        0 <= uint_of_be(b) < pow256(b.len()),
        be_uint(uint_of_be(b), b.len()) == b,
    decreases b.len(),
{
    if b.len() > 0 {
        lemma_uint_bytes_unique(b.drop_last());
        let u = uint_of_be(b);
        assert(u / 256 == uint_of_be(b.drop_last()));
        assert(u % 256 == b.last());
        assert(be_uint(u, b.len()) =~= b);
    } else {
        assert(be_uint(0, 0) =~= b);
    }
}

/// Reading back the bytes of a 32-bit number gives the number.
pub proof fn lemma_i32_round_trip(v: i32)
    ensures
        be_i32(v).len() == 4,
        i32_of_be(be_i32(v)) == v,
{
    reveal_with_fuel(pow256, 5);
    lemma_uint_round_trip(unsigned32(v), 4);
}

/// Reading back the bytes of a 64-bit number gives the number.
pub proof fn lemma_i64_round_trip(v: i64)
    ensures
        be_i64(v).len() == 8,
        i64_of_be(be_i64(v)) == v,
{
    reveal_with_fuel(pow256, 9);
    lemma_uint_round_trip(unsigned64(v), 8);
}

/// Four bytes are the bytes of the number they spell.
pub proof fn lemma_i32_bytes_unique(b: Seq<u8>)
    requires
        b.len() == 4,
    ensures
        be_i32(i32_of_be(b)) == b,
{
    reveal_with_fuel(pow256, 5);
    lemma_uint_bytes_unique(b);
}

/// Eight bytes are the bytes of the number they spell.
pub proof fn lemma_i64_bytes_unique(b: Seq<u8>)
    requires
        b.len() == 8,
    ensures
        be_i64(i64_of_be(b)) == b,
{
    reveal_with_fuel(pow256, 9);
    lemma_uint_bytes_unique(b);
}

/// `byteorder::BigEndian::write_i32` on a four-byte array: the array then
/// holds the bytes of `v`, most significant first.
#[verifier::external_body]
fn i32_to_be(v: i32) -> (r: [u8; 4])
    ensures
        r@ == be_i32(v),
{
    let mut out = [0u8; 4];
    BigEndian::write_i32(&mut out, v);
    out
}

/// `byteorder::BigEndian::write_i64` on an eight-byte array: the array then
/// holds the bytes of `v`, most significant first.
#[verifier::external_body]
fn i64_to_be(v: i64) -> (r: [u8; 8])
    ensures
        r@ == be_i64(v),
{
    let mut out = [0u8; 8];
    BigEndian::write_i64(&mut out, v);
    out
}

/// `byteorder::BigEndian::read_i32` on a four-byte slice: the signed number
/// that the bytes spell, most significant first.
#[verifier::external_body]
fn i32_from_be(b: &[u8]) -> (r: i32)
    requires
        b@.len() == 4,
    ensures
        r == i32_of_be(b@),
{
    BigEndian::read_i32(b)
}

/// `byteorder::BigEndian::read_i64` on an eight-byte slice: the signed number
/// that the bytes spell, most significant first.
#[verifier::external_body]
fn i64_from_be(b: &[u8]) -> (r: i64)
    requires
        b@.len() == 8,
    ensures
        r == i64_of_be(b@),
{
    BigEndian::read_i64(b)
}

/// Appends `src` to `buf`.
pub fn put_bytes(buf: &mut Vec<u8>, src: &[u8])
    ensures
        final(buf)@ == old(buf)@ + src@,
{
    let mut i: usize = 0;
    while i < src.len()
        invariant
            i <= src@.len(),
            buf@ == old(buf)@ + src@.take(i as int),
        decreases src@.len() - i,
    {
        buf.push(src[i]);
        assert(src@.take(i + 1) =~= src@.take(i as int).push(src@[i as int]));
        i += 1;
    }
    assert(src@.take(i as int) =~= src@);
}

/// Appends the four bytes of `v`.
pub fn put_i32(buf: &mut Vec<u8>, v: i32)
    ensures
        final(buf)@ == old(buf)@ + be_i32(v),
{
    let bytes = i32_to_be(v);
    put_bytes(buf, bytes.as_slice());
}

/// Appends the eight bytes of `v`.
pub fn put_i64(buf: &mut Vec<u8>, v: i64)
    ensures
        final(buf)@ == old(buf)@ + be_i64(v),
{
    let bytes = i64_to_be(v);
    put_bytes(buf, bytes.as_slice());
}

/// The byte that stands for a flag.
pub open spec fn bool_byte(b: bool) -> u8 {
    if b {
        1
    } else {
        0
    }
}

/// A byte buffer on the wire: its length as a 32-bit number, then its bytes.
pub open spec fn buffer_bytes(data: Seq<u8>) -> Seq<u8>
    recommends
        data.len() <= i32::MAX,
{
    be_i32(data.len() as i32) + data
}

/// A string on the wire: its UTF-8 bytes as a byte buffer.
pub open spec fn string_bytes(chars: Seq<char>) -> Seq<u8>
    recommends
        encode_utf8(chars).len() <= i32::MAX,
{
    buffer_bytes(encode_utf8(chars))
}

/// Reads a 32-bit number off the front of `s`; the second part is what follows.
pub open spec fn take_i32(s: Seq<u8>) -> Result<(i32, Seq<u8>), DecodeError> {
    if s.len() < 4 {
        Err(DecodeError::Short)
    } else {
        Ok((i32_of_be(s.take(4)), s.skip(4)))
    }
}

/// Reads a 64-bit number off the front of `s`.
pub open spec fn take_i64(s: Seq<u8>) -> Result<(i64, Seq<u8>), DecodeError> {
    if s.len() < 8 {
        Err(DecodeError::Short)
    } else {
        Ok((i64_of_be(s.take(8)), s.skip(8)))
    }
}

/// Reads a flag off the front of `s`: one byte, 0 or 1.
pub open spec fn take_bool(s: Seq<u8>) -> Result<(bool, Seq<u8>), DecodeError> {
    if s.len() < 1 {
        Err(DecodeError::Short)
    } else if s[0] > 1 {
        Err(DecodeError::Malformed)
    } else {
        Ok((s[0] == 1, s.skip(1)))
    }
}

/// Reads a byte buffer off the front of `s`. A length of -1 marks an absent
/// buffer, which reads as an empty one; any other negative length is
/// malformed.
pub open spec fn take_buffer(s: Seq<u8>) -> Result<(Seq<u8>, Seq<u8>), DecodeError> {
    match take_i32(s) {
        Err(e) => Err(e),
        Ok((len, rest)) => if len == -1 {
            Ok((Seq::empty(), rest))
        } else if len < 0 {
            Err(DecodeError::Malformed)
        } else if rest.len() < len {
            Err(DecodeError::Short)
        } else {
            Ok((rest.take(len as int), rest.skip(len as int)))
        },
    }
}

/// Reads a string off the front of `s`: a byte buffer that must hold UTF-8.
pub open spec fn take_string(s: Seq<u8>) -> Result<(Seq<char>, Seq<u8>), DecodeError> {
    match take_buffer(s) {
        Err(e) => Err(e),
        Ok((bytes, rest)) => if valid_utf8(bytes) {
            Ok((decode_utf8(bytes), rest))
        } else {
            Err(DecodeError::Malformed)
        },
    }
}

/// `String::from_utf8`: the string that `bytes` encode, where they are valid
/// UTF-8, and nothing where they are not.
#[verifier::external_body]
fn string_from_utf8(bytes: Vec<u8>) -> (r: Option<String>)
    ensures
        r is Some <==> valid_utf8(bytes@),
        r matches Some(s) ==> s@ == decode_utf8(bytes@),
{
    match String::from_utf8(bytes) {
        Ok(s) => Some(s),
        Err(_) => None,
    }
}

/// Reads a 32-bit number at `*pos` and moves `*pos` past it. On an error
/// `*pos` stays.
pub fn get_i32(buf: &[u8], pos: &mut usize) -> (r: Result<i32, DecodeError>)
    requires
        *old(pos) <= buf@.len(),
    ensures
        *final(pos) <= buf@.len(),
        match take_i32(buf@.skip(*old(pos) as int)) {
            Ok((v, rest)) => r == Ok::<i32, DecodeError>(v) && *final(pos) == *old(pos) + 4
                && buf@.skip(*final(pos) as int) == rest,
            Err(e) => r == Err::<i32, DecodeError>(e) && *final(pos) == *old(pos),
        },
{
    let at: usize = *pos;
    if buf.len() - at < 4 {
        return Err(DecodeError::Short);
    }
    let field = slice_subrange(buf, at, at + 4);
    let v = i32_from_be(field);
    *pos = at + 4;
    proof {
        assert(field@ =~= buf@.skip(at as int).take(4));
        assert(buf@.skip(at + 4) =~= buf@.skip(at as int).skip(4));
    }
    Ok(v)
}

/// Reads a 64-bit number at `*pos` and moves `*pos` past it. On an error
/// `*pos` stays.
pub fn get_i64(buf: &[u8], pos: &mut usize) -> (r: Result<i64, DecodeError>)
    requires
        *old(pos) <= buf@.len(),
    ensures
        *final(pos) <= buf@.len(),
        match take_i64(buf@.skip(*old(pos) as int)) {
            Ok((v, rest)) => r == Ok::<i64, DecodeError>(v) && *final(pos) == *old(pos) + 8
                && buf@.skip(*final(pos) as int) == rest,
            Err(e) => r == Err::<i64, DecodeError>(e) && *final(pos) == *old(pos),
        },
{
    let at: usize = *pos;
    if buf.len() - at < 8 {
        return Err(DecodeError::Short);
    }
    let field = slice_subrange(buf, at, at + 8);
    let v = i64_from_be(field);
    *pos = at + 8;
    proof {
        assert(field@ =~= buf@.skip(at as int).take(8));
        assert(buf@.skip(at + 8) =~= buf@.skip(at as int).skip(8));
    }
    Ok(v)
}

/// Reads a flag at `*pos` and moves `*pos` past it. On an error `*pos` stays.
pub fn get_bool(buf: &[u8], pos: &mut usize) -> (r: Result<bool, DecodeError>)
    requires
        *old(pos) <= buf@.len(),
    ensures
        *final(pos) <= buf@.len(),
        match take_bool(buf@.skip(*old(pos) as int)) {
            Ok((v, rest)) => r == Ok::<bool, DecodeError>(v) && *final(pos) == *old(pos) + 1
                && buf@.skip(*final(pos) as int) == rest,
            Err(e) => r == Err::<bool, DecodeError>(e) && *final(pos) == *old(pos),
        },
{
    let at: usize = *pos;
    if buf.len() - at < 1 {
        return Err(DecodeError::Short);
    }
    let b: u8 = buf[at];
    if b > 1 {
        return Err(DecodeError::Malformed);
    }
    *pos = at + 1;
    proof {
        assert(buf@.skip(at + 1) =~= buf@.skip(at as int).skip(1));
    }
    Ok(b == 1)
}

/// Reads a byte buffer at `*pos` and moves `*pos` past it. On an error `*pos`
/// stays.
pub fn get_buffer(buf: &[u8], pos: &mut usize) -> (r: Result<Vec<u8>, DecodeError>)
    requires
        *old(pos) <= buf@.len(),
    ensures
        *final(pos) <= buf@.len(),
        match take_buffer(buf@.skip(*old(pos) as int)) {
            Ok((v, rest)) => r is Ok && r->Ok_0@ == v && buf@.skip(*final(pos) as int) == rest,
            Err(e) => r == Err::<Vec<u8>, DecodeError>(e) && *final(pos) == *old(pos),
        },
{
    let start: usize = *pos;
    let mut at: usize = start;
    let len: i32 = match get_i32(buf, &mut at) {
        Ok(len) => len,
        Err(e) => {
            return Err(e);
        },
    };
    if len == -1 {
        *pos = at;
        return Ok(Vec::new());
    }
    if len < 0 {
        return Err(DecodeError::Malformed);
    }
    let n: usize = len as usize;
    if buf.len() - at < n {
        return Err(DecodeError::Short);
    }
    let mut out: Vec<u8> = Vec::new();
    put_bytes(&mut out, slice_subrange(buf, at, at + n));
    *pos = at + n;
    proof {
        let rest = buf@.skip(at as int);
        assert(out@ =~= rest.take(n as int));
        assert(buf@.skip(at + n) =~= rest.skip(n as int));
    }
    Ok(out)
}

/// Reads a string at `*pos` and moves `*pos` past it. On an error `*pos`
/// stays.
pub fn get_string(buf: &[u8], pos: &mut usize) -> (r: Result<String, DecodeError>)
    requires
        *old(pos) <= buf@.len(),
    ensures
        *final(pos) <= buf@.len(),
        match take_string(buf@.skip(*old(pos) as int)) {
            Ok((v, rest)) => r is Ok && r->Ok_0@ == v && buf@.skip(*final(pos) as int) == rest,
            Err(e) => r == Err::<String, DecodeError>(e) && *final(pos) == *old(pos),
        },
{
    let mut at: usize = *pos;
    let bytes = match get_buffer(buf, &mut at) {
        Ok(bytes) => bytes,
        Err(e) => {
            return Err(e);
        },
    };
    match string_from_utf8(bytes) {
        Some(s) => {
            *pos = at;
            Ok(s)
        },
        None => Err(DecodeError::Malformed),
    }
}

/// Appends a flag.
pub fn put_bool(buf: &mut Vec<u8>, v: bool)
    ensures
        final(buf)@ == old(buf)@.push(bool_byte(v)),
{
    buf.push(if v { 1u8 } else { 0u8 });
}

/// Appends a byte buffer: its length, then its bytes.
pub fn put_buffer(buf: &mut Vec<u8>, data: &[u8])
    requires
        data@.len() <= i32::MAX,
    ensures
        final(buf)@ == old(buf)@ + buffer_bytes(data@),
{
    put_i32(buf, data.len() as i32);
    put_bytes(buf, data);
    assert(buf@ =~= old(buf)@ + buffer_bytes(data@));
}

/// Appends a string: the length of its UTF-8 form, then those bytes.
pub fn put_string(buf: &mut Vec<u8>, s: &str)
    requires
        encode_utf8(s@).len() <= i32::MAX,
    ensures
        final(buf)@ == old(buf)@ + string_bytes(s@),
{
    put_buffer(buf, s.as_bytes());
}

/// A 32-bit number written before `rest` reads back, leaving `rest`.
pub proof fn lemma_take_i32(v: i32, rest: Seq<u8>)
    ensures
        be_i32(v).len() == 4,
        take_i32(be_i32(v) + rest) == Ok::<(i32, Seq<u8>), DecodeError>((v, rest)),
{
    lemma_i32_round_trip(v);
    let s = be_i32(v) + rest;
    assert(s.take(4) =~= be_i32(v));
    assert(s.skip(4) =~= rest);
}

/// A 64-bit number written before `rest` reads back, leaving `rest`.
pub proof fn lemma_take_i64(v: i64, rest: Seq<u8>)
    ensures
        be_i64(v).len() == 8,
        take_i64(be_i64(v) + rest) == Ok::<(i64, Seq<u8>), DecodeError>((v, rest)),
{
    lemma_i64_round_trip(v);
    let s = be_i64(v) + rest;
    assert(s.take(8) =~= be_i64(v));
    assert(s.skip(8) =~= rest);
}

/// A flag written before `rest` reads back, leaving `rest`.
pub proof fn lemma_take_bool(v: bool, rest: Seq<u8>)
    ensures
        take_bool(seq![bool_byte(v)] + rest) == Ok::<(bool, Seq<u8>), DecodeError>((v, rest)),
{
    let s = seq![bool_byte(v)] + rest;
    assert(s.skip(1) =~= rest);
}

/// A byte buffer written before `rest` reads back, leaving `rest`.
pub proof fn lemma_take_buffer(data: Seq<u8>, rest: Seq<u8>)
    requires
        data.len() <= i32::MAX,
    ensures
        buffer_bytes(data).len() == 4 + data.len(),
        take_buffer(buffer_bytes(data) + rest) == Ok::<(Seq<u8>, Seq<u8>), DecodeError>(
            (data, rest),
        ),
{
    let len = data.len() as i32;
    lemma_take_i32(len, data + rest);
    assert(buffer_bytes(data) + rest =~= be_i32(len) + (data + rest));
    assert((data + rest).take(len as int) =~= data);
    assert((data + rest).skip(len as int) =~= rest);
}

/// A string written before `rest` reads back, leaving `rest`.
pub proof fn lemma_take_string(chars: Seq<char>, rest: Seq<u8>)
    requires
        encode_utf8(chars).len() <= i32::MAX,
    ensures
        string_bytes(chars).len() == 4 + encode_utf8(chars).len(),
        take_string(string_bytes(chars) + rest) == Ok::<(Seq<char>, Seq<u8>), DecodeError>(
            (chars, rest),
        ),
{
    lemma_take_buffer(encode_utf8(chars), rest);
    vstd::utf8::encode_utf8_valid_utf8(chars);
    vstd::utf8::encode_utf8_decode_utf8(chars);
}

} // verus!
