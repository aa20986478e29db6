use vstd::prelude::*;
use crate::{DecodeError, FFIResult};
use crate::converter_traits::{FFIConverter, parse_whole};
use crate::ffi::buffer::FFIBuffer;
use vstd::utf8::{decode_utf8, encode_utf8, valid_utf8};
use crate::metadata;
use crate::metadata::MetadataBuffer;
use crate::wire::{lemma_be_bytes_len, be_bytes, be_value, lemma_be_prefix, lemma_pow256_values, parse_be, put_be, read_be, pow256};

verus! {

impl<UT> FFIConverter<UT> for u8 {
    type FFIType = u8;

    open spec fn encodable(obj: u8) -> bool {
        true
    }

    open spec fn wire(obj: u8) -> Seq<u8> {
        be_bytes(obj as nat, 1)
    }

    open spec fn parse(bytes: Seq<u8>) -> FFIResult<(u8, nat)> {
        match parse_be(bytes, 1) {
            Ok((v, n)) => Ok((v as u8, n)),
            Err(e) => Err(e),
        }
    }

    open spec fn lower_view(obj: u8) -> u8 {
        obj
    }

    open spec fn lift_view(v: u8) -> FFIResult<u8> {
        Ok(v)
    }

    open spec fn fingerprint() -> Seq<u8> {
        seq![metadata::codes::TYPE_U8]
    }

    fn lower(obj: u8) -> (r: u8) {
        obj
    }

    fn write(obj: u8, buf: &mut Vec<u8>) {
        put_be(buf, obj as u64, 1);
    }

    fn try_lift(v: u8) -> (r: FFIResult<u8>) {
        Ok(v)
    }

    fn try_read(buf: &mut &[u8]) -> (r: FFIResult<u8>) {
        proof {
            lemma_pow256_values();
        }
        match read_be(buf, 1) {
            Ok(v) => Ok(v as u8),
            Err(e) => Err(e),
        }
    }

    fn type_id_meta() -> (r: MetadataBuffer) {
        MetadataBuffer::from_code(metadata::codes::TYPE_U8)
    }

    proof fn lemma_parse_len(bytes: Seq<u8>) {
    }

    proof fn lemma_parse_wire(obj: u8, rest: Seq<u8>) {
        lemma_pow256_values();
        lemma_be_prefix(obj as nat, 1, rest);
        crate::wire::lemma_be_bytes_len(obj as nat, 1);
    }

    proof fn lemma_lift_lower(obj: u8) {
    }
}

impl<UT> FFIConverter<UT> for u16 {
    type FFIType = u16;

    open spec fn encodable(obj: u16) -> bool {
        true
    }

    open spec fn wire(obj: u16) -> Seq<u8> {
        be_bytes(obj as nat, 2)
    }

    open spec fn parse(bytes: Seq<u8>) -> FFIResult<(u16, nat)> {
        match parse_be(bytes, 2) {
            Ok((v, n)) => Ok((v as u16, n)),
            Err(e) => Err(e),
        }
    }

    open spec fn lower_view(obj: u16) -> u16 {
        obj
    }

    open spec fn lift_view(v: u16) -> FFIResult<u16> {
        Ok(v)
    }

    open spec fn fingerprint() -> Seq<u8> {
        seq![metadata::codes::TYPE_U16]
    }

    fn lower(obj: u16) -> (r: u16) {
        obj
    }

    fn write(obj: u16, buf: &mut Vec<u8>) {
        put_be(buf, obj as u64, 2);
    }

    fn try_lift(v: u16) -> (r: FFIResult<u16>) {
        Ok(v)
    }

    fn try_read(buf: &mut &[u8]) -> (r: FFIResult<u16>) {
        proof {
            lemma_pow256_values();
        }
        match read_be(buf, 2) {
            Ok(v) => Ok(v as u16),
            Err(e) => Err(e),
        }
    }

    fn type_id_meta() -> (r: MetadataBuffer) {
        MetadataBuffer::from_code(metadata::codes::TYPE_U16)
    }

    proof fn lemma_parse_len(bytes: Seq<u8>) {
    }

    proof fn lemma_parse_wire(obj: u16, rest: Seq<u8>) {
        lemma_pow256_values();
        lemma_be_prefix(obj as nat, 2, rest);
        crate::wire::lemma_be_bytes_len(obj as nat, 2);
    }

    proof fn lemma_lift_lower(obj: u16) {
    }
}

impl<UT> FFIConverter<UT> for u32 {
    type FFIType = u32;

    open spec fn encodable(obj: u32) -> bool {
        true
    }

    open spec fn wire(obj: u32) -> Seq<u8> {
        be_bytes(obj as nat, 4)
    }

    open spec fn parse(bytes: Seq<u8>) -> FFIResult<(u32, nat)> {
        match parse_be(bytes, 4) {
            Ok((v, n)) => Ok((v as u32, n)),
            Err(e) => Err(e),
        }
    }

    open spec fn lower_view(obj: u32) -> u32 {
        obj
    }

    open spec fn lift_view(v: u32) -> FFIResult<u32> {
        Ok(v)
    }

    open spec fn fingerprint() -> Seq<u8> {
        seq![metadata::codes::TYPE_U32]
    }

    fn lower(obj: u32) -> (r: u32) {
        obj
    }

    fn write(obj: u32, buf: &mut Vec<u8>) {
        put_be(buf, obj as u64, 4);
    }

    fn try_lift(v: u32) -> (r: FFIResult<u32>) {
        Ok(v)
    }

    fn try_read(buf: &mut &[u8]) -> (r: FFIResult<u32>) {
        proof {
            lemma_pow256_values();
        }
        match read_be(buf, 4) {
            Ok(v) => Ok(v as u32),
            Err(e) => Err(e),
        }
    }

    fn type_id_meta() -> (r: MetadataBuffer) {
        MetadataBuffer::from_code(metadata::codes::TYPE_U32)
    }

    proof fn lemma_parse_len(bytes: Seq<u8>) {
    }

    proof fn lemma_parse_wire(obj: u32, rest: Seq<u8>) {
        lemma_pow256_values();
        lemma_be_prefix(obj as nat, 4, rest);
        crate::wire::lemma_be_bytes_len(obj as nat, 4);
    }

    proof fn lemma_lift_lower(obj: u32) {
    }
}

impl<UT> FFIConverter<UT> for u64 {
    type FFIType = u64;

    open spec fn encodable(obj: u64) -> bool {
        true
    }

    open spec fn wire(obj: u64) -> Seq<u8> {
        be_bytes(obj as nat, 8)
    }

    open spec fn parse(bytes: Seq<u8>) -> FFIResult<(u64, nat)> {
        match parse_be(bytes, 8) {
            Ok((v, n)) => Ok((v as u64, n)),
            Err(e) => Err(e),
        }
    }

    open spec fn lower_view(obj: u64) -> u64 {
        obj
    }

    open spec fn lift_view(v: u64) -> FFIResult<u64> {
        Ok(v)
    }

    open spec fn fingerprint() -> Seq<u8> {
        seq![metadata::codes::TYPE_U64]
    }

    fn lower(obj: u64) -> (r: u64) {
        obj
    }

    fn write(obj: u64, buf: &mut Vec<u8>) {
        put_be(buf, obj as u64, 8);
    }

    fn try_lift(v: u64) -> (r: FFIResult<u64>) {
        Ok(v)
    }

    fn try_read(buf: &mut &[u8]) -> (r: FFIResult<u64>) {
        proof {
            lemma_pow256_values();
        }
        match read_be(buf, 8) {
            Ok(v) => Ok(v as u64),
            Err(e) => Err(e),
        }
    }

    fn type_id_meta() -> (r: MetadataBuffer) {
        MetadataBuffer::from_code(metadata::codes::TYPE_U64)
    }

    proof fn lemma_parse_len(bytes: Seq<u8>) {
    }

    proof fn lemma_parse_wire(obj: u64, rest: Seq<u8>) {
        lemma_pow256_values();
        lemma_be_prefix(obj as nat, 8, rest);
        crate::wire::lemma_be_bytes_len(obj as nat, 8);
    }

    proof fn lemma_lift_lower(obj: u64) {
    }
}

impl<UT> FFIConverter<UT> for i8 {
    type FFIType = i8;

    open spec fn encodable(obj: i8) -> bool {
        true
    }

    open spec fn wire(obj: i8) -> Seq<u8> {
        be_bytes(obj as u8 as nat, 1)
    }

    open spec fn parse(bytes: Seq<u8>) -> FFIResult<(i8, nat)> {
        match parse_be(bytes, 1) {
            Ok((v, n)) => Ok((v as u8 as i8, n)),
            Err(e) => Err(e),
        }
    }

    open spec fn lower_view(obj: i8) -> i8 {
        obj
    }

    open spec fn lift_view(v: i8) -> FFIResult<i8> {
        Ok(v)
    }

    open spec fn fingerprint() -> Seq<u8> {
        seq![metadata::codes::TYPE_I8]
    }

    fn lower(obj: i8) -> (r: i8) {
        obj
    }

    fn write(obj: i8, buf: &mut Vec<u8>) {
        put_be(buf, obj as u8 as u64, 1);
    }

    fn try_lift(v: i8) -> (r: FFIResult<i8>) {
        Ok(v)
    }

    fn try_read(buf: &mut &[u8]) -> (r: FFIResult<i8>) {
        proof {
            lemma_pow256_values();
        }
        match read_be(buf, 1) {
            Ok(v) => Ok(v as u8 as i8),
            Err(e) => Err(e),
        }
    }

    fn type_id_meta() -> (r: MetadataBuffer) {
        MetadataBuffer::from_code(metadata::codes::TYPE_I8)
    }

    proof fn lemma_parse_len(bytes: Seq<u8>) {
    }

    proof fn lemma_parse_wire(obj: i8, rest: Seq<u8>) {
        lemma_pow256_values();
        lemma_be_prefix(obj as u8 as nat, 1, rest);
        crate::wire::lemma_be_bytes_len(obj as u8 as nat, 1);
        assert(obj as u8 as i8 == obj) by (bit_vector);
    }

    proof fn lemma_lift_lower(obj: i8) {
    }
}

impl<UT> FFIConverter<UT> for i16 {
    type FFIType = i16;

    open spec fn encodable(obj: i16) -> bool {
        true
    }

    open spec fn wire(obj: i16) -> Seq<u8> {
        be_bytes(obj as u16 as nat, 2)
    }

    open spec fn parse(bytes: Seq<u8>) -> FFIResult<(i16, nat)> {
        match parse_be(bytes, 2) {
            Ok((v, n)) => Ok((v as u16 as i16, n)),
            Err(e) => Err(e),
        }
    }

    open spec fn lower_view(obj: i16) -> i16 {
        obj
    }

    open spec fn lift_view(v: i16) -> FFIResult<i16> {
        Ok(v)
    }

    open spec fn fingerprint() -> Seq<u8> {
        seq![metadata::codes::TYPE_I16]
    }

    fn lower(obj: i16) -> (r: i16) {
        obj
    }

    fn write(obj: i16, buf: &mut Vec<u8>) {
        put_be(buf, obj as u16 as u64, 2);
    }

    fn try_lift(v: i16) -> (r: FFIResult<i16>) {
        Ok(v)
    }

    fn try_read(buf: &mut &[u8]) -> (r: FFIResult<i16>) {
        proof {
            lemma_pow256_values();
        }
        match read_be(buf, 2) {
            Ok(v) => Ok(v as u16 as i16),
            Err(e) => Err(e),
        }
    }

    fn type_id_meta() -> (r: MetadataBuffer) {
        MetadataBuffer::from_code(metadata::codes::TYPE_I16)
    }

    proof fn lemma_parse_len(bytes: Seq<u8>) {
    }

    proof fn lemma_parse_wire(obj: i16, rest: Seq<u8>) {
        lemma_pow256_values();
        lemma_be_prefix(obj as u16 as nat, 2, rest);
        crate::wire::lemma_be_bytes_len(obj as u16 as nat, 2);
        assert(obj as u16 as i16 == obj) by (bit_vector);
    }

    proof fn lemma_lift_lower(obj: i16) {
    }
}

impl<UT> FFIConverter<UT> for i32 {
    type FFIType = i32;

    open spec fn encodable(obj: i32) -> bool {
        true
    }

    open spec fn wire(obj: i32) -> Seq<u8> {
        be_bytes(obj as u32 as nat, 4)
    }

    open spec fn parse(bytes: Seq<u8>) -> FFIResult<(i32, nat)> {
        match parse_be(bytes, 4) {
            Ok((v, n)) => Ok((v as u32 as i32, n)),
            Err(e) => Err(e),
        }
    }

    open spec fn lower_view(obj: i32) -> i32 {
        obj
    }

    open spec fn lift_view(v: i32) -> FFIResult<i32> {
        Ok(v)
    }

    open spec fn fingerprint() -> Seq<u8> {
        seq![metadata::codes::TYPE_I32]
    }

    fn lower(obj: i32) -> (r: i32) {
        obj
    }

    fn write(obj: i32, buf: &mut Vec<u8>) {
        put_be(buf, obj as u32 as u64, 4);
    }

    fn try_lift(v: i32) -> (r: FFIResult<i32>) {
        Ok(v)
    }

    fn try_read(buf: &mut &[u8]) -> (r: FFIResult<i32>) {
        proof {
            lemma_pow256_values();
        }
        match read_be(buf, 4) {
            Ok(v) => Ok(v as u32 as i32),
            Err(e) => Err(e),
        }
    }

    fn type_id_meta() -> (r: MetadataBuffer) {
        MetadataBuffer::from_code(metadata::codes::TYPE_I32)
    }

    proof fn lemma_parse_len(bytes: Seq<u8>) {
    }

    proof fn lemma_parse_wire(obj: i32, rest: Seq<u8>) {
        lemma_pow256_values();
        lemma_be_prefix(obj as u32 as nat, 4, rest);
        crate::wire::lemma_be_bytes_len(obj as u32 as nat, 4);
        assert(obj as u32 as i32 == obj) by (bit_vector);
    }

    proof fn lemma_lift_lower(obj: i32) {
    }
}

impl<UT> FFIConverter<UT> for i64 {
    type FFIType = i64;

    open spec fn encodable(obj: i64) -> bool {
        true
    }

    open spec fn wire(obj: i64) -> Seq<u8> {
        be_bytes(obj as u64 as nat, 8)
    }

    open spec fn parse(bytes: Seq<u8>) -> FFIResult<(i64, nat)> {
        match parse_be(bytes, 8) {
            Ok((v, n)) => Ok((v as u64 as i64, n)),
            Err(e) => Err(e),
        }
    }

    open spec fn lower_view(obj: i64) -> i64 {
        obj
    }

    open spec fn lift_view(v: i64) -> FFIResult<i64> {
        Ok(v)
    }

    open spec fn fingerprint() -> Seq<u8> {
        seq![metadata::codes::TYPE_I64]
    }

    fn lower(obj: i64) -> (r: i64) {
        obj
    }

    fn write(obj: i64, buf: &mut Vec<u8>) {
        put_be(buf, obj as u64 as u64, 8);
    }

    fn try_lift(v: i64) -> (r: FFIResult<i64>) {
        Ok(v)
    }

    fn try_read(buf: &mut &[u8]) -> (r: FFIResult<i64>) {
        proof {
            lemma_pow256_values();
        }
        match read_be(buf, 8) {
            Ok(v) => Ok(v as u64 as i64),
            Err(e) => Err(e),
        }
    }

    fn type_id_meta() -> (r: MetadataBuffer) {
        MetadataBuffer::from_code(metadata::codes::TYPE_I64)
    }

    proof fn lemma_parse_len(bytes: Seq<u8>) {
    }

    proof fn lemma_parse_wire(obj: i64, rest: Seq<u8>) {
        lemma_pow256_values();
        lemma_be_prefix(obj as u64 as nat, 8, rest);
        crate::wire::lemma_be_bytes_len(obj as u64 as nat, 8);
        assert(obj as u64 as i64 == obj) by (bit_vector);
    }

    proof fn lemma_lift_lower(obj: i64) {
    }
}


/// Relies on `String::from_utf8`: it succeeds exactly when the bytes are
/// valid UTF-8, and the string then holds exactly those bytes.
#[verifier::external_body]
fn string_from_utf8(bytes: Vec<u8>) -> (r: Option<String>)
    ensures
        r is Some <==> valid_utf8(bytes@),
        r matches Some(s) ==> encode_utf8(s@) == bytes@,
{
    String::from_utf8(bytes).ok()
}

/// Builds a string from bytes, or reports `InvalidEncoding` when they are
/// not UTF-8.
fn string_from_bytes(bytes: Vec<u8>) -> (r: FFIResult<String>)
    ensures
        valid_utf8(bytes@) ==> r is Ok && r->Ok_0@ == decode_utf8(bytes@),
        !valid_utf8(bytes@) ==> r == Err::<String, DecodeError>(DecodeError::InvalidEncoding),
{
    let ghost b = bytes@;
    match string_from_utf8(bytes) {
        Some(s) => {
            proof {
                vstd::utf8::encode_utf8_decode_utf8(s@);
            }
            Ok(s)
        },
        None => Err(DecodeError::InvalidEncoding),
    }
}

/// Appends every byte of `bytes` to `buf`.
fn put_slice(buf: &mut Vec<u8>, bytes: &[u8])
    ensures
        final(buf)@ == old(buf)@ + bytes@,
{
    let mut i: usize = 0;
    while i < bytes.len()
        invariant
            i <= bytes@.len(),
            buf@ == old(buf)@ + bytes@.take(i as int),
        decreases bytes@.len() - i,
    {
        buf.push(bytes[i]);
        i = i + 1;
        assert(buf@ =~= old(buf)@ + bytes@.take(i as int));
    }
    assert(bytes@.take(i as int) =~= bytes@);
}

/// What reading a 4-byte length prefix from the front of `bytes` gives: the
/// length, `InsufficientData` when fewer than 4 bytes are there, `Overflow`
/// when the signed prefix is negative.
pub open spec fn parse_len(bytes: Seq<u8>) -> FFIResult<nat> {
    match parse_be(bytes, 4) {
        Ok((v, _)) => if (v as u32 as i32) < 0 {
            Err(DecodeError::Overflow)
        } else {
            Ok((v as u32 as i32) as nat)
        },
        Err(e) => Err(e),
    }
}

/// The 4-byte prefix that encodes the length `n`.
pub open spec fn len_prefix(n: nat) -> Seq<u8> {
    be_bytes(n, 4)
}

pub(crate) proof fn lemma_len_prefix(n: nat, rest: Seq<u8>)
    requires
        n <= i32::MAX,
    ensures
        len_prefix(n).len() == 4,
        parse_len(len_prefix(n) + rest) == Ok::<nat, DecodeError>(n),
        (len_prefix(n) + rest).skip(4) == rest,
{
    lemma_pow256_values();
    lemma_be_prefix(n, 4, rest);
    lemma_be_bytes_len(n, 4);
    assert((len_prefix(n) + rest).skip(4) =~= rest);
    let x = n as u32;
    assert(x <= 0x7fff_ffff ==> (x as i32) as u32 == x && (x as i32) >= 0) by (bit_vector);
}

/// Reads a 4-byte length prefix from the front of the cursor and moves the
/// cursor past it.
pub(crate) fn read_len(buf: &mut &[u8]) -> (r: FFIResult<usize>)
    ensures
        match parse_len(old(buf)@) {
            Ok(n) => r == Ok::<usize, DecodeError>(n as usize) && n <= i32::MAX
                && final(buf)@ == old(buf)@.skip(4),
            Err(e) => r == Err::<usize, DecodeError>(e),
        },
{
    proof {
        lemma_pow256_values();
    }
    match read_be(buf, 4) {
        Ok(v) => {
            let len = v as u32 as i32;
            if len < 0 {
                Err(DecodeError::Overflow)
            } else {
                Ok(len as usize)
            }
        },
        Err(e) => Err(e),
    }
}

impl<UT> FFIConverter<UT> for bool {
    type FFIType = i8;

    open spec fn encodable(obj: bool) -> bool {
        true
    }

    open spec fn wire(obj: bool) -> Seq<u8> {
        seq![if obj { 1u8 } else { 0u8 }]
    }

    open spec fn parse(bytes: Seq<u8>) -> FFIResult<(bool, nat)> {
        if bytes.len() < 1 {
            Err(DecodeError::InsufficientData)
        } else {
            match <bool as FFIConverter<UT>>::lift_view(bytes[0] as i8) {
                Ok(b) => Ok((b, 1)),
                Err(e) => Err(e),
            }
        }
    }

    open spec fn lower_view(obj: bool) -> i8 {
        if obj { 1i8 } else { 0i8 }
    }

    open spec fn lift_view(v: i8) -> FFIResult<bool> {
        if v == 0 {
            Ok(false)
        } else if v == 1 {
            Ok(true)
        } else {
            Err(DecodeError::InvalidEncoding)
        }
    }

    open spec fn fingerprint() -> Seq<u8> {
        seq![metadata::codes::TYPE_BOOL]
    }

    fn lower(obj: bool) -> (r: i8) {
        if obj { 1 } else { 0 }
    }

    fn write(obj: bool, buf: &mut Vec<u8>) {
        buf.push(if obj { 1u8 } else { 0u8 });
        assert(final(buf)@ =~= old(buf)@ + seq![if obj { 1u8 } else { 0u8 }]);
    }

    fn try_lift(v: i8) -> (r: FFIResult<bool>) {
        match v {
            0 => Ok(false),
            1 => Ok(true),
            _ => Err(DecodeError::InvalidEncoding),
        }
    }

    fn try_read(buf: &mut &[u8]) -> (r: FFIResult<bool>) {
        crate::check_remaining(*buf, 1)?;
        let v = buf[0] as i8;
        let (_, rest) = buf.split_at(1);
        *buf = rest;
        assert(final(buf)@ =~= old(buf)@.skip(1));
        <bool as FFIConverter<UT>>::try_lift(v)
    }

    fn type_id_meta() -> (r: MetadataBuffer) {
        MetadataBuffer::from_code(metadata::codes::TYPE_BOOL)
    }

    proof fn lemma_parse_len(bytes: Seq<u8>) {
    }

    proof fn lemma_parse_wire(obj: bool, rest: Seq<u8>) {
        assert((<bool as FFIConverter<UT>>::wire(obj) + rest)[0] == (if obj { 1u8 } else { 0u8 }));
    }

    proof fn lemma_lift_lower(obj: bool) {
    }
}

impl<UT> FFIConverter<UT> for String {
    type FFIType = FFIBuffer;

    open spec fn encodable(obj: String) -> bool {
        encode_utf8(obj@).len() <= i32::MAX
    }

    open spec fn wire(obj: String) -> Seq<u8> {
        len_prefix(encode_utf8(obj@).len()) + encode_utf8(obj@)
    }

    open spec fn parse(bytes: Seq<u8>) -> FFIResult<(Seq<char>, nat)> {
        match parse_len(bytes) {
            Ok(n) => if bytes.len() < 4 + n {
                Err(DecodeError::InsufficientData)
            } else if !valid_utf8(bytes.subrange(4, (4 + n) as int)) {
                Err(DecodeError::InvalidEncoding)
            } else {
                Ok((decode_utf8(bytes.subrange(4, (4 + n) as int)), 4 + n))
            },
            Err(e) => Err(e),
        }
    }

    open spec fn lower_view(obj: String) -> Seq<u8> {
        encode_utf8(obj@)
    }

    open spec fn lift_view(v: Seq<u8>) -> FFIResult<Seq<char>> {
        if valid_utf8(v) {
            Ok(decode_utf8(v))
        } else {
            Err(DecodeError::InvalidEncoding)
        }
    }

    open spec fn fingerprint() -> Seq<u8> {
        seq![metadata::codes::TYPE_STRING]
    }

    fn lower(obj: String) -> (r: FFIBuffer) {
        let bytes = vstd::slice::slice_to_vec(obj.as_str().as_bytes());
        FFIBuffer::from_vec(bytes)
    }

    fn write(obj: String, buf: &mut Vec<u8>) {
        let bytes = obj.as_str().as_bytes();
        let len = bytes.len();
        proof {
            lemma_pow256_values();
        }
        put_be(buf, len as u64, 4);
        put_slice(buf, bytes);
        assert(final(buf)@ =~= old(buf)@ + <String as FFIConverter<UT>>::wire(obj));
    }

    fn try_lift(v: FFIBuffer) -> (r: FFIResult<String>) {
        string_from_bytes(v.destroy_into_vec())
    }

    fn try_read(buf: &mut &[u8]) -> (r: FFIResult<String>) {
        let len = read_len(buf)?;
        crate::check_remaining(*buf, len)?;
        let (head, rest) = buf.split_at(len);
        assert(head@ =~= old(buf)@.subrange(4, 4 + len));
        let res = string_from_bytes(vstd::slice::slice_to_vec(head))?;
        *buf = rest;
        assert(final(buf)@ =~= old(buf)@.skip(4 + len));
        Ok(res)
    }

    fn type_id_meta() -> (r: MetadataBuffer) {
        MetadataBuffer::from_code(metadata::codes::TYPE_STRING)
    }

    proof fn lemma_parse_len(bytes: Seq<u8>) {
    }

    proof fn lemma_parse_wire(obj: String, rest: Seq<u8>) {
        let e = encode_utf8(obj@);
        lemma_len_prefix(e.len(), e + rest);
        let all = <String as FFIConverter<UT>>::wire(obj) + rest;
        assert(all =~= len_prefix(e.len()) + (e + rest));
        assert(all.subrange(4, (4 + e.len()) as int) =~= e);
        vstd::utf8::encode_utf8_valid_utf8(obj@);
        vstd::utf8::encode_utf8_decode_utf8(obj@);
    }

    proof fn lemma_lift_lower(obj: String) {
        vstd::utf8::encode_utf8_valid_utf8(obj@);
        vstd::utf8::encode_utf8_decode_utf8(obj@);
    }
}

impl<UT, T: FFIConverter<UT>> FFIConverter<UT> for Option<T> {
    type FFIType = FFIBuffer;

    open spec fn encodable(obj: Option<T>) -> bool {
        match obj {
            None => true,
            Some(v) => T::encodable(v),
        }
    }

    open spec fn wire(obj: Option<T>) -> Seq<u8> {
        match obj {
            None => seq![0u8],
            Some(v) => seq![1u8] + T::wire(v),
        }
    }

    open spec fn parse(bytes: Seq<u8>) -> FFIResult<(Option<T::V>, nat)> {
        if bytes.len() < 1 {
            Err(DecodeError::InsufficientData)
        } else if bytes[0] == 0 {
            Ok((None, 1))
        } else if bytes[0] == 1 {
            match T::parse(bytes.skip(1)) {
                Ok((m, n)) => Ok((Some(m), n + 1)),
                Err(e) => Err(e),
            }
        } else {
            Err(DecodeError::InvalidEncoding)
        }
    }

    open spec fn lower_view(obj: Option<T>) -> Seq<u8> {
        Self::wire(obj)
    }

    open spec fn lift_view(v: Seq<u8>) -> FFIResult<Option<T::V>> {
        parse_whole(Self::parse(v), v.len())
    }

    open spec fn fingerprint() -> Seq<u8> {
        seq![metadata::codes::TYPE_OPTION] + T::fingerprint()
    }

    fn lower(obj: Option<T>) -> (r: FFIBuffer) {
        let mut buf: Vec<u8> = Vec::new();
        <Option<T> as FFIConverter<UT>>::write(obj, &mut buf);
        assert(buf@ =~= <Option<T> as FFIConverter<UT>>::wire(obj));
        FFIBuffer::from_vec(buf)
    }

    fn write(obj: Option<T>, buf: &mut Vec<u8>) {
        match obj {
            None => {
                buf.push(0u8);
                assert(final(buf)@ =~= old(buf)@ + seq![0u8]);
            },
            Some(v) => {
                buf.push(1u8);
                T::write(v, buf);
                assert(final(buf)@ =~= old(buf)@ + (seq![1u8] + T::wire(v)));
            },
        }
    }

    fn try_lift(v: FFIBuffer) -> (r: FFIResult<Option<T>>) {
        let vec = v.destroy_into_vec();
        let mut buf = vec.as_slice();
        let value = <Option<T> as FFIConverter<UT>>::try_read(&mut buf)?;
        proof {
            <Option<T> as FFIConverter<UT>>::lemma_parse_len(vec@);
        }
        if buf.len() == 0 {
            Ok(value)
        } else {
            Err(DecodeError::TrailingData)
        }
    }

    fn try_read(buf: &mut &[u8]) -> (r: FFIResult<Option<T>>) {
        crate::check_remaining(*buf, 1)?;
        let tag = buf[0];
        let (_, rest) = buf.split_at(1);
        *buf = rest;
        assert(rest@ =~= old(buf)@.skip(1));
        if tag == 0 {
            Ok(None)
        } else if tag == 1 {
            let v = T::try_read(buf)?;
            proof {
                T::lemma_parse_len(rest@);
            }
            assert(final(buf)@ =~= old(buf)@.skip(
                (T::parse(old(buf)@.skip(1))->Ok_0.1 + 1) as int,
            ));
            Ok(Some(v))
        } else {
            Err(DecodeError::InvalidEncoding)
        }
    }

    fn type_id_meta() -> (r: MetadataBuffer) {
        MetadataBuffer::from_code(metadata::codes::TYPE_OPTION).concat(T::type_id_meta())
    }

    proof fn lemma_parse_len(bytes: Seq<u8>) {
        if bytes.len() >= 1 {
            T::lemma_parse_len(bytes.skip(1));
        }
    }

    proof fn lemma_parse_wire(obj: Option<T>, rest: Seq<u8>) {
        match obj {
            None => {},
            Some(v) => {
                let all = Self::wire(obj) + rest;
                assert(all.skip(1) =~= T::wire(v) + rest);
                T::lemma_parse_wire(v, rest);
            },
        }
    }

    proof fn lemma_lift_lower(obj: Option<T>) {
        Self::lemma_parse_wire(obj, seq![]);
        assert(Self::wire(obj) + seq![] =~= Self::wire(obj));
    }
}

/// The encodings of the items of `s`, in order, one after another.
pub open spec fn wire_items<UT, T: FFIConverter<UT>>(s: Seq<T>) -> Seq<u8>
    decreases s.len(),
{
    if s.len() == 0 {
        seq![]
    } else {
        T::wire(s[0]) + wire_items::<UT, T>(s.skip(1))
    }
}

/// What decoding `count` items one after another from the front of `bytes`
/// gives: their models and the bytes they take up, or the first error.
pub open spec fn parse_items<UT, T: FFIConverter<UT>>(bytes: Seq<u8>, count: nat) -> FFIResult<(Seq<T::V>, nat)>
    decreases count,
{
    if count == 0 {
        Ok((seq![], 0))
    } else {
        match T::parse(bytes) {
            Ok((m, n)) => match parse_items::<UT, T>(bytes.skip(n as int), (count - 1) as nat) {
                Ok((ms, k)) => Ok((seq![m] + ms, n + k)),
                Err(e) => Err(e),
            },
            Err(e) => Err(e),
        }
    }
}

/// `r` with the models `ms`, taking up `c` bytes, put in front.
pub open spec fn prepend_items<V>(ms: Seq<V>, c: nat, r: FFIResult<(Seq<V>, nat)>) -> FFIResult<(Seq<V>, nat)> {
    match r {
        Ok((ms2, k)) => Ok((ms + ms2, c + k)),
        Err(e) => Err(e),
    }
}

proof fn lemma_wire_items_push<UT, T: FFIConverter<UT>>(s: Seq<T>, x: T)
    ensures
        wire_items::<UT, T>(s.push(x)) == wire_items::<UT, T>(s) + T::wire(x),
    decreases s.len(),
{
    if s.len() == 0 {
        assert(s.push(x).skip(1) =~= seq![]);
        assert(s.push(x)[0] == x);
        assert(wire_items::<UT, T>(s.push(x).skip(1)) == Seq::<u8>::empty());
        assert(wire_items::<UT, T>(s.push(x)) =~= T::wire(x));
    } else {
        assert(s.push(x).skip(1) =~= s.skip(1).push(x));
        lemma_wire_items_push::<UT, T>(s.skip(1), x);
        assert(wire_items::<UT, T>(s.push(x)) =~= wire_items::<UT, T>(s) + T::wire(x));
    }
}

proof fn lemma_parse_items_len<UT, T: FFIConverter<UT>>(bytes: Seq<u8>, count: nat)
    ensures
        parse_items::<UT, T>(bytes, count) matches Ok((ms, n)) ==> n <= bytes.len() && ms.len() == count,
    decreases count,
{
    if count > 0 {
        T::lemma_parse_len(bytes);
        if let Ok((m, n)) = T::parse(bytes) {
            lemma_parse_items_len::<UT, T>(bytes.skip(n as int), (count - 1) as nat);
        }
    }
}

proof fn lemma_parse_items_wire<UT, T: FFIConverter<UT>>(s: Seq<T>, rest: Seq<u8>)
    requires
        forall|i: int| 0 <= i < s.len() ==> T::encodable(#[trigger] s[i]),
    ensures
        parse_items::<UT, T>(wire_items::<UT, T>(s) + rest, s.len()) == Ok::<(Seq<T::V>, nat), DecodeError>(
            (Seq::new(s.len(), |i: int| s[i].deep_view()), wire_items::<UT, T>(s).len()),
        ),
    decreases s.len(),
{
    if s.len() == 0 {
        assert(Seq::new(0, |i: int| s[i].deep_view()) =~= Seq::<T::V>::empty());
    } else {
        let tail = s.skip(1);
        assert forall|i: int| 0 <= i < tail.len() implies T::encodable(#[trigger] tail[i]) by {
            assert(tail[i] == s[i + 1]);
        }
        let all = wire_items::<UT, T>(s) + rest;
        assert(all =~= T::wire(s[0]) + (wire_items::<UT, T>(tail) + rest));
        T::lemma_parse_wire(s[0], wire_items::<UT, T>(tail) + rest);
        let n = T::wire(s[0]).len();
        assert(all.skip(n as int) =~= wire_items::<UT, T>(tail) + rest);
        lemma_parse_items_wire::<UT, T>(tail, rest);
        assert(seq![s[0].deep_view()] + Seq::new(tail.len(), |i: int| tail[i].deep_view())
            =~= Seq::new(s.len(), |i: int| s[i].deep_view()));
    }
}

pub(crate) proof fn lemma_prepend_push<V>(vs: Seq<V>, c: nat, m: V, n: nat, r: FFIResult<(Seq<V>, nat)>)
    ensures
        prepend_items(vs, c, prepend_items(seq![m], n, r)) == prepend_items(vs.push(m), c + n, r),
{
    if let Ok((ms, k)) = r {
        assert(vs + (seq![m] + ms) =~= vs.push(m) + ms);
    }
}

proof fn lemma_parse_items_step<UT, T: FFIConverter<UT>>(bytes: Seq<u8>, count: nat, m: T::V, n: nat)
    requires
        count > 0,
        T::parse(bytes) == Ok::<(T::V, nat), DecodeError>((m, n)),
    ensures
        parse_items::<UT, T>(bytes, count) == prepend_items(seq![m], n, parse_items::<UT, T>(bytes.skip(n as int), (count - 1) as nat)),
{
}

impl<UT, T: FFIConverter<UT>> FFIConverter<UT> for Vec<T> {
    type FFIType = FFIBuffer;

    open spec fn encodable(obj: Vec<T>) -> bool {
        &&& obj@.len() <= i32::MAX
        &&& forall|i: int| 0 <= i < obj@.len() ==> T::encodable(#[trigger] obj@[i])
    }

    open spec fn wire(obj: Vec<T>) -> Seq<u8> {
        len_prefix(obj@.len()) + wire_items::<UT, T>(obj@)
    }

    open spec fn parse(bytes: Seq<u8>) -> FFIResult<(Seq<T::V>, nat)> {
        match parse_len(bytes) {
            Ok(count) => match parse_items::<UT, T>(bytes.skip(4), count) {
                Ok((ms, n)) => Ok((ms, n + 4)),
                Err(e) => Err(e),
            },
            Err(e) => Err(e),
        }
    }

    open spec fn lower_view(obj: Vec<T>) -> Seq<u8> {
        Self::wire(obj)
    }

    open spec fn lift_view(v: Seq<u8>) -> FFIResult<Seq<T::V>> {
        parse_whole(Self::parse(v), v.len())
    }

    open spec fn fingerprint() -> Seq<u8> {
        seq![metadata::codes::TYPE_VEC] + T::fingerprint()
    }

    fn lower(obj: Vec<T>) -> (r: FFIBuffer) {
        let mut buf: Vec<u8> = Vec::new();
        <Vec<T> as FFIConverter<UT>>::write(obj, &mut buf);
        assert(buf@ =~= <Vec<T> as FFIConverter<UT>>::wire(obj));
        FFIBuffer::from_vec(buf)
    }

    fn write(obj: Vec<T>, buf: &mut Vec<u8>) {
        let ghost items = obj@;
        let len = obj.len();
        proof {
            lemma_pow256_values();
        }
        put_be(buf, len as u64, 4);
        // Move the items out back to front, then write them front to back.
        let mut rest = obj;
        let mut reversed: Vec<T> = Vec::new();
        while rest.len() > 0
            invariant
                rest@.len() + reversed@.len() == items.len(),
                forall|i: int| 0 <= i < rest@.len() ==> rest@[i] == items[i],
                forall|i: int| 0 <= i < reversed@.len() ==> reversed@[i] == items[items.len() - 1 - i],
            decreases rest@.len(),
        {
            let x = rest.pop().unwrap();
            reversed.push(x);
        }
        let ghost start = buf@;
        let mut done: usize = 0;
        while reversed.len() > 0
            invariant
                done + reversed@.len() == items.len(),
                items.len() <= i32::MAX,
                forall|i: int| 0 <= i < reversed@.len() ==> reversed@[i] == items[items.len() - 1 - i],
                forall|i: int| 0 <= i < items.len() ==> T::encodable(#[trigger] items[i]),
                buf@ == start + wire_items::<UT, T>(items.take(done as int)),
            decreases reversed@.len(),
        {
            let x = reversed.pop().unwrap();
            proof {
                assert(x == items[done as int]);
                lemma_wire_items_push::<UT, T>(items.take(done as int), x);
                assert(items.take(done as int).push(x) =~= items.take(done + 1));
            }
            T::write(x, buf);
            done = done + 1;
        }
        assert(items.take(done as int) =~= items);
        assert(final(buf)@ =~= old(buf)@ + <Vec<T> as FFIConverter<UT>>::wire(obj));
    }

    fn try_lift(v: FFIBuffer) -> (r: FFIResult<Vec<T>>) {
        let vec = v.destroy_into_vec();
        let mut buf = vec.as_slice();
        let value = <Vec<T> as FFIConverter<UT>>::try_read(&mut buf)?;
        proof {
            <Vec<T> as FFIConverter<UT>>::lemma_parse_len(vec@);
        }
        if buf.len() == 0 {
            Ok(value)
        } else {
            Err(DecodeError::TrailingData)
        }
    }

    fn try_read(buf: &mut &[u8]) -> (r: FFIResult<Vec<T>>) {
        let len = read_len(buf)?;
        let ghost start = (*buf)@;
        let mut vec: Vec<T> = Vec::new();
        let mut i: usize = 0;
        let ghost consumed: nat = 0;
        while i < len
            invariant
                i <= len,
                parse_len(old(buf)@) == Ok::<nat, DecodeError>(len as nat),
                start == old(buf)@.skip(4),
                (*buf)@ == start.skip(consumed as int),
                consumed <= start.len(),
                vec@.len() == i,
                parse_items::<UT, T>(start, len as nat) == prepend_items(
                    Seq::new(vec@.len(), |j: int| vec@[j].deep_view()),
                    consumed,
                    parse_items::<UT, T>((*buf)@, (len - i) as nat),
                ),
            decreases len - i,
        {
            let ghost before = (*buf)@;
            proof {
                T::lemma_parse_len(before);
            }
            let x = match T::try_read(buf) {
                Ok(x) => x,
                Err(e) => {
                    assert(parse_items::<UT, T>(before, (len - i) as nat) == Err::<(Seq<T::V>, nat), DecodeError>(e));
                    return Err(e);
                },
            };
            let ghost prev = Seq::new(vec@.len(), |j: int| vec@[j].deep_view());
            proof {
                let n = T::parse(before)->Ok_0.1;
                lemma_parse_items_step::<UT, T>(before, (len - i) as nat, x.deep_view(), n);
                lemma_prepend_push(prev, consumed, x.deep_view(), n, parse_items::<UT, T>(before.skip(n as int), (len - i - 1) as nat));
                assert((*buf)@ =~= start.skip((consumed + n) as int));
                consumed = consumed + n;
            }
            vec.push(x);
            i = i + 1;
            assert(Seq::new(vec@.len(), |j: int| vec@[j].deep_view()) =~= prev.push(x.deep_view()));
        }
        assert(Seq::new(vec@.len(), |j: int| vec@[j].deep_view()) =~= vec.deep_view());
        proof {
            lemma_parse_items_len::<UT, T>(start, len as nat);
        }
        assert((*buf)@ =~= old(buf)@.skip((consumed + 4) as int));
        Ok(vec)
    }

    fn type_id_meta() -> (r: MetadataBuffer) {
        MetadataBuffer::from_code(metadata::codes::TYPE_VEC).concat(T::type_id_meta())
    }

    proof fn lemma_parse_len(bytes: Seq<u8>) {
        if let Ok(count) = parse_len(bytes) {
            lemma_parse_items_len::<UT, T>(bytes.skip(4), count);
        }
    }

    proof fn lemma_parse_wire(obj: Vec<T>, rest: Seq<u8>) {
        let items = wire_items::<UT, T>(obj@);
        lemma_len_prefix(obj@.len(), items + rest);
        let all = Self::wire(obj) + rest;
        assert(all =~= len_prefix(obj@.len()) + (items + rest));
        lemma_parse_items_wire::<UT, T>(obj@, rest);
        assert(Seq::new(obj@.len(), |i: int| obj@[i].deep_view()) =~= obj.deep_view());
    }

    proof fn lemma_lift_lower(obj: Vec<T>) {
        Self::lemma_parse_wire(obj, seq![]);
        assert(Self::wire(obj) + seq![] =~= Self::wire(obj));
    }
}

} // verus!
