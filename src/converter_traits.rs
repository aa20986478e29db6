use vstd::prelude::*;
use crate::{DecodeError, FFIResult};
use crate::ffi::buffer::FFIBuffer;
use crate::ffi::default::FFIDefault;
use crate::metadata::{MetadataBuffer, BUF_SIZE};

verus! {

/// `r` is what a decoder owes when the wire format decides `s`: the value
/// whose model is `m` for `Ok(m)`, the same error otherwise.
pub open spec fn decoded_as<T: DeepView>(r: FFIResult<T>, s: FFIResult<T::V>) -> bool {
    match s {
        Ok(m) => r matches Ok(x) && x.deep_view() == m,
        Err(e) => r == Err::<T, DecodeError>(e),
    }
}

/// The decoded model alone, without the count of bytes taken up.
pub open spec fn model_of<V>(p: FFIResult<(V, nat)>) -> FFIResult<V> {
    match p {
        Ok((m, _)) => Ok(m),
        Err(e) => Err(e),
    }
}

/// How a self-contained byte sequence decodes: the value that `parse` finds,
/// provided that it takes up every byte.
pub open spec fn parse_whole<V>(p: FFIResult<(V, nat)>, len: nat) -> FFIResult<V> {
    match p {
        Ok((m, n)) => if n == len {
            Ok(m)
        } else {
            Err(DecodeError::TrailingData)
        },
        Err(e) => Err(e),
    }
}

/// The wire codec of a type: how it is encoded, decoded and fingerprinted.
///
/// Values are described by their deep view: decoding gives back a value with
/// the same deep view as the one encoded.
pub trait FFIConverter<UT>: Sized + DeepView {
    /// What `lower` hands across the boundary: the value itself for a scalar,
    /// a buffer of bytes otherwise.
    type FFIType: FFIDefault + View;

    /// Whether `obj` can be encoded: every length in it fits the signed
    /// 32-bit prefix.
    spec fn encodable(obj: Self) -> bool;

    /// The bytes that `write` appends for `obj`.
    spec fn wire(obj: Self) -> Seq<u8>;

    /// What decoding makes of the front of `bytes`: the value's model and the
    /// number of bytes it takes up, or the error.
    spec fn parse(bytes: Seq<u8>) -> FFIResult<(Self::V, nat)>;

    /// The view of what `lower` returns for `obj`.
    spec fn lower_view(obj: Self) -> <Self::FFIType as View>::V;

    /// What `try_lift` makes of a lowered value with view `v`.
    spec fn lift_view(v: <Self::FFIType as View>::V) -> FFIResult<Self::V>;

    /// The fingerprint bytes of the type.
    spec fn fingerprint() -> Seq<u8>;

    /// The value to hand across the boundary for `obj`.
    fn lower(obj: Self) -> (r: Self::FFIType)
        requires
            Self::encodable(obj),
        ensures
            r@ == Self::lower_view(obj),
    ;

    /// Appends the encoding of `obj` to `buf`.
    fn write(obj: Self, buf: &mut Vec<u8>)
        requires
            Self::encodable(obj),
        ensures
            final(buf)@ == old(buf)@ + Self::wire(obj),
    ;

    /// Rebuilds a value from what crossed the boundary.
    fn try_lift(v: Self::FFIType) -> (r: FFIResult<Self>)
        ensures
            decoded_as(r, Self::lift_view(v@)),
    ;

    /// Decodes one value from the front of the cursor and moves the cursor
    /// past its encoding.
    fn try_read(buf: &mut &[u8]) -> (r: FFIResult<Self>)
        ensures
            decoded_as(r, model_of(Self::parse(old(buf)@))),
            Self::parse(old(buf)@) matches Ok((_, n)) ==> final(buf)@ == old(buf)@.skip(n as int),
    ;

    /// The fingerprint of the type, in a buffer.
    fn type_id_meta() -> (r: MetadataBuffer)
        requires
            Self::fingerprint().len() <= BUF_SIZE,
        ensures
            r.wf(),
            r.view() == Self::fingerprint(),
    ;

    /// Decoding never claims more bytes than it was given.
    proof fn lemma_parse_len(bytes: Seq<u8>)
        ensures
            Self::parse(bytes) matches Ok((_, n)) ==> n <= bytes.len(),
    ;

    /// Decoding the encoding of `obj`, followed by anything, gives back
    /// `obj` and stops where its encoding ends.
    proof fn lemma_parse_wire(obj: Self, rest: Seq<u8>)
        requires
            Self::encodable(obj),
        ensures
            Self::parse(Self::wire(obj) + rest) == Ok::<(Self::V, nat), DecodeError>(
                (obj.deep_view(), Self::wire(obj).len()),
            ),
    ;

    /// Lifting what `obj` lowers to gives back `obj`.
    proof fn lemma_lift_lower(obj: Self)
        requires
            Self::encodable(obj),
        ensures
            Self::lift_view(Self::lower_view(obj)) == Ok::<Self::V, DecodeError>(obj.deep_view()),
    ;
}

/// Encodes `obj` into a fresh buffer.
pub fn lower_into_buffer<UT, T: FFIConverter<UT>>(obj: T) -> (r: FFIBuffer)
    requires
        T::encodable(obj),
    ensures
        r@ == T::wire(obj),
{
    let mut buf: Vec<u8> = Vec::new();
    T::write(obj, &mut buf);
    assert(buf@ =~= T::wire(obj));
    FFIBuffer::from_vec(buf)
}

/// Decodes a value that must take up the whole of `v`.
pub fn try_lift_from_buffer<UT, T: FFIConverter<UT>>(v: FFIBuffer) -> (r: FFIResult<T>)
    ensures
        decoded_as(r, parse_whole(T::parse(v@), v@.len())),
{
    let vec = v.destroy_into_vec();
    let mut buf = vec.as_slice();
    let value = T::try_read(&mut buf);
    match value {
        Ok(x) => {
            proof {
                T::lemma_parse_len(vec@);
            }
            if buf.len() == 0 {
                Ok(x)
            } else {
                Err(DecodeError::TrailingData)
            }
        },
        Err(e) => Err(e),
    }
}

/// Encoding half of the wire codec.
pub trait Lower<UT>: Sized {
    type FFIType: FFIDefault + View;

    /// Whether `obj` can be encoded.
    spec fn encodable(obj: Self) -> bool;

    /// The bytes that `write` appends for `obj`.
    spec fn wire(obj: Self) -> Seq<u8>;

    /// The view of what `lower` returns for `obj`.
    spec fn lower_view(obj: Self) -> <Self::FFIType as View>::V;

    /// The value to hand across the boundary for `obj`.
    fn lower(obj: Self) -> (r: Self::FFIType)
        requires
            Self::encodable(obj),
        ensures
            r@ == Self::lower_view(obj),
    ;

    /// Appends the encoding of `obj` to `buf`.
    fn write(obj: Self, buf: &mut Vec<u8>)
        requires
            Self::encodable(obj),
        ensures
            final(buf)@ == old(buf)@ + Self::wire(obj),
    ;

    /// Encodes `obj` into a fresh buffer.
    fn lower_into_buffer(obj: Self) -> (r: FFIBuffer)
        requires
            Self::encodable(obj),
        ensures
            r@ == Self::wire(obj),
    ;
}

/// Decoding half of the wire codec.
pub trait Lift<UT>: Sized + DeepView {
    type FFIType: View;

    /// What decoding makes of the front of `bytes`.
    spec fn parse(bytes: Seq<u8>) -> FFIResult<(Self::V, nat)>;

    /// What `try_lift` makes of a lowered value with view `v`.
    spec fn lift_view(v: <Self::FFIType as View>::V) -> FFIResult<Self::V>;

    /// Rebuilds a value from what crossed the boundary.
    fn try_lift(v: Self::FFIType) -> (r: FFIResult<Self>)
        ensures
            decoded_as(r, Self::lift_view(v@)),
    ;

    /// Decodes one value from the front of the cursor and moves the cursor
    /// past its encoding.
    fn try_read(buf: &mut &[u8]) -> (r: FFIResult<Self>)
        ensures
            decoded_as(r, model_of(Self::parse(old(buf)@))),
            Self::parse(old(buf)@) matches Ok((_, n)) ==> final(buf)@ == old(buf)@.skip(n as int),
    ;

    /// Decodes a value that must take up the whole of `v`; leftover bytes
    /// are `TrailingData`.
    fn try_lift_from_buffer(v: FFIBuffer) -> (r: FFIResult<Self>)
        ensures
            decoded_as(r, parse_whole(Self::parse(v@), v@.len())),
    ;
}

/// The fingerprint of a type.
pub trait TypeId<UT> {
    /// The fingerprint bytes of the type.
    spec fn fingerprint() -> Seq<u8>;

    /// The fingerprint of the type, in a buffer.
    fn type_id_meta() -> (r: MetadataBuffer)
        requires
            Self::fingerprint().len() <= BUF_SIZE,
        ensures
            r.wf(),
            r.view() == Self::fingerprint(),
    ;
}

impl<UT, T: FFIConverter<UT>> Lower<UT> for T {
    type FFIType = <T as FFIConverter<UT>>::FFIType;

    open spec fn encodable(obj: T) -> bool {
        <T as FFIConverter<UT>>::encodable(obj)
    }

    open spec fn wire(obj: T) -> Seq<u8> {
        <T as FFIConverter<UT>>::wire(obj)
    }

    open spec fn lower_view(obj: T) -> <<T as FFIConverter<UT>>::FFIType as View>::V {
        <T as FFIConverter<UT>>::lower_view(obj)
    }

    fn lower(obj: T) -> (r: <T as FFIConverter<UT>>::FFIType) {
        <T as FFIConverter<UT>>::lower(obj)
    }

    fn write(obj: T, buf: &mut Vec<u8>) {
        <T as FFIConverter<UT>>::write(obj, buf)
    }

    fn lower_into_buffer(obj: T) -> (r: FFIBuffer) {
        lower_into_buffer::<UT, T>(obj)
    }
}

impl<UT, T: FFIConverter<UT>> Lift<UT> for T {
    type FFIType = <T as FFIConverter<UT>>::FFIType;

    open spec fn parse(bytes: Seq<u8>) -> FFIResult<(T::V, nat)> {
        <T as FFIConverter<UT>>::parse(bytes)
    }

    open spec fn lift_view(v: <<T as FFIConverter<UT>>::FFIType as View>::V) -> FFIResult<T::V> {
        <T as FFIConverter<UT>>::lift_view(v)
    }

    fn try_lift(v: <T as FFIConverter<UT>>::FFIType) -> (r: FFIResult<T>) {
        <T as FFIConverter<UT>>::try_lift(v)
    }

    fn try_read(buf: &mut &[u8]) -> (r: FFIResult<T>) {
        <T as FFIConverter<UT>>::try_read(buf)
    }

    fn try_lift_from_buffer(v: FFIBuffer) -> (r: FFIResult<T>) {
        try_lift_from_buffer::<UT, T>(v)
    }
}

impl<UT, T: FFIConverter<UT>> TypeId<UT> for T {
    open spec fn fingerprint() -> Seq<u8> {
        <T as FFIConverter<UT>>::fingerprint()
    }

    fn type_id_meta() -> (r: MetadataBuffer) {
        <T as FFIConverter<UT>>::type_id_meta()
    }
}

} // verus!
