use vstd::prelude::*;
use crate::{DecodeError, FFIResult};
use crate::converter_traits::{FFIConverter, Lift, Lower, TypeId, parse_whole};
use crate::metadata::{checksum_of, MetadataBuffer};

verus! {

/// Lowering a value and lifting the result gives back the value; reading
/// back what `write` appended, whatever follows it, gives back the value and
/// stops where its encoding ends.
pub proof fn lemma_round_trip<UT, T: FFIConverter<UT>>(obj: T, rest: Seq<u8>)
    requires
        <T as Lower<UT>>::encodable(obj),
    ensures
        <T as Lift<UT>>::lift_view(<T as Lower<UT>>::lower_view(obj)) == Ok::<T::V, DecodeError>(obj.deep_view()),
        <T as Lift<UT>>::parse(<T as Lower<UT>>::wire(obj) + rest) == Ok::<(T::V, nat), DecodeError>(
            (obj.deep_view(), <T as Lower<UT>>::wire(obj).len()),
        ),
{
    T::lemma_lift_lower(obj);
    T::lemma_parse_wire(obj, rest);
}

/// A self-contained encoding with one more byte after it fails to lift,
/// with `TrailingData`.
pub proof fn lemma_trailing_data<UT, T: FFIConverter<UT>>(obj: T, extra: u8)
    requires
        <T as Lower<UT>>::encodable(obj),
    ensures
        parse_whole(
            <T as Lift<UT>>::parse(<T as Lower<UT>>::wire(obj).push(extra)),
            <T as Lower<UT>>::wire(obj).len() + 1,
        ) == Err::<T::V, DecodeError>(DecodeError::TrailingData),
{
    T::lemma_parse_wire(obj, seq![extra]);
    assert(T::wire(obj) + seq![extra] =~= T::wire(obj).push(extra));
}

/// A lowered optional, list or string buffer with one more byte after it
/// fails to lift, with `TrailingData`.
pub proof fn lemma_trailing_data_list<UT, T: FFIConverter<UT>>(obj: Vec<T>, extra: u8)
    requires
        <Vec<T> as Lower<UT>>::encodable(obj),
    ensures
        <Vec<T> as Lift<UT>>::lift_view(<Vec<T> as Lower<UT>>::lower_view(obj).push(extra))
            == Err::<Seq<T::V>, DecodeError>(DecodeError::TrailingData),
{
    lemma_trailing_data::<UT, Vec<T>>(obj, extra);
}

/// The same, for an optional value.
pub proof fn lemma_trailing_data_option<UT, T: FFIConverter<UT>>(obj: Option<T>, extra: u8)
    requires
        <Option<T> as Lower<UT>>::encodable(obj),
    ensures
        <Option<T> as Lift<UT>>::lift_view(<Option<T> as Lower<UT>>::lower_view(obj).push(extra))
            == Err::<Option<T::V>, DecodeError>(DecodeError::TrailingData),
{
    lemma_trailing_data::<UT, Option<T>>(obj, extra);
}

/// Reading a 4-byte integer from fewer than 4 bytes fails with
/// `InsufficientData`.
pub proof fn lemma_insufficient_data<UT>(bytes: Seq<u8>)
    requires
        bytes.len() < 4,
    ensures
        <u32 as Lift<UT>>::parse(bytes) == Err::<(u32, nat), DecodeError>(DecodeError::InsufficientData),
        <i32 as Lift<UT>>::parse(bytes) == Err::<(i32, nat), DecodeError>(DecodeError::InsufficientData),
{
}

/// An optional value whose presence byte is neither 0 nor 1 fails to decode,
/// with `InvalidEncoding`.
pub proof fn lemma_option_invalid_tag<UT, T: FFIConverter<UT>>(bytes: Seq<u8>)
    requires
        bytes.len() >= 1,
        bytes[0] != 0,
        bytes[0] != 1,
    ensures
        <Option<T> as Lift<UT>>::parse(bytes) == Err::<(Option<T::V>, nat), DecodeError>(DecodeError::InvalidEncoding),
        <Option<T> as Lift<UT>>::lift_view(bytes) == Err::<Option<T::V>, DecodeError>(DecodeError::InvalidEncoding),
{
}

/// Two fingerprints built for the same type hold the same bytes and have the
/// same checksum.
pub proof fn lemma_fingerprint_deterministic<UT, T: TypeId<UT>>(a: MetadataBuffer, b: MetadataBuffer)
    requires
        call_ensures(T::type_id_meta, (), a),
        call_ensures(T::type_id_meta, (), b),
    ensures
        a.view() == b.view(),
        checksum_of(a.view()) == checksum_of(b.view()),
{
}

/// A list of `u8` and a list of `i8` have different fingerprints.
pub proof fn lemma_list_fingerprints_differ<UT>()
    ensures
        <Vec<u8> as TypeId<UT>>::fingerprint() != <Vec<i8> as TypeId<UT>>::fingerprint(),
{
    assert(<Vec<u8> as TypeId<UT>>::fingerprint()[1] == 0);
    assert(<Vec<i8> as TypeId<UT>>::fingerprint()[1] == 4);
}

} // verus!
