use vstd::prelude::*;
use crate::{DecodeError, FFIResult};
use crate::converter_impls::{len_prefix, lemma_len_prefix, lemma_prepend_push, parse_len, prepend_items, read_len};
use crate::converter_traits::{decoded_as, model_of, parse_whole, FFIConverter};
use crate::ffi::buffer::FFIBuffer;
use crate::metadata;
use crate::metadata::{MetadataBuffer, BUF_SIZE};
use crate::wire::{lemma_pow256_values, put_be};

verus! {

/// The encodings of the entries of `s`, in order: for each, its key's
/// encoding and then its value's.
pub open spec fn wire_entries<UT, K: FFIConverter<UT>, V: FFIConverter<UT>>(s: Seq<(K, V)>) -> Seq<u8>
    decreases s.len(),
{
    if s.len() == 0 {
        seq![]
    } else {
        K::wire(s[0].0) + V::wire(s[0].1) + wire_entries::<UT, K, V>(s.skip(1))
    }
}

/// The encoding of a map whose entries, in the order they are written, are
/// `s`: a 4-byte count, then the entries.
pub open spec fn wire_map<UT, K: FFIConverter<UT>, V: FFIConverter<UT>>(s: Seq<(K, V)>) -> Seq<u8> {
    len_prefix(s.len()) + wire_entries::<UT, K, V>(s)
}

/// Whether every entry of `s` can be encoded, and their number fits the
/// prefix.
pub open spec fn entries_encodable<UT, K: FFIConverter<UT>, V: FFIConverter<UT>>(s: Seq<(K, V)>) -> bool {
    &&& s.len() <= i32::MAX
    &&& forall|i: int| 0 <= i < s.len() ==> K::encodable(#[trigger] s[i].0) && V::encodable(s[i].1)
}

/// The models of the keys and values of `s`, in order.
pub open spec fn entries_model<K: DeepView, V: DeepView>(s: Seq<(K, V)>) -> Seq<(K::V, V::V)> {
    Seq::new(s.len(), |i: int| (s[i].0.deep_view(), s[i].1.deep_view()))
}

/// What decoding `count` entries from the front of `bytes` gives.
pub open spec fn parse_entries<UT, K: FFIConverter<UT>, V: FFIConverter<UT>>(bytes: Seq<u8>, count: nat) -> FFIResult<
    (Seq<(K::V, V::V)>, nat),
>
    decreases count,
{
    if count == 0 {
        Ok((seq![], 0))
    } else {
        match K::parse(bytes) {
            Ok((k, n1)) => match V::parse(bytes.skip(n1 as int)) {
                Ok((v, n2)) => match parse_entries::<UT, K, V>(bytes.skip((n1 + n2) as int), (count - 1) as nat) {
                    Ok((es, n3)) => Ok((seq![(k, v)] + es, n1 + n2 + n3)),
                    Err(e) => Err(e),
                },
                Err(e) => Err(e),
            },
            Err(e) => Err(e),
        }
    }
}

/// What decoding a map's encoding from the front of `bytes` gives: its
/// entries in the order written, and the bytes they take up.
pub open spec fn parse_map<UT, K: FFIConverter<UT>, V: FFIConverter<UT>>(bytes: Seq<u8>) -> FFIResult<
    (Seq<(K::V, V::V)>, nat),
> {
    match parse_len(bytes) {
        Ok(count) => match parse_entries::<UT, K, V>(bytes.skip(4), count) {
            Ok((es, n)) => Ok((es, n + 4)),
            Err(e) => Err(e),
        },
        Err(e) => Err(e),
    }
}

/// The map that entries give when inserted in order: a later entry replaces
/// an earlier one with the same key.
pub open spec fn entries_to_map<A, B>(s: Seq<(A, B)>) -> Map<A, B>
    decreases s.len(),
{
    if s.len() == 0 {
        Map::empty()
    } else {
        entries_to_map(s.drop_last()).insert(s.last().0, s.last().1)
    }
}

proof fn lemma_wire_entries_push<UT, K: FFIConverter<UT>, V: FFIConverter<UT>>(s: Seq<(K, V)>, x: (K, V))
    ensures
        wire_entries::<UT, K, V>(s.push(x)) == wire_entries::<UT, K, V>(s) + K::wire(x.0) + V::wire(x.1),
    decreases s.len(),
{
    if s.len() == 0 {
        assert(s.push(x).skip(1) =~= seq![]);
        assert(s.push(x)[0] == x);
        assert(wire_entries::<UT, K, V>(s.push(x).skip(1)) == Seq::<u8>::empty());
        assert(wire_entries::<UT, K, V>(s.push(x)) =~= K::wire(x.0) + V::wire(x.1));
    } else {
        assert(s.push(x).skip(1) =~= s.skip(1).push(x));
        lemma_wire_entries_push::<UT, K, V>(s.skip(1), x);
        assert(wire_entries::<UT, K, V>(s.push(x)) =~= wire_entries::<UT, K, V>(s) + K::wire(x.0) + V::wire(x.1));
    }
}

proof fn lemma_parse_entries_len<UT, K: FFIConverter<UT>, V: FFIConverter<UT>>(bytes: Seq<u8>, count: nat)
    ensures
        parse_entries::<UT, K, V>(bytes, count) matches Ok((es, n)) ==> n <= bytes.len() && es.len() == count,
    decreases count,
{
    if count > 0 {
        K::lemma_parse_len(bytes);
        if let Ok((k, n1)) = K::parse(bytes) {
            V::lemma_parse_len(bytes.skip(n1 as int));
            if let Ok((v, n2)) = V::parse(bytes.skip(n1 as int)) {
                lemma_parse_entries_len::<UT, K, V>(bytes.skip((n1 + n2) as int), (count - 1) as nat);
            }
        }
    }
}

proof fn lemma_parse_entries_wire<UT, K: FFIConverter<UT>, V: FFIConverter<UT>>(s: Seq<(K, V)>, rest: Seq<u8>)
    requires
        entries_encodable::<UT, K, V>(s),
    ensures
        parse_entries::<UT, K, V>(wire_entries::<UT, K, V>(s) + rest, s.len()) == Ok::<(Seq<(K::V, V::V)>, nat), DecodeError>(
            (entries_model(s), wire_entries::<UT, K, V>(s).len()),
        ),
    decreases s.len(),
{
    if s.len() == 0 {
        assert(entries_model(s) =~= Seq::<(K::V, V::V)>::empty());
    } else {
        let tail = s.skip(1);
        assert forall|i: int| 0 <= i < tail.len() implies K::encodable(#[trigger] tail[i].0) && V::encodable(tail[i].1) by {
            assert(tail[i] == s[i + 1]);
        }
        assert(s[0] == s[0]);
        let wk = K::wire(s[0].0);
        let wv = V::wire(s[0].1);
        let wt = wire_entries::<UT, K, V>(tail);
        let all = wire_entries::<UT, K, V>(s) + rest;
        assert(all =~= wk + (wv + (wt + rest)));
        K::lemma_parse_wire(s[0].0, wv + (wt + rest));
        assert(all.skip(wk.len() as int) =~= wv + (wt + rest));
        V::lemma_parse_wire(s[0].1, wt + rest);
        assert(all.skip((wk.len() + wv.len()) as int) =~= wt + rest);
        lemma_parse_entries_wire::<UT, K, V>(tail, rest);
        assert(seq![(s[0].0.deep_view(), s[0].1.deep_view())] + entries_model(tail) =~= entries_model(s));
    }
}

proof fn lemma_parse_entries_step<UT, K: FFIConverter<UT>, V: FFIConverter<UT>>(
    bytes: Seq<u8>,
    count: nat,
    k: K::V,
    n1: nat,
    v: V::V,
    n2: nat,
)
    requires
        count > 0,
        K::parse(bytes) == Ok::<(K::V, nat), DecodeError>((k, n1)),
        V::parse(bytes.skip(n1 as int)) == Ok::<(V::V, nat), DecodeError>((v, n2)),
    ensures
        parse_entries::<UT, K, V>(bytes, count) == prepend_items(
            seq![(k, v)],
            n1 + n2,
            parse_entries::<UT, K, V>(bytes.skip((n1 + n2) as int), (count - 1) as nat),
        ),
{
}

/// Decoding the encoding of a map's entries, followed by anything, gives
/// back the entries and stops where the encoding ends.
pub proof fn lemma_map_round_trip<UT, K: FFIConverter<UT>, V: FFIConverter<UT>>(s: Seq<(K, V)>, rest: Seq<u8>)
    requires
        entries_encodable::<UT, K, V>(s),
    ensures
        parse_map::<UT, K, V>(wire_map::<UT, K, V>(s) + rest) == Ok::<(Seq<(K::V, V::V)>, nat), DecodeError>(
            (entries_model(s), wire_map::<UT, K, V>(s).len()),
        ),
{
    let items = wire_entries::<UT, K, V>(s);
    lemma_len_prefix(s.len(), items + rest);
    assert(wire_map::<UT, K, V>(s) + rest =~= len_prefix(s.len()) + (items + rest));
    lemma_parse_entries_wire::<UT, K, V>(s, rest);
}

/// Entries with distinct keys, inserted in any order, give the map whose
/// entries they are.
pub proof fn lemma_entries_to_map<A, B>(s: Seq<(A, B)>, m: Map<A, B>)
    requires
        forall|i: int, j: int| 0 <= i < j < s.len() ==> s[i].0 != s[j].0,
        forall|i: int| 0 <= i < s.len() ==> m.contains_key(#[trigger] s[i].0) && m[s[i].0] == s[i].1,
        m.dom().finite(),
        m.dom().len() == s.len(),
    ensures
        entries_to_map(s) == m,
    decreases s.len(),
{
    if s.len() == 0 {
        assert(m.dom() =~= Set::empty()) by {
            if exists|k: A| m.dom().contains(k) {
                let k = choose|k: A| m.dom().contains(k);
                vstd::set_lib::lemma_set_empty_equivalency_len(m.dom());
            }
        }
        assert(m =~= Map::empty());
    } else {
        let last = s.last();
        let m2 = m.remove(last.0);
        let s2 = s.drop_last();
        assert forall|i: int| 0 <= i < s2.len() implies m2.contains_key(#[trigger] s2[i].0) && m2[s2[i].0] == s2[i].1 by {
            assert(s2[i] == s[i]);
            assert(s[i].0 != s[s.len() - 1].0);
        }
        assert(m.contains_key(s[s.len() - 1].0));
        lemma_entries_to_map::<A, B>(s2, m2);
        assert(entries_to_map(s) =~= m);
    }
}

/// Appends a map's encoding, given its entries in the order they are to be
/// written: a 4-byte count, then each key and value.
pub fn write_map_entries<UT, K: FFIConverter<UT>, V: FFIConverter<UT>>(entries: Vec<(K, V)>, buf: &mut Vec<u8>)
    requires
        entries_encodable::<UT, K, V>(entries@),
    ensures
        final(buf)@ == old(buf)@ + wire_map::<UT, K, V>(entries@),
{
    let ghost items = entries@;
    let len = entries.len();
    proof {
        lemma_pow256_values();
    }
    put_be(buf, len as u64, 4);
    let mut rest = entries;
    let mut reversed: Vec<(K, V)> = Vec::new();
    while rest.len() > 0
        invariant
            rest@.len() + reversed@.len() == items.len(),
            forall|i: int| 0 <= i < rest@.len() ==> rest@[i] == items[i],
            forall|i: int| 0 <= i < reversed@.len() ==> reversed@[i] == items[items.len() - 1 - i],
        decreases rest@.len(),
    {
        let x = rest.pop().unwrap();
        reversed.push(x);
    }
    let ghost start = buf@;
    let mut done: usize = 0;
    while reversed.len() > 0
        invariant
            done + reversed@.len() == items.len(),
            items.len() <= i32::MAX,
            forall|i: int| 0 <= i < reversed@.len() ==> reversed@[i] == items[items.len() - 1 - i],
            entries_encodable::<UT, K, V>(items),
            buf@ == start + wire_entries::<UT, K, V>(items.take(done as int)),
        decreases reversed@.len(),
    {
        let x = reversed.pop().unwrap();
        proof {
            assert(x == items[done as int]);
            lemma_wire_entries_push::<UT, K, V>(items.take(done as int), x);
            assert(items.take(done as int).push(x) =~= items.take(done + 1));
        }
        let (k, v) = x;
        K::write(k, buf);
        V::write(v, buf);
        done = done + 1;
    }
    assert(items.take(done as int) =~= items);
    assert(final(buf)@ =~= old(buf)@ + wire_map::<UT, K, V>(items));
}

/// Reads a map's encoding from the front of the cursor, giving its entries
/// in the order they were written, and moves the cursor past it.
pub fn try_read_map_entries<UT, K: FFIConverter<UT>, V: FFIConverter<UT>>(buf: &mut &[u8]) -> (r: FFIResult<Vec<(K, V)>>)
    ensures
        decoded_as(r, model_of(parse_map::<UT, K, V>(old(buf)@))),
        parse_map::<UT, K, V>(old(buf)@) matches Ok((_, n)) ==> final(buf)@ == old(buf)@.skip(n as int),
{
    let len = read_len(buf)?;
    let ghost start = (*buf)@;
    let mut vec: Vec<(K, V)> = Vec::new();
    let mut i: usize = 0;
    let ghost consumed: nat = 0;
    while i < len
        invariant
            i <= len,
            parse_len(old(buf)@) == Ok::<nat, DecodeError>(len as nat),
            start == old(buf)@.skip(4),
            (*buf)@ == start.skip(consumed as int),
            consumed <= start.len(),
            vec@.len() == i,
            parse_entries::<UT, K, V>(start, len as nat) == prepend_items(
                entries_model(vec@),
                consumed,
                parse_entries::<UT, K, V>((*buf)@, (len - i) as nat),
            ),
        decreases len - i,
    {
        let ghost before = (*buf)@;
        proof {
            K::lemma_parse_len(before);
        }
        let k = match K::try_read(buf) {
            Ok(k) => k,
            Err(e) => {
                assert(parse_entries::<UT, K, V>(before, (len - i) as nat) == Err::<(Seq<(K::V, V::V)>, nat), DecodeError>(e));
                return Err(e);
            },
        };
        let ghost mid = (*buf)@;
        let ghost n1 = K::parse(before)->Ok_0.1;
        proof {
            V::lemma_parse_len(mid);
        }
        let v = match V::try_read(buf) {
            Ok(v) => v,
            Err(e) => {
                assert(mid == before.skip(n1 as int));
                assert(parse_entries::<UT, K, V>(before, (len - i) as nat) == Err::<(Seq<(K::V, V::V)>, nat), DecodeError>(e));
                return Err(e);
            },
        };
        let ghost prev = entries_model(vec@);
        proof {
            let n2 = V::parse(mid)->Ok_0.1;
            assert(before.skip(n1 as int).skip(n2 as int) =~= before.skip((n1 + n2) as int));
            lemma_parse_entries_step::<UT, K, V>(before, (len - i) as nat, k.deep_view(), n1, v.deep_view(), n2);
            lemma_prepend_push(
                prev,
                consumed,
                (k.deep_view(), v.deep_view()),
                n1 + n2,
                parse_entries::<UT, K, V>(before.skip((n1 + n2) as int), (len - i - 1) as nat),
            );
            assert((*buf)@ =~= start.skip((consumed + n1 + n2) as int));
            consumed = consumed + n1 + n2;
        }
        vec.push((k, v));
        i = i + 1;
        assert(entries_model(vec@) =~= prev.push((k.deep_view(), v.deep_view())));
    }
    proof {
        lemma_parse_entries_len::<UT, K, V>(start, len as nat);
    }
    assert((*buf)@ =~= old(buf)@.skip((consumed + 4) as int));
    assert(entries_model(vec@) =~= vec.deep_view());
    Ok(vec)
}

/// Encodes a map, given its entries in the order they are to be written,
/// into a fresh buffer.
pub fn lower_map_entries<UT, K: FFIConverter<UT>, V: FFIConverter<UT>>(entries: Vec<(K, V)>) -> (r: FFIBuffer)
    requires
        entries_encodable::<UT, K, V>(entries@),
    ensures
        r@ == wire_map::<UT, K, V>(entries@),
{
    let mut buf: Vec<u8> = Vec::new();
    write_map_entries::<UT, K, V>(entries, &mut buf);
    assert(buf@ =~= wire_map::<UT, K, V>(entries@));
    FFIBuffer::from_vec(buf)
}

/// Decodes a map's entries from a buffer that its encoding must take up
/// whole; leftover bytes are `TrailingData`.
pub fn try_lift_map_entries<UT, K: FFIConverter<UT>, V: FFIConverter<UT>>(v: FFIBuffer) -> (r: FFIResult<Vec<(K, V)>>)
    ensures
        decoded_as(r, parse_whole(parse_map::<UT, K, V>(v@), v@.len())),
{
    let vec = v.destroy_into_vec();
    let mut buf = vec.as_slice();
    let value = try_read_map_entries::<UT, K, V>(&mut buf)?;
    proof {
        if let Ok(count) = parse_len(vec@) {
            lemma_parse_entries_len::<UT, K, V>(vec@.skip(4), count);
        }
    }
    if buf.len() == 0 {
        Ok(value)
    } else {
        Err(DecodeError::TrailingData)
    }
}

/// The fingerprint of a map: its code, then the key type's and the value
/// type's.
pub fn map_type_id_meta<UT, K: FFIConverter<UT>, V: FFIConverter<UT>>() -> (r: MetadataBuffer)
    requires
        1 + K::fingerprint().len() + V::fingerprint().len() <= BUF_SIZE,
    ensures
        r.wf(),
        r.view() == seq![metadata::codes::TYPE_HASH_MAP] + K::fingerprint() + V::fingerprint(),
{
    MetadataBuffer::from_code(metadata::codes::TYPE_HASH_MAP).concat(K::type_id_meta()).concat(V::type_id_meta())
}

} // verus!
