use vstd::prelude::*;

verus! {

/// `256` raised to the power `n`: one more than the largest value `n` bytes hold.
pub open spec fn pow256(n: nat) -> nat
    decreases n,
{
    if n == 0 {
        1
    } else {
        256 * pow256((n - 1) as nat)
    }
}

/// The `n` low-order bytes of `v`, most significant first (network order).
pub open spec fn be_bytes(v: nat, n: nat) -> Seq<u8>
    decreases n,
{
    if n == 0 {
        seq![]
    } else {
        be_bytes(v / 256, (n - 1) as nat).push((v % 256) as u8)
    }
}

/// The unsigned number that `s` spells in network order.
pub open spec fn be_value(s: Seq<u8>) -> nat
    decreases s.len(),
{
    if s.len() == 0 {
        0
    } else {
        be_value(s.drop_last()) * 256 + s.last() as nat
    }
}

pub proof fn lemma_pow256_pos(n: nat)
    ensures
        pow256(n) >= 1,
    decreases n,
{
    if n > 0 {
        lemma_pow256_pos((n - 1) as nat);
    }
}

pub proof fn lemma_pow256_values()
    ensures
        pow256(1) == 0x100,
        pow256(2) == 0x1_0000,
        pow256(4) == 0x1_0000_0000,
        pow256(8) == 0x1_0000_0000_0000_0000,
{
    reveal_with_fuel(pow256, 9);
}

pub proof fn lemma_be_bytes_len(v: nat, n: nat)
    ensures
        be_bytes(v, n).len() == n,
    decreases n,
{
    if n > 0 {
        lemma_be_bytes_len(v / 256, (n - 1) as nat);
    }
}

pub proof fn lemma_be_value_bound(s: Seq<u8>)
    ensures
        be_value(s) < pow256(s.len()),
    decreases s.len(),
{
    if s.len() > 0 {
        lemma_be_value_bound(s.drop_last());
        let a = be_value(s.drop_last());
        let p = pow256((s.len() - 1) as nat);
        let b = s.last() as nat;
        assert(a * 256 + b < 256 * p) by (nonlinear_arith)
            requires
                a < p,
                b < 256,
        ;
    }
}

/// Reading back the bytes of a value that fits gives the value.
pub proof fn lemma_be_round_trip(v: nat, n: nat)
    requires
        v < pow256(n),
    ensures
        be_value(be_bytes(v, n)) == v,
    decreases n,
{
    if n > 0 {
        let p = pow256((n - 1) as nat);
        assert(v / 256 < p) by (nonlinear_arith)
            requires
                v < 256 * p,
        ;
        lemma_be_round_trip(v / 256, (n - 1) as nat);
        let s = be_bytes(v, n);
        assert(s.drop_last() =~= be_bytes(v / 256, (n - 1) as nat));
        assert(v == (v / 256) * 256 + v % 256) by (nonlinear_arith);
    }
}

/// Appends the `n` low-order bytes of `v` to `buf`, most significant first.
pub fn put_be(buf: &mut Vec<u8>, v: u64, n: usize)
    requires
        n <= 8,
    ensures
        final(buf)@ == old(buf)@ + be_bytes(v as nat, n as nat),
    decreases n,
{
    if n == 0 {
        assert(old(buf)@ + be_bytes(v as nat, 0) =~= old(buf)@);
    } else {
        put_be(buf, v / 256, n - 1);
        buf.push((v % 256) as u8);
        assert(final(buf)@ =~= old(buf)@ + be_bytes(v as nat, n as nat));
    }
}

/// The unsigned number that the first `n` bytes of `s` spell in network order.
pub fn get_be(s: &[u8], n: usize) -> (r: u64)
    requires
        n <= 8,
        n <= s@.len(),
    ensures
        r as nat == be_value(s@.take(n as int)),
{
    let mut acc: u64 = 0;
    let mut i: usize = 0;
    while i < n
        invariant
            i <= n <= 8,
            n <= s@.len(),
            acc as nat == be_value(s@.take(i as int)),
        decreases n - i,
    {
        proof {
            lemma_be_value_bound(s@.take(i as int));
            lemma_pow256_values();
            lemma_pow256_mono(i as nat, 7);
            assert(s@.take(i + 1).drop_last() =~= s@.take(i as int));
        }
        let a = acc;
        assert(a * 256 + 255 <= 0xffff_ffff_ffff_ffff) by (nonlinear_arith)
            requires
                a < pow256(i as nat),
                pow256(i as nat) <= pow256(7),
                pow256(7) * 256 == 0x1_0000_0000_0000_0000,
        ;
        acc = acc * 256 + s[i] as u64;
        i = i + 1;
    }
    acc
}

pub proof fn lemma_pow256_mono(a: nat, b: nat)
    requires
        a <= b,
    ensures
        pow256(a) <= pow256(b),
    decreases b,
{
    if a < b {
        lemma_pow256_mono(a, (b - 1) as nat);
        lemma_pow256_pos((b - 1) as nat);
    }
}

/// The first `n` bytes of `v`'s encoding, whatever follows them, read back as `v`.
pub proof fn lemma_be_prefix(v: nat, n: nat, rest: Seq<u8>)
    requires
        v < pow256(n),
    ensures
        (be_bytes(v, n) + rest).len() >= n,
        (be_bytes(v, n) + rest).take(n as int) == be_bytes(v, n),
        be_value((be_bytes(v, n) + rest).take(n as int)) == v,
{
    lemma_be_bytes_len(v, n);
    lemma_be_round_trip(v, n);
    assert((be_bytes(v, n) + rest).take(n as int) =~= be_bytes(v, n));
}

/// What reading an `n`-byte unsigned number from the front of `bytes` gives:
/// the number, or `InsufficientData` when fewer than `n` bytes are there.
pub open spec fn parse_be(bytes: Seq<u8>, n: nat) -> crate::FFIResult<(nat, nat)> {
    if bytes.len() < n {
        Err(crate::DecodeError::InsufficientData)
    } else {
        Ok((be_value(bytes.take(n as int)), n))
    }
}

/// Reads an `n`-byte unsigned number from the front of the cursor and moves
/// the cursor past it.
pub fn read_be(buf: &mut &[u8], n: usize) -> (r: crate::FFIResult<u64>)
    requires
        n <= 8,
    ensures
        match parse_be(old(buf)@, n as nat) {
            Ok((v, k)) => r is Ok && r->Ok_0 as nat == v && final(buf)@ == old(buf)@.skip(k as int),
            Err(e) => r == Err::<u64, crate::DecodeError>(e),
        },
        r is Ok ==> r->Ok_0 < pow256(n as nat),
{
    crate::check_remaining(*buf, n)?;
    let v = get_be(*buf, n);
    proof {
        lemma_be_value_bound(old(buf)@.take(n as int));
    }
    let (_, rest) = buf.split_at(n);
    *buf = rest;
    assert(final(buf)@ =~= old(buf)@.skip(n as int));
    Ok(v)
}

} // verus!
