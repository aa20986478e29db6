use vstd::prelude::*;
use vstd::string::StringSliceAdditionalSpecFns;

pub mod codes;

verus! {

broadcast use vstd::array::group_array_axioms;

/// The fixed capacity of a fingerprint buffer, in bytes.
pub const BUF_SIZE: usize = 16384;

/// Seed of the rolling fingerprint hash.
pub const INITIAL_STATE: u64 = 0xcbf81ce484333325;
/// Multiplier of the rolling fingerprint hash.
pub const PRIME: u64 = 0x100000001b3;

/// An append-only byte accumulator of fixed capacity that describes a type.
/// Only the first `size` bytes are meaningful.
pub struct MetadataBuffer {
    pub bytes: [u8; BUF_SIZE],
    pub size: usize,
}

/// The 64-bit rolling hash of `s`: seeded with `INITIAL_STATE`, and for each
/// byte in order, XOR it in and multiply by `PRIME` modulo 2^64.
pub open spec fn fnv_state(s: Seq<u8>) -> u64
    decreases s.len(),
{
    if s.len() == 0 {
        INITIAL_STATE
    } else {
        vstd::wrapping::u64_specs::wrapping_mul(fnv_state(s.drop_last()) ^ (s.last() as u64), PRIME)
    }
}

/// The four 16-bit quarters of `h`, XOR-ed together.
pub open spec fn fold16(h: u64) -> u16 {
    (h ^ (h >> 16u64) ^ (h >> 32u64) ^ (h >> 48u64)) as u16
}

/// The 16-bit checksum of a fingerprint.
pub open spec fn checksum_of(s: Seq<u8>) -> u16 {
    fold16(fnv_state(s))
}

impl MetadataBuffer {
    /// Well-formed: the cursor stays within the capacity.
    pub open spec fn wf(&self) -> bool {
        self.size <= BUF_SIZE
    }

    /// The bytes accumulated so far.
    pub open spec fn view(&self) -> Seq<u8> {
        self.bytes@.take(self.size as int)
    }

    /// An empty accumulator.
    pub fn new() -> (r: Self)
        ensures
            r.wf(),
            r.size == 0,
            r.view() == Seq::<u8>::empty(),
    {
        let r = MetadataBuffer { bytes: [0u8; BUF_SIZE], size: 0 };
        assert(r.view() =~= Seq::<u8>::empty());
        r
    }

    /// An accumulator that holds the single code byte `value`.
    pub fn from_code(value: u8) -> (r: Self)
        ensures
            r.wf(),
            r.size == 1,
            r.view() == seq![value],
    {
        Self::new().concat_value(value)
    }

    /// Appends the bytes of `other`.
    pub fn concat(self, other: MetadataBuffer) -> (r: MetadataBuffer)
        requires
            self.wf(),
            other.wf(),
            self.size + other.size <= BUF_SIZE,
        ensures
            r.wf(),
            r.size == self.size + other.size,
            r.view() == self.view() + other.view(),
    {
        let mut this = self;
        let mut i: usize = 0;
        while i < other.size
            invariant
                other.wf(),
                self.size + other.size <= BUF_SIZE,
                i <= other.size,
                this.size == self.size + i,
                this.bytes@.len() == BUF_SIZE,
                this.view() == self.view() + other.view().take(i as int),
            decreases other.size - i,
        {
            let b = other.bytes[i];
            let pos = this.size;
            let ghost prev = this.view();
            this.bytes[pos] = b;
            this.size = pos + 1;
            assert(this.view() =~= prev.push(b));
            assert(other.view().take(i + 1) =~= other.view().take(i as int).push(b));
            i = i + 1;
            assert(this.view() =~= self.view() + other.view().take(i as int));
        }
        assert(other.view().take(other.size as int) =~= other.view());
        this
    }

    /// Appends one byte.
    pub fn concat_value(self, value: u8) -> (r: Self)
        requires
            self.wf(),
            self.size < BUF_SIZE,
        ensures
            r.wf(),
            r.size == self.size + 1,
            r.view() == self.view().push(value),
    {
        let mut this = self;
        let pos = this.size;
        this.bytes[pos] = value;
        this.size = pos + 1;
        assert(this.view() =~= self.view().push(value));
        this
    }

    /// Appends `value` as four bytes, least significant first.
    pub fn concat_u32(self, value: u32) -> (r: Self)
        requires
            self.wf(),
            self.size + 4 <= BUF_SIZE,
        ensures
            r.wf(),
            r.size == self.size + 4,
            r.view() == self.view() + seq![
                value as u8,
                (value >> 8u32) as u8,
                (value >> 16u32) as u8,
                (value >> 24u32) as u8,
            ],
    {
        let mut this = self;
        let pos = this.size;
        this.bytes[pos] = value as u8;
        this.bytes[pos + 1] = (value >> 8u32) as u8;
        this.bytes[pos + 2] = (value >> 16u32) as u8;
        this.bytes[pos + 3] = (value >> 24u32) as u8;
        this.size = pos + 4;
        assert(this.view() =~= self.view() + seq![
            value as u8,
            (value >> 8u32) as u8,
            (value >> 16u32) as u8,
            (value >> 24u32) as u8,
        ]);
        this
    }

    /// Appends `1` for `true` and `0` for `false`.
    pub fn concat_bool(self, value: bool) -> (r: Self)
        requires
            self.wf(),
            self.size < BUF_SIZE,
        ensures
            r.wf(),
            r.size == self.size + 1,
            r.view() == self.view().push(if value { 1u8 } else { 0u8 }),
    {
        self.concat_value(if value { 1u8 } else { 0u8 })
    }

    /// Appends the byte length of `string` in one byte, then its UTF-8 bytes.
    pub fn concat_str(self, string: &str) -> (r: Self)
        requires
            self.wf(),
            string.spec_bytes().len() < 256,
            self.size + string.spec_bytes().len() < BUF_SIZE,
        ensures
            r.wf(),
            r.size == self.size + 1 + string.spec_bytes().len(),
            r.view() == self.view().push(string.spec_bytes().len() as u8) + string.spec_bytes(),
    {
        let bytes = string.as_bytes();
        let n = bytes.len();
        let mut this = self.concat_value(n as u8);
        let ghost start = this.view();
        let mut i: usize = 0;
        while i < n
            invariant
                bytes@ == string.spec_bytes(),
                n == bytes@.len(),
                i <= n,
                self.size + n < BUF_SIZE,
                this.size == self.size + 1 + i,
                this.bytes@.len() == BUF_SIZE,
                this.view() == start + bytes@.take(i as int),
            decreases n - i,
        {
            let pos = this.size;
            let ghost prev = this.view();
            this.bytes[pos] = bytes[i];
            this.size = pos + 1;
            assert(this.view() =~= prev.push(bytes@[i as int]));
            assert(bytes@.take(i + 1) =~= bytes@.take(i as int).push(bytes@[i as int]));
            i = i + 1;
            assert(this.view() =~= start + bytes@.take(i as int));
        }
        assert(bytes@.take(n as int) =~= bytes@);
        this
    }

    /// Appends the byte length of `string` in two bytes, least significant
    /// first, then its UTF-8 bytes.
    pub fn concat_long_str(self, string: &str) -> (r: Self)
        requires
            self.wf(),
            self.size + string.spec_bytes().len() + 1 < BUF_SIZE,
        ensures
            r.wf(),
            r.size == self.size + 2 + string.spec_bytes().len(),
            r.view() == self.view() + seq![
                (string.spec_bytes().len() % 256) as u8,
                (string.spec_bytes().len() / 256) as u8,
            ] + string.spec_bytes(),
    {
        let bytes = string.as_bytes();
        let n = bytes.len();
        let len16 = n as u16;
        let lo = (len16 % 256) as u8;
        let hi = (len16 / 256) as u8;
        let mut this = self.concat_value(lo).concat_value(hi);
        let ghost start = this.view();
        assert(start =~= self.view() + seq![lo, hi]);
        let mut i: usize = 0;
        while i < n
            invariant
                bytes@ == string.spec_bytes(),
                n == bytes@.len(),
                i <= n,
                self.size + n + 1 < BUF_SIZE,
                this.size == self.size + 2 + i,
                this.bytes@.len() == BUF_SIZE,
                this.view() == start + bytes@.take(i as int),
            decreases n - i,
        {
            let pos = this.size;
            let ghost prev = this.view();
            this.bytes[pos] = bytes[i];
            this.size = pos + 1;
            assert(this.view() =~= prev.push(bytes@[i as int]));
            assert(bytes@.take(i + 1) =~= bytes@.take(i as int).push(bytes@[i as int]));
            i = i + 1;
            assert(this.view() =~= start + bytes@.take(i as int));
        }
        assert(bytes@.take(n as int) =~= bytes@);
        this
    }

    /// The first `SIZE` bytes of the underlying storage.
    pub fn into_array<const SIZE: usize>(self) -> (r: [u8; SIZE])
        requires
            SIZE <= BUF_SIZE,
        ensures
            r@ == self.bytes@.take(SIZE as int),
    {
        let mut result: [u8; SIZE] = [0u8; SIZE];
        let mut i: usize = 0;
        while i < SIZE
            invariant
                SIZE <= BUF_SIZE,
                i <= SIZE,
                result@.len() == SIZE,
                forall|j: int| 0 <= j < i ==> result@[j] == self.bytes@[j],
            decreases SIZE - i,
        {
            result[i] = self.bytes[i];
            i = i + 1;
        }
        assert(result@ =~= self.bytes@.take(SIZE as int));
        result
    }

    /// The 16-bit checksum of the accumulated bytes.
    pub fn checksum(&self) -> (r: u16)
        requires
            self.wf(),
        ensures
            r == checksum_of(self.view()),
    {
        calc_checksum(&self.bytes, self.size)
    }

    /// The accumulated bytes.
    pub fn as_slice(&self) -> (r: &[u8])
        requires
            self.wf(),
        ensures
            r@ == self.view(),
    {
        let (head, _) = self.bytes.as_slice().split_at(self.size);
        head
    }
}

/// The 16-bit checksum of a whole byte slice.
pub fn checksum_metadata(buf: &[u8]) -> (r: u16)
    ensures
        r == checksum_of(buf@),
{
    proof {
        assert(buf@.take(buf@.len() as int) =~= buf@);
    }
    calc_checksum(buf, buf.len())
}

/// The 16-bit checksum of the first `size` bytes of `bytes`.
fn calc_checksum(bytes: &[u8], size: usize) -> (r: u16)
    requires
        size <= bytes@.len(),
    ensures
        r == checksum_of(bytes@.take(size as int)),
{
    let mut hash: u64 = INITIAL_STATE;
    let mut i: usize = 0;
    while i < size
        invariant
            i <= size <= bytes@.len(),
            hash == fnv_state(bytes@.take(i as int)),
        decreases size - i,
    {
        assert(bytes@.take(i + 1).drop_last() =~= bytes@.take(i as int));
        hash = hash ^ (bytes[i] as u64);
        hash = hash.wrapping_mul(PRIME);
        i = i + 1;
    }
    (hash ^ (hash >> 16u64) ^ (hash >> 32u64) ^ (hash >> 48u64)) as u16
}

} // verus!
