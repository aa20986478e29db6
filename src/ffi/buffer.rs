use vstd::prelude::*;

verus! {

/// An owned byte buffer whose ownership crosses the ABI boundary as a
/// capacity, a length and the bytes themselves.
#[derive(Debug)]
pub struct FFIBuffer {
    pub(crate) capacity: u64,
    pub(crate) len: u64,
    pub(crate) data: Vec<u8>,
}

/// Relies on `Vec::capacity`, which is never below the length.
#[verifier::external_body]
fn vec_capacity(v: &Vec<u8>) -> (r: usize)
    ensures
        r >= v@.len(),
{
    v.capacity()
}

impl View for FFIBuffer {
    type V = Seq<u8>;

    closed spec fn view(&self) -> Seq<u8> {
        self.data@
    }
}

impl FFIBuffer {
    #[verifier::type_invariant]
    spec fn inv(self) -> bool {
        &&& self.len as nat == self.data@.len()
        &&& self.len <= self.capacity
        &&& self.capacity <= usize::MAX
    }

    /// The capacity that was recorded when the bytes were handed over.
    pub closed spec fn spec_capacity(&self) -> nat {
        self.capacity as nat
    }

    /// An empty buffer.
    pub fn new() -> (r: Self)
        ensures
            r@ == Seq::<u8>::empty(),
    {
        Self::from_vec(Vec::new())
    }

    /// The number of bytes held.
    pub fn len(&self) -> (r: usize)
        ensures
            r == self@.len(),
    {
        proof {
            use_type_invariant(self);
        }
        self.data.len()
    }

    /// The number of bytes the allocation can hold.
    pub fn capacity(&self) -> (r: usize)
        ensures
            r == self.spec_capacity(),
            r >= self@.len(),
    {
        proof {
            use_type_invariant(self);
        }
        self.capacity as usize
    }

    /// Whether no bytes are held.
    pub fn is_empty(&self) -> (r: bool)
        ensures
            r == (self@.len() == 0),
    {
        proof {
            use_type_invariant(self);
        }
        self.len == 0
    }

    /// A buffer of `size` zero bytes.
    pub fn new_with_size(size: u64) -> (r: Self)
        requires
            size <= usize::MAX,
        ensures
            r@ == Seq::new(size as nat, |i: int| 0u8),
    {
        let n = size as usize;
        let mut v: Vec<u8> = Vec::new();
        let mut i: usize = 0;
        while i < n
            invariant
                i <= n,
                v@ == Seq::new(i as nat, |j: int| 0u8),
            decreases n - i,
        {
            v.push(0u8);
            i = i + 1;
            assert(v@ =~= Seq::new(i as nat, |j: int| 0u8));
        }
        Self::from_vec(v)
    }

    /// Takes ownership of the bytes of `v`, recording its length and capacity.
    pub fn from_vec(v: Vec<u8>) -> (r: Self)
        ensures
            r@ == v@,
    {
        let capacity = vec_capacity(&v) as u64;
        let len = v.len() as u64;
        FFIBuffer { capacity, len, data: v }
    }

    /// The bytes, borrowed for as long as the buffer is.
    pub fn as_slice(&self) -> (r: &[u8])
        ensures
            r@ == self@,
    {
        self.data.as_slice()
    }

    /// Consumes the buffer and hands back its bytes.
    pub fn destroy_into_vec(self) -> (r: Vec<u8>)
        ensures
            r@ == self@,
    {
        self.data
    }

    /// Consumes the buffer and frees its bytes.
    pub fn destroy(self) {
        let _ = self.destroy_into_vec();
    }
}

impl Default for FFIBuffer {
    fn default() -> (r: Self)
        ensures
            r@ == Seq::<u8>::empty(),
    {
        Self::new()
    }
}

/// Handing an owned byte sequence to a buffer and destroying that buffer
/// gives back the same bytes, in the same number.
pub proof fn lemma_buffer_round_trip(v: Vec<u8>, b: FFIBuffer, r: Vec<u8>)
    requires
        call_ensures(FFIBuffer::from_vec, (v,), b),
        call_ensures(FFIBuffer::destroy_into_vec, (b,), r),
    ensures
        r@ == v@,
        r@.len() == v@.len(),
{
}

} // verus!
