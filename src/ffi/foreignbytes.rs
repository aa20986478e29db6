use vstd::prelude::*;

verus! {

/// A read-only view of bytes that the calling side owns; it is never freed
/// here.
pub struct FFIForeignBytes<'a> {
    len: i32,
    data: &'a [u8],
}

impl<'a> View for FFIForeignBytes<'a> {
    type V = Seq<u8>;

    closed spec fn view(&self) -> Seq<u8> {
        self.data@
    }
}

impl<'a> FFIForeignBytes<'a> {
    #[verifier::type_invariant]
    spec fn inv(self) -> bool {
        &&& 0 <= self.len
        &&& self.len as nat == self.data@.len()
    }

    /// A view of `data`; `None` when its length does not fit an `i32`.
    pub fn from_slice(data: &'a [u8]) -> (r: Option<Self>)
        ensures
            r is Some <==> data@.len() <= i32::MAX,
            r matches Some(b) ==> b@ == data@,
    {
        if data.len() <= i32::MAX as usize {
            Some(FFIForeignBytes { len: data.len() as i32, data })
        } else {
            None
        }
    }

    /// The bytes viewed.
    pub fn as_slice(&self) -> (r: &'a [u8])
        ensures
            r@ == self@,
    {
        self.data
    }

    /// The number of bytes viewed.
    pub fn len(&self) -> (r: usize)
        ensures
            r == self@.len(),
    {
        proof {
            use_type_invariant(self);
        }
        self.len as usize
    }

    /// Whether no bytes are viewed.
    pub fn is_empty(&self) -> (r: bool)
        ensures
            r == (self@.len() == 0),
    {
        proof {
            use_type_invariant(self);
        }
        self.len == 0
    }
}

} // verus!
