use vstd::prelude::*;

verus! {

/// The length of the longest BOM.
pub const MAX_BOM_LENGTH: usize = 4;

/// Storage for the leading bytes of a stream, as long as the longest BOM.
pub type BomBytesArray = [u8; MAX_BOM_LENGTH];

/// A buffer of at most [`MAX_BOM_LENGTH`] bytes that only grows at its end.
#[derive(Debug, Clone, Copy)]
pub struct BomBytesPushBuffer {
    buffer: BomBytesArray,
    position: usize,
}

impl View for BomBytesPushBuffer {
    type V = Seq<u8>;

    /// The bytes held, in the order in which they were pushed.
    closed spec fn view(&self) -> Seq<u8> {
        self.buffer@.subrange(0, self.position as int)
    }
}

impl Default for BomBytesPushBuffer {
    fn default() -> (r: Self)
        ensures
            r@ == Seq::<u8>::empty(),
    {
        BomBytesPushBuffer { buffer: [0u8; 4], position: 0 }
    }
}

impl BomBytesPushBuffer {
    #[verifier::type_invariant]
    spec fn position_in_buffer(&self) -> bool {
        self.position <= MAX_BOM_LENGTH
    }

    /// A buffer holding the first bytes of `slice`, as many as fit.
    pub fn from_slice(slice: &[u8]) -> (r: Self)
        ensures
            r@ == slice@.subrange(0, vstd::math::min(slice@.len() as int, MAX_BOM_LENGTH as int)),
    {
        let mut bom_bytes_push_buffer = Self::default();
        bom_bytes_push_buffer.push(slice);
        bom_bytes_push_buffer
    }

    /// A buffer holding the first `byte_count` bytes of `array`.
    pub fn from_array(array: BomBytesArray, byte_count: usize) -> (r: Self)
        requires
            byte_count <= MAX_BOM_LENGTH,
        ensures
            r@ == array@.subrange(0, byte_count as int),
    {
        Self { buffer: array, position: byte_count }
    }

    /// The number of bytes that can still be pushed.
    pub fn available_bytes(&self) -> (r: usize)
        ensures
            self@.len() <= MAX_BOM_LENGTH,
            r == MAX_BOM_LENGTH - self@.len(),
    {
        proof {
            use_type_invariant(self);
        }
        self.buffer.len() - self.position
    }

    /// Appends as many of `bytes` as fit and returns how many were appended.
    pub fn push(&mut self, bytes: &[u8]) -> (count: usize)
        ensures
            count == vstd::math::min(bytes@.len() as int, MAX_BOM_LENGTH - old(self)@.len()),
            final(self)@ == old(self)@ + bytes@.subrange(0, count as int),
            final(self)@.len() <= MAX_BOM_LENGTH,
    {
        proof {
            use_type_invariant(&*self);
        }
        let available = self.available_bytes();
        let count = if bytes.len() < available {
            bytes.len()
        } else {
            available
        };
        let ghost start = self@;
        let mut i: usize = 0;
        while i < count
            invariant
                self.position + count <= MAX_BOM_LENGTH,
                i <= count,
                count <= bytes@.len(),
                self.buffer@.subrange(0, self.position as int) == start,
                self.buffer@.subrange(self.position as int, self.position + i) == bytes@.subrange(
                    0,
                    i as int,
                ),
            decreases count - i,
        {
            self.buffer[self.position + i] = bytes[i];
            assert(self.buffer@.subrange(self.position as int, self.position + i + 1)
                =~= bytes@.subrange(0, i + 1));
            i = i + 1;
        }
        assert(self.buffer@.subrange(0, self.position + count) =~= start + bytes@.subrange(
            0,
            count as int,
        ));
        self.position = self.position + count;
        count
    }

    /// The bytes held.
    pub fn bytes(&self) -> (r: &[u8])
        ensures
            r@ == self@,
            r@.len() <= MAX_BOM_LENGTH,
    {
        proof {
            use_type_invariant(self);
        }
        vstd::slice::slice_subrange(self.buffer.as_slice(), 0, self.position)
    }

    /// The number of bytes held.
    pub fn byte_count(&self) -> (r: usize)
        ensures
            r == self@.len(),
            r <= MAX_BOM_LENGTH,
    {
        proof {
            use_type_invariant(self);
        }
        self.position
    }
}

impl AsRef<[u8]> for BomBytesPushBuffer {
    fn as_ref(&self) -> &[u8] {
        self.bytes()
    }
}

} // verus!
