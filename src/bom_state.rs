use vstd::prelude::*;

use crate::bom_type::{
    BomType, BomsBytesTest, detect, lemma_first_match_is_candidate, verdict_marker,
};
use crate::byte_push_buffer::{BomBytesArray, BomBytesPushBuffer, MAX_BOM_LENGTH};

verus! {

/// Relies on `std::io::Read::read`, called on the part of `buf` from `start` on: the
/// buffer keeps its length and the part before `start` is not handed to the reader.
#[verifier::external_body]
fn read_into<R: std::io::Read>(reader: &mut R, buf: &mut [u8], start: usize) -> (r:
    std::io::Result<usize>)
    requires
        start <= old(buf)@.len(),
    ensures
        final(buf)@.len() == old(buf)@.len(),
        final(buf)@.subrange(0, start as int) == old(buf)@.subrange(0, start as int),
{
    reader.read(&mut buf[start..])
}

/// Reads from `reader` into `buf` from `start` on and returns how many bytes came, with the
/// bytes themselves as the reader left them.
///
/// A reader that claims more bytes than it was offered is taken to have filled what it was offered.
pub(crate) fn read_at<R: std::io::Read>(reader: &mut R, buf: &mut [u8], start: usize) -> (r: (
    std::io::Result<usize>,
    Ghost<Seq<u8>>,
))
    requires
        start <= old(buf)@.len(),
    ensures
        final(buf)@.len() == old(buf)@.len(),
        final(buf)@.subrange(0, start as int) == old(buf)@.subrange(0, start as int),
        r.0 matches Ok(n) ==> {
            &&& start + n <= old(buf)@.len()
            &&& r.1@ == final(buf)@.subrange(start as int, start + n)
        },
{
    match read_into(reader, buf, start) {
        Ok(n) => {
            let room = buf.len() - start;
            let count = if n > room {
                room
            } else {
                n
            };
            (Ok(count), Ghost(buf@.subrange(start as int, start + count)))
        },
        Err(e) => (Err(e), Ghost(Seq::empty())),
    }
}

/// Reader BOM skipping state
#[derive(Debug, Clone, Copy)]
pub enum BomState {
    /// Reader initial state.
    Initial {
        /// Push buffer for the reader bytes that can be BOM bytes.
        start_bytes: BomBytesPushBuffer,
    },
    /// The BOM presence is known but some bytes read after it are still to be handed out.
    PostInitBuffer {
        /// Buffer for the bytes read after the BOM.
        bytes_after_bom: BomBytesPushBuffer,
        /// How many of `bytes_after_bom` were handed out already.
        position: usize,
        /// The BOM type found if there was one.
        bom_type: Option<BomType>,
    },
    /// Reader state where the BOM has been determined to be present or not.
    Final(Option<BomType>),
}

impl Default for BomState {
    fn default() -> (r: Self)
        ensures
            r.verdict() is None,
            r.held() == Seq::<u8>::empty(),
    {
        BomState::Initial { start_bytes: BomBytesPushBuffer::default() }
    }
}

impl BomState {
    /// What is known of the BOM: `None` while undetermined, then `Some(None)` for
    /// "no BOM" or `Some(Some(bom))`.
    pub open spec fn verdict(&self) -> Option<Option<BomType>> {
        match self {
            BomState::Initial { .. } => None,
            BomState::PostInitBuffer { bom_type, .. } => Some(*bom_type),
            BomState::Final(bom_type) => Some(*bom_type),
        }
    }

    /// The bytes read while the verdict is undetermined.
    pub open spec fn held(&self) -> Seq<u8> {
        match self {
            BomState::Initial { start_bytes } => start_bytes@,
            _ => Seq::empty(),
        }
    }

    /// The bytes read after the BOM that are still to be handed out.
    pub open spec fn pending(&self) -> Seq<u8> {
        match self {
            BomState::PostInitBuffer { bytes_after_bom, position, .. } => bytes_after_bom@.skip(
                *position as int,
            ),
            _ => Seq::empty(),
        }
    }

    /// The leading bytes of the stream that a state fresh from detection stands for: the
    /// bytes held, or the mark and the bytes read after it.
    pub open spec fn accounted(&self) -> Seq<u8> {
        match self.verdict() {
            None => self.held(),
            Some(v) => verdict_marker(v) + self.pending(),
        }
    }

    /// Each state holds what it needs: fewer than four undecided bytes, or a nonempty rest.
    pub open spec fn well_formed(&self) -> bool {
        match self {
            BomState::Initial { start_bytes } => start_bytes@.len() < MAX_BOM_LENGTH,
            BomState::PostInitBuffer { bytes_after_bom, position, .. } => {
                &&& *position < bytes_after_bom@.len()
                &&& bytes_after_bom@.len() <= MAX_BOM_LENGTH
            },
            BomState::Final(_) => true,
        }
    }

    /// Returns `None` while the BOM presence is undetermined, `Some(None)` when there is no
    /// BOM and `Some(Some(bom_type))` when the `bom_type` BOM was found.
    pub fn bom_found(&self) -> (r: Option<Option<BomType>>)
        ensures
            r == self.verdict(),
    {
        match self {
            BomState::Initial { .. } => None,
            BomState::PostInitBuffer { bom_type, .. } => Some(*bom_type),
            BomState::Final(bom_type) => Some(*bom_type),
        }
    }

    /// Reads once from `reader` to fill `start_bytes` up to [`MAX_BOM_LENGTH`] bytes, then
    /// tells among `bom_types` which BOM, if any, these bytes start with.
    pub fn try_read_bom<R: std::io::Read>(
        start_bytes: &BomBytesPushBuffer,
        reader: &mut R,
        bom_types: &[BomType],
    ) -> (r: std::io::Result<TryReadBomResult>)
        ensures
            r matches Ok(res) ==> {
                &&& res.leading_bytes().len() <= MAX_BOM_LENGTH
                &&& start_bytes@.len() <= res.leading_bytes().len()
                &&& res.leading_bytes().subrange(0, start_bytes@.len() as int) == start_bytes@
                &&& match res {
                    TryReadBomResult::Incomplete(bytes) => detect(bom_types@, bytes@) is None,
                    TryReadBomResult::Complete { bom_type, .. } => detect(
                        bom_types@,
                        res.leading_bytes(),
                    ) == Some(bom_type),
                }
            },
    {
        let (r, fresh) = BomState::read_leading(start_bytes, reader, bom_types);
        proof {
            if r is Ok {
                let res = r->Ok_0;
                assert(res.leading_bytes().subrange(0, start_bytes@.len() as int) =~= start_bytes@);
            }
        }
        r
    }

    /// As [`BomState::try_read_bom`], with the bytes that the read brought.
    pub(crate) fn read_leading<R: std::io::Read>(
        start_bytes: &BomBytesPushBuffer,
        reader: &mut R,
        bom_types: &[BomType],
    ) -> (r: (std::io::Result<TryReadBomResult>, Ghost<Seq<u8>>))
        ensures
            r.0 matches Ok(res) ==> {
                &&& res.leading_bytes() == start_bytes@ + r.1@
                &&& res.leading_bytes().len() <= MAX_BOM_LENGTH
                &&& match res {
                    TryReadBomResult::Incomplete(bytes) => detect(bom_types@, bytes@) is None,
                    TryReadBomResult::Complete { bom_type, .. } => detect(
                        bom_types@,
                        res.leading_bytes(),
                    ) == Some(bom_type),
                }
            },
    {
        let mut new_start_bytes_buffer: BomBytesArray = [0u8; 4];
        let start_bytes_slice = start_bytes.bytes();
        let held = start_bytes_slice.len();
        let mut i: usize = 0;
        while i < held
            invariant
                held == start_bytes@.len(),
                held <= MAX_BOM_LENGTH,
                start_bytes_slice@ == start_bytes@,
                i <= held,
                new_start_bytes_buffer@.len() == MAX_BOM_LENGTH,
                new_start_bytes_buffer@.subrange(0, i as int) == start_bytes@.subrange(0, i as int),
            decreases held - i,
        {
            new_start_bytes_buffer[i] = start_bytes_slice[i];
            assert(new_start_bytes_buffer@.subrange(0, i + 1) =~= start_bytes@.subrange(0, i + 1));
            i = i + 1;
        }
        let (read, fresh) = read_at(reader, &mut new_start_bytes_buffer, held);
        let current_bytes_read = match read {
            Ok(n) => n,
            Err(e) => return (Err(e), fresh),
        };
        let total_bom_bytes_read = held + current_bytes_read;
        let tested = vstd::slice::slice_subrange(
            new_start_bytes_buffer.as_slice(),
            0,
            total_bom_bytes_read,
        );
        assert(tested@ =~= start_bytes@ + fresh@);
        match BomType::try_find_bytes_bom(tested, bom_types) {
            BomsBytesTest::Complete { bom_type, additional_bytes } => {
                let bytes_after_bom = BomBytesPushBuffer::from_slice(additional_bytes);
                proof {
                    if let Some(bom) = bom_type {
                        lemma_first_match_is_candidate(bom_types@, tested@, 0);
                    }
                    assert(additional_bytes@.subrange(0, additional_bytes@.len() as int)
                        =~= additional_bytes@);
                    assert(tested@ =~= verdict_marker(bom_type) + additional_bytes@);
                }
                (Ok(TryReadBomResult::Complete { bom_type, bytes_after_bom }), fresh)
            },
            BomsBytesTest::Incomplete => {
                let bytes_after_bom = BomBytesPushBuffer::from_array(
                    new_start_bytes_buffer,
                    total_bom_bytes_read,
                );
                (Ok(TryReadBomResult::Incomplete(bytes_after_bom)), fresh)
            },
        }
    }
}

/// What one read of the leading bytes of a stream tells.
pub enum TryReadBomResult {
    /// Some candidate BOM could still be completed: the bytes read so far.
    Incomplete(BomBytesPushBuffer),
    /// The BOM presence is known.
    Complete {
        /// The BOM type found if there was one.
        bom_type: Option<BomType>,
        /// The bytes read after the BOM.
        bytes_after_bom: BomBytesPushBuffer,
    },
}

impl TryReadBomResult {
    /// The leading bytes of the stream that the result accounts for.
    pub open spec fn leading_bytes(&self) -> Seq<u8> {
        match self {
            TryReadBomResult::Incomplete(bytes) => bytes@,
            TryReadBomResult::Complete { bom_type, bytes_after_bom } => verdict_marker(*bom_type)
                + bytes_after_bom@,
        }
    }
}

} // verus!
