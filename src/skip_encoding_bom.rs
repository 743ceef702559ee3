use vstd::prelude::*;

use crate::bom_state::{BomState, TryReadBomResult, read_at};
use crate::bom_type::{
    BomType, could_start, detect, first_match_from, lemma_decided_when_full, lemma_detect_stable,
    lemma_first_match_is_candidate, lemma_marker_length, lemma_no_candidates, marker,
    starts_with, verdict_marker,
};
use crate::byte_push_buffer::{BomBytesPushBuffer, MAX_BOM_LENGTH};

verus! {

/// Read from I/O and skip the initial encoding BOM if present.
#[derive(Clone)]
pub struct SkipEncodingBom<'a, R> {
    reader: R,
    detection: BomDetection<'a>,
}

/// The BOM detection of a [`SkipEncodingBom`]: its state and what it has seen of the stream.
#[derive(Clone, Copy)]
struct BomDetection<'a> {
    state: BomState,
    bom_types: &'a [BomType],
    /// Every byte obtained from the underlying reader so far, in order.
    consumed: Ghost<Seq<u8>>,
    /// Every byte handed out to the caller so far, in order.
    delivered: Ghost<Seq<u8>>,
    /// The length of the stream when the verdict was set at its end, before the bytes decided it.
    settled_at: Ghost<Option<nat>>,
    /// The last read of the underlying reader brought no byte.
    last_read_empty: Ghost<bool>,
}

/// What one attempt to read the leading bytes leads to.
enum NextStateResult {
    /// No new byte came: the bytes held are unchanged.
    IncompleteRead(BomBytesPushBuffer),
    /// New bytes came and lead to this state.
    NewState(BomState),
}

impl<'a, R> SkipEncodingBom<'a, R> {
    /// The BOM types looked for.
    pub closed spec fn candidates(&self) -> Seq<BomType> {
        self.detection.candidates()
    }

    /// The underlying reader.
    pub closed spec fn inner(&self) -> R {
        self.reader
    }

    /// The detection state.
    pub closed spec fn bom_state(&self) -> BomState {
        self.detection.bom_state()
    }

    /// Every byte obtained from the underlying reader so far, in order.
    pub closed spec fn stream(&self) -> Seq<u8> {
        self.detection.stream()
    }

    /// Every byte handed out to the caller so far, in order.
    pub closed spec fn output(&self) -> Seq<u8> {
        self.detection.output()
    }

    /// The length of the stream when a read that brought no byte ended it before its bytes
    /// decided the verdict; `None` where the bytes decided it.
    pub closed spec fn settled_at(&self) -> Option<nat> {
        self.detection.settled_at()
    }

    /// Whether the last read of the underlying reader brought no byte.
    pub closed spec fn last_read_empty(&self) -> bool {
        self.detection.last_read_empty()
    }

    /// The verdict so far: `None` while undetermined.
    pub open spec fn verdict(&self) -> Option<Option<BomType>> {
        self.bom_state().verdict()
    }

    /// The bytes read after the BOM and not handed out yet.
    pub open spec fn pending(&self) -> Seq<u8> {
        self.bom_state().pending()
    }

    /// How the state, the bytes read and the bytes handed out relate.
    ///
    /// While undetermined, nothing was handed out and every byte read is held, too few to decide.
    /// Once determined, the verdict is the one that the bytes read give (or "no BOM" when
    /// settled at the end of the stream), the stream begins with its mark, and what was handed
    /// out followed by what is pending is exactly the stream after the mark.
    pub open spec fn wf(&self) -> bool {
        well_formed_detection(
            self.bom_state(),
            self.candidates(),
            self.stream(),
            self.output(),
            self.settled_at(),
        )
    }
}

/// How a detection state, the BOM types looked for, the bytes read and the bytes handed out
/// relate: see [`SkipEncodingBom::wf`].
pub open spec fn well_formed_detection(
    state: BomState,
    candidates: Seq<BomType>,
    stream: Seq<u8>,
    output: Seq<u8>,
    settled_at: Option<nat>,
) -> bool {
    &&& state.well_formed()
    &&& match state.verdict() {
        None => {
            &&& output == Seq::<u8>::empty()
            &&& state.held() == stream
            &&& detect(candidates, stream) is None
            &&& settled_at is None
        },
        Some(v) => {
            &&& starts_with(stream, verdict_marker(v))
            &&& output + state.pending() == stream.skip(verdict_marker(v).len() as int)
            &&& match settled_at {
                None => detect(candidates, stream) == Some(v),
                Some(len) => {
                    &&& len <= stream.len()
                    &&& v == first_match_from(candidates, stream.subrange(0, len as int), 0)
                },
            }
        },
    }
}

impl<'a> BomDetection<'a> {
    /// The BOM types looked for.
    spec fn candidates(&self) -> Seq<BomType> {
        self.bom_types@
    }

    /// The detection state.
    spec fn bom_state(&self) -> BomState {
        self.state
    }

    /// Every byte obtained from the underlying reader so far, in order.
    spec fn stream(&self) -> Seq<u8> {
        self.consumed@
    }

    /// Every byte handed out to the caller so far, in order.
    spec fn output(&self) -> Seq<u8> {
        self.delivered@
    }

    /// The length of the stream when the verdict was set at its end, before the bytes decided it.
    spec fn settled_at(&self) -> Option<nat> {
        self.settled_at@
    }

    /// Whether the last read of the underlying reader brought no byte.
    spec fn last_read_empty(&self) -> bool {
        self.last_read_empty@
    }

    /// The verdict so far: `None` while undetermined.
    spec fn verdict(&self) -> Option<Option<BomType>> {
        self.bom_state().verdict()
    }

    /// The bytes read after the BOM and not handed out yet.
    spec fn pending(&self) -> Seq<u8> {
        self.bom_state().pending()
    }

    /// See [`well_formed_detection`].
    spec fn wf(&self) -> bool {
        well_formed_detection(
            self.bom_state(),
            self.candidates(),
            self.stream(),
            self.output(),
            self.settled_at(),
        )
    }

    #[verifier::type_invariant]
    spec fn keeps_well_formed(&self) -> bool {
        self.wf()
    }
}

impl<'a> BomDetection<'a> {
    /// A detection that has read nothing yet.
    fn new(bom_types: &'a [BomType]) -> (r: Self)
        ensures
            r.wf(),
            r.candidates() == bom_types@,
            r.stream() == Seq::<u8>::empty(),
            r.output() == Seq::<u8>::empty(),
            r.pending() == Seq::<u8>::empty(),
            r.settled_at() is None,
            r.verdict() == (if bom_types@.len() == 0 {
                Some(None::<BomType>)
            } else {
                None
            }),
    {
        let state = if bom_types.len() == 0 {
            BomState::Final(None)
        } else {
            BomState::default()
        };
        proof {
            if bom_types@.len() > 0 {
                lemma_marker_length(bom_types@[0]);
                assert(Seq::<u8>::empty() =~= marker(bom_types@[0]).subrange(0, 0));
                assert(could_start(Seq::<u8>::empty(), marker(bom_types@[0])));
            } else {
                lemma_no_candidates(bom_types@, Seq::empty(), 0);
            }
            assert(Seq::<u8>::empty().skip(0) =~= Seq::<u8>::empty());
            assert(Seq::<u8>::empty().subrange(0, 0) =~= Seq::<u8>::empty());
        }
        BomDetection {
            state,
            bom_types,
            consumed: Ghost(Seq::empty()),
            delivered: Ghost(Seq::empty()),
            settled_at: Ghost(None),
            last_read_empty: Ghost(false),
        }
    }

    /// The verdict so far.
    fn bom_found(&self) -> (r: Option<Option<BomType>>)
        ensures
            r == self.verdict(),
    {
        self.state.bom_found()
    }

    /// Reads the leading bytes of the stream until the BOM presence is known. A read that
    /// brings no new byte ends the stream: the verdict is then settled on the bytes held.
    ///
    /// Returns whether a read brought no new byte.
    fn determine<R: std::io::Read>(&mut self, reader: &mut R) -> (r: crate::Result<bool>)
        ensures
            r matches Ok(true) ==> old(self).verdict() is None && final(self).last_read_empty(),
            final(self).wf(),
            final(self).candidates() == old(self).candidates(),
            final(self).output() == old(self).output(),
            old(self).stream().is_prefix_of(final(self).stream()),
            old(self).verdict() is Some ==> *final(self) == *old(self) && *final(reader) == *old(
                reader,
            ),
            r is Ok ==> final(self).verdict() is Some,
            r is Err ==> final(self).verdict() is None,
            old(self).verdict() is None && final(self).settled_at() is Some
                ==> final(self).last_read_empty(),
    {
        proof {
            use_type_invariant(&*self);
        }
        let ghost start = *self;
        let ghost start_reader = *reader;
        loop
            invariant
                start == *old(self),
                start_reader == *old(reader),
                self.wf(),
                self.candidates() == start.candidates(),
                self.output() == start.output(),
                start.stream().is_prefix_of(self.stream()),
                start.verdict() is Some ==> *self == start && *reader == start_reader,
                start.verdict() is None ==> self.settled_at() is None,
            decreases
                match self.state {
                    BomState::Initial { start_bytes } => 5 - start_bytes@.len(),
                    _ => 0,
                },
        {
            let start_bytes = match self.state {
                BomState::Initial { start_bytes } => start_bytes,
                _ => return Ok(false),
            };
            let (step, fresh) = Self::state_after_initial(&start_bytes, reader, self.bom_types);
            match step {
                Err(e) => {
                    return Err(e);
                },
                Ok(NextStateResult::NewState(new_state)) => {
                    let ghost leading = new_state.accounted();
                    proof {
                        assert(self.stream() + fresh@ == leading);
                        assert(start.stream().is_prefix_of(leading)) by {
                            assert(leading.subrange(0, start_bytes@.len() as int) =~= start_bytes@);
                            assert(start.stream().is_prefix_of(start_bytes@));
                        }
                        if let Some(v) = new_state.verdict() {
                            assert(leading.subrange(0, verdict_marker(v).len() as int)
                                =~= verdict_marker(v));
                            assert(leading.skip(verdict_marker(v).len() as int)
                                =~= new_state.pending());
                            assert(Seq::<u8>::empty() + new_state.pending() =~= new_state.pending());
                        }
                    }
                    *self = BomDetection {
                        state: new_state,
                        bom_types: self.bom_types,
                        consumed: Ghost(self.consumed@ + fresh@),
                        delivered: self.delivered,
                        settled_at: self.settled_at,
                        last_read_empty: Ghost(false),
                    };
                },
                Ok(NextStateResult::IncompleteRead(new_start_bytes)) => {
                    *self = BomDetection {
                        state: BomState::Initial { start_bytes: new_start_bytes },
                        bom_types: self.bom_types,
                        consumed: self.consumed,
                        delivered: self.delivered,
                        settled_at: self.settled_at,
                        last_read_empty: Ghost(true),
                    };
                    self.settle();
                    return Ok(true);
                },
            }
        }
    }

    /// One read of the leading bytes of the stream, the state it leads to, and the bytes it
    /// brought.
    fn state_after_initial<R: std::io::Read>(
        start_bytes: &BomBytesPushBuffer,
        reader: &mut R,
        bom_types: &[BomType],
    ) -> (r: (crate::Result<NextStateResult>, Ghost<Seq<u8>>))
        requires
            start_bytes@.len() < MAX_BOM_LENGTH,
        ensures
            r.0 matches Ok(NextStateResult::IncompleteRead(bytes)) ==> {
                &&& bytes@ == start_bytes@
                &&& r.1@ == Seq::<u8>::empty()
            },
            r.0 matches Ok(NextStateResult::NewState(state)) ==> {
                &&& state.well_formed()
                &&& state.accounted() == start_bytes@ + r.1@
                &&& state matches BomState::PostInitBuffer { position, .. } ==> position == 0
                &&& match state.verdict() {
                    None => {
                        &&& detect(bom_types@, state.held()) is None
                        &&& r.1@.len() > 0
                    },
                    Some(v) => detect(bom_types@, state.accounted()) == Some(v),
                }
            },
    {
        let (read, fresh) = BomState::read_leading(start_bytes, reader, bom_types);
        let result = match read {
            Ok(result) => result,
            Err(e) => return (Err(e), fresh),
        };
        match result {
            // no new bytes were read
            TryReadBomResult::Incomplete(
                new_start_bytes,
            ) if start_bytes.byte_count() == new_start_bytes.byte_count() => {
                proof {
                    assert(fresh@ =~= Seq::<u8>::empty()) by {
                        assert((start_bytes@ + fresh@).len() == start_bytes@.len());
                    }
                    assert(new_start_bytes@ =~= start_bytes@ + fresh@);
                }
                (Ok(NextStateResult::IncompleteRead(new_start_bytes)), fresh)
            },
            // new bytes were read
            TryReadBomResult::Incomplete(new_start_bytes) => {
                proof {
                    if new_start_bytes@.len() >= 4 {
                        lemma_decided_when_full(bom_types@, new_start_bytes@);
                    }
                }
                (
                    Ok(NextStateResult::NewState(BomState::Initial { start_bytes: new_start_bytes })),
                    fresh,
                )
            },
            // the BOM presence and type was determined
            TryReadBomResult::Complete {
                bom_type,
                bytes_after_bom,
            } if bytes_after_bom.byte_count() == 0 => {
                proof {
                    assert(verdict_marker(bom_type) + bytes_after_bom@ =~= verdict_marker(bom_type));
                }
                (Ok(NextStateResult::NewState(BomState::Final(bom_type))), fresh)
            },
            TryReadBomResult::Complete { bom_type, bytes_after_bom } => {
                proof {
                    assert(bytes_after_bom@.skip(0) =~= bytes_after_bom@);
                }
                (
                    Ok(
                        NextStateResult::NewState(
                            BomState::PostInitBuffer { bytes_after_bom, position: 0, bom_type },
                        ),
                    ),
                    fresh,
                )
            },
        }
    }

    /// Hands out into `buf` the bytes that follow the BOM, driving the detection first.
    #[verifier::rlimit(40)]
    fn read_payload<R: std::io::Read>(&mut self, reader: &mut R, buf: &mut [u8]) -> (r:
        crate::Result<usize>)
        ensures
            final(self).wf(),
            final(self).candidates() == old(self).candidates(),
            old(self).verdict() is Some ==> final(self).settled_at() == old(self).settled_at(),
            final(buf)@.len() == old(buf)@.len(),
            old(self).stream().is_prefix_of(final(self).stream()),
            old(self).verdict() is Some ==> final(self).verdict() == old(self).verdict(),
            0 < old(buf)@.len() <= old(self).pending().len() ==> {
                &&& r == Ok::<usize, std::io::Error>(old(buf)@.len() as usize)
                &&& final(buf)@ == old(self).pending().subrange(0, old(buf)@.len() as int)
                &&& final(self).stream() == old(self).stream()
            },
            old(self).pending().len() < old(buf)@.len() ==> (r matches Ok(n) ==> {
                &&& old(self).pending().len() <= n
                &&& final(buf)@.subrange(0, old(self).pending().len() as int) == old(self).pending()
            }),
            old(self).verdict() is Some && old(self).pending().len() < old(buf)@.len() ==> (
            r matches Ok(n) ==> {
                &&& final(self).pending() == Seq::<u8>::empty()
                &&& final(self).stream() == old(self).stream() + final(buf)@.subrange(
                    old(self).pending().len() as int,
                    n as int,
                )
            }),
            match r {
                Ok(n) => {
                    &&& n <= old(buf)@.len()
                    &&& final(self).output() == old(self).output() + final(buf)@.subrange(0, n as int)
                    &&& (n == old(buf)@.len() || final(self).pending() == Seq::<u8>::empty())
                    &&& (n == 0 && old(buf)@.len() > 0 ==> {
                        &&& final(self).last_read_empty()
                        &&& final(self).verdict() is Some
                        &&& final(self).pending() == Seq::<u8>::empty()
                    })
                },
                Err(_) => {
                    &&& final(self).output() == old(self).output()
                    &&& old(self).verdict() is Some ==> {
                        &&& final(self).stream() == old(self).stream()
                        &&& final(self).bom_state() == old(self).bom_state()
                    }
                    &&& old(self).verdict() is None ==> (final(self).verdict() is None
                        || final(self).pending() == Seq::<u8>::empty())
                },
            },
    {
        let was_undetermined = match self.state {
            BomState::Initial { .. } => true,
            _ => false,
        };
        let ended = self.determine(reader)?;
        proof {
            use_type_invariant(&*self);
        }
        let ghost before = *self;
        match self.state {
            BomState::Initial { .. } => Ok(0),
            BomState::PostInitBuffer { bytes_after_bom, position, bom_type } => {
                let count = bytes_after_bom.byte_count();
                let source = bytes_after_bom.bytes();
                let left = count - position;
                let served = if buf.len() < left {
                    buf.len()
                } else {
                    left
                };
                let mut i: usize = 0;
                while i < served
                    invariant
                        source@ == bytes_after_bom@,
                        count == source@.len(),
                        position + served <= count,
                        i <= served,
                        served <= buf@.len(),
                        buf@.len() == old(buf)@.len(),
                        buf@.subrange(0, i as int) == source@.subrange(
                            position as int,
                            position + i,
                        ),
                    decreases served - i,
                {
                    buf[i] = source[position + i];
                    assert(buf@.subrange(0, i + 1) =~= source@.subrange(
                        position as int,
                        position + i + 1,
                    ));
                    i = i + 1;
                }
                let ghost head = buf@.subrange(0, served as int);
                proof {
                    assert(head =~= before.pending().subrange(0, served as int));
                    assert(before.pending() =~= head + bytes_after_bom@.skip(position + served));
                    assert(before.output() + head + bytes_after_bom@.skip(position + served)
                        =~= before.output() + before.pending());
                }
                if position + served == count {
                    let drained = BomDetection {
                        state: BomState::Final(bom_type),
                        bom_types: self.bom_types,
                        consumed: self.consumed,
                        delivered: Ghost(before.output() + head),
                        settled_at: self.settled_at,
                        last_read_empty: self.last_read_empty,
                    };
                    if served < buf.len() && !ended {
                        let (read, fresh) = read_at(reader, buf, served);
                        match read {
                            Ok(extra) => {
                                proof {
                                    assert(buf@.subrange(0, served as int) == head);
                                    assert(buf@.subrange(0, served + extra) =~= head + fresh@);
                                    assert(before.output() + head + fresh@ =~= before.output()
                                        + buf@.subrange(0, served + extra));
                                    self.lemma_extend(fresh@);
                                }
                                *self = BomDetection {
                                    state: BomState::Final(bom_type),
                                    bom_types: self.bom_types,
                                    consumed: Ghost(before.stream() + fresh@),
                                    delivered: Ghost(
                                        before.output() + buf@.subrange(0, served + extra),
                                    ),
                                    settled_at: self.settled_at,
                                    last_read_empty: Ghost(extra == 0),
                                };
                                Ok(served + extra)
                            },
                            Err(e) => {
                                if was_undetermined {
                                    // the bytes read by the detection are handed out, and
                                    // the error is left to the next read
                                    proof {
                                        assert(buf@.subrange(0, served as int) == head);
                                    }
                                    *self = drained;
                                    Ok(served)
                                } else {
                                    Err(e)
                                }
                            },
                        }
                    } else {
                        *self = drained;
                        Ok(served)
                    }
                } else {
                    *self = BomDetection {
                        state: BomState::PostInitBuffer {
                            bytes_after_bom,
                            position: position + served,
                            bom_type,
                        },
                        bom_types: self.bom_types,
                        consumed: self.consumed,
                        delivered: Ghost(before.output() + head),
                        settled_at: self.settled_at,
                        last_read_empty: self.last_read_empty,
                    };
                    Ok(served)
                }
            },
            BomState::Final(bom_type) => {
                if ended {
                    // the reader has just told the end of the stream
                    return Ok(0);
                }
                let (read, fresh) = read_at(reader, buf, 0);
                let n = match read {
                    Ok(n) => n,
                    Err(e) => return Err(e),
                };
                proof {
                    assert(buf@.subrange(0, n as int) == fresh@);
                    self.lemma_extend(fresh@);
                }
                *self = BomDetection {
                    state: BomState::Final(bom_type),
                    bom_types: self.bom_types,
                    consumed: Ghost(before.stream() + fresh@),
                    delivered: Ghost(before.output() + buf@.subrange(0, n as int)),
                    settled_at: self.settled_at,
                    last_read_empty: Ghost(n == 0),
                };
                Ok(n)
            },
        }
    }

    /// Bytes read once the verdict is known go after the mark, and leave the verdict as it is.
    proof fn lemma_extend(&self, fresh: Seq<u8>)
        requires
            self.wf(),
            self.verdict() is Some,
        ensures
            ({
                let v = self.verdict()->Some_0;
                let m = verdict_marker(v).len() as int;
                &&& starts_with(self.stream() + fresh, verdict_marker(v))
                &&& (self.stream() + fresh).skip(m) == self.stream().skip(m) + fresh
                &&& self.settled_at() is None ==> detect(self.candidates(), self.stream() + fresh)
                    == Some(v)
                &&& self.settled_at() matches Some(len) ==> (self.stream() + fresh).subrange(
                    0,
                    len as int,
                ) == self.stream().subrange(0, len as int)
                &&& self.stream().is_prefix_of(self.stream() + fresh)
            }),
    {
        let v = self.verdict()->Some_0;
        let m = verdict_marker(v).len() as int;
        let s = self.stream();
        assert((s + fresh).subrange(0, m) =~= s.subrange(0, m));
        assert((s + fresh).skip(m) =~= s.skip(m) + fresh);
        assert((s + fresh).subrange(0, s.len() as int) =~= s);
        if let Some(len) = self.settled_at() {
            assert((s + fresh).subrange(0, len as int) =~= s.subrange(0, len as int));
        } else {
            lemma_detect_stable(self.candidates(), s, fresh);
        }
    }

    /// Takes the end of the stream as reached: an undetermined verdict is settled on the
    /// preferred candidate whose whole mark begins the bytes held (one that a longer mark
    /// still being possible held back), or on "no BOM", and the bytes held after that mark
    /// become payload.
    fn settle(&mut self) -> (r: Option<BomType>)
        ensures
            final(self).wf(),
            final(self).candidates() == old(self).candidates(),
            final(self).stream() == old(self).stream(),
            final(self).output() == old(self).output(),
            final(self).last_read_empty() == old(self).last_read_empty(),
            old(self).verdict() matches Some(v) ==> *final(self) == *old(self) && r == v,
            old(self).verdict() is None ==> {
                &&& r == first_match_from(old(self).candidates(), old(self).stream(), 0)
                &&& final(self).verdict() == Some(r)
                &&& final(self).pending() == old(self).stream().skip(verdict_marker(r).len() as int)
                &&& final(self).settled_at() == Some(old(self).stream().len())
            },
    {
        proof {
            use_type_invariant(&*self);
        }
        match self.state {
            BomState::Initial { start_bytes } => {
                let held = start_bytes.bytes();
                let bom_type = BomType::first_full_match(held, self.bom_types);
                let mark_length = match bom_type {
                    Some(bom) => bom.bom_length(),
                    None => 0,
                };
                proof {
                    if bom_type is Some {
                        lemma_first_match_is_candidate(self.candidates(), held@, 0);
                    }
                    assert(held@.subrange(0, mark_length as int) =~= verdict_marker(bom_type));
                }
                let rest = vstd::slice::slice_subrange(held, mark_length, held.len());
                let state = if rest.len() == 0 {
                    BomState::Final(bom_type)
                } else {
                    BomState::PostInitBuffer {
                        bytes_after_bom: BomBytesPushBuffer::from_slice(rest),
                        position: 0,
                        bom_type,
                    }
                };
                proof {
                    let s = self.stream();
                    assert(rest@.subrange(0, rest@.len() as int) =~= rest@);
                    assert(rest@.skip(0) =~= rest@);
                    assert(rest@ =~= s.skip(mark_length as int));
                    assert(s.subrange(0, s.len() as int) =~= s);
                    assert(Seq::<u8>::empty() + state.pending() =~= state.pending());
                    assert(state.well_formed());
                    assert(state.verdict() == Some(bom_type));
                    assert(starts_with(s, verdict_marker(bom_type)));
                    assert(self.output() + state.pending() == s.skip(
                        verdict_marker(bom_type).len() as int,
                    ));
                    assert(bom_type == first_match_from(
                        self.candidates(),
                        s.subrange(0, s.len() as int),
                        0,
                    ));
                }
                *self = BomDetection {
                    state,
                    bom_types: self.bom_types,
                    consumed: self.consumed,
                    delivered: self.delivered,
                    settled_at: Ghost(Some(self.stream().len())),
                    last_read_empty: self.last_read_empty,
                };
                bom_type
            },
            BomState::PostInitBuffer { bom_type, .. } => bom_type,
            BomState::Final(bom_type) => bom_type,
        }
    }
}

impl<'a, R: std::io::Read> SkipEncodingBom<'a, R> {
    /// Initialize an encoding BOM skip struct given any stream reader.
    ///
    /// # Arguments
    ///
    /// * `bom_types` - a slice with the types of BOM to check for. To skip any of the supported BOMs, pass [`BomType::all`].
    /// * `reader` - the underlying input stream reader.
    ///
    /// With no BOM type to look for, there is no BOM from the start.
    pub fn new(bom_types: &'a [BomType], reader: R) -> (r: Self)
        ensures
            r.wf(),
            r.candidates() == bom_types@,
            r.inner() == reader,
            r.stream() == Seq::<u8>::empty(),
            r.output() == Seq::<u8>::empty(),
            r.pending() == Seq::<u8>::empty(),
            r.settled_at() is None,
            r.verdict() == (if bom_types@.len() == 0 {
                Some(None::<BomType>)
            } else {
                None
            }),
    {
        Self { reader, detection: BomDetection::new(bom_types) }
    }

    /// Read the BOM from a reader if it is present and return the BOM found as an [`Option`] with a [`BomType`] or [`None`] if it was not found.
    ///
    /// It reads until the BOM presence is known. A read that brings no new byte is taken as
    /// the end of the stream: the verdict is then the preferred candidate whose whole mark
    /// the bytes read begin with, or [`None`], and the bytes after that mark are payload.
    /// Once the verdict is known, the call reads nothing and returns it again.
    pub fn read_bom(&mut self) -> (r: crate::Result<Option<BomType>>)
        ensures
            final(self).wf(),
            final(self).candidates() == old(self).candidates(),
            final(self).output() == old(self).output(),
            old(self).stream().is_prefix_of(final(self).stream()),
            old(self).verdict() is Some ==> *final(self) == *old(self),
            match r {
                Ok(found) => final(self).verdict() == Some(found),
                Err(_) => final(self).verdict() is None,
            },
            r is Ok && old(self).verdict() is None && final(self).settled_at() is Some
                ==> final(self).last_read_empty(),
    {
        self.detection.determine(&mut self.reader)?;
        proof {
            use_type_invariant(&self.detection);
        }
        match self.detection.bom_found() {
            Some(bom_type) => Ok(bom_type),
            None => Ok(None),
        }
    }

    /// Return the BOM previously found as an inner [`Option`] with a [`BomType`] or [`None`] if it was not found, or [`None`] for the outer option if the presence of a BOM could not be determined yet.
    pub fn bom_found(&self) -> (r: Option<Option<BomType>>)
        ensures
            r == self.verdict(),
    {
        self.detection.bom_found()
    }
    /// Fills the front of `buf` with the bytes of the stream that follow the BOM and returns
    /// how many it wrote.
    ///
    /// While the BOM presence is undetermined, the leading bytes are read first; they come out
    /// once it is known (a read that brings no new byte ends the stream and settles it), and
    /// any room left in `buf` is then filled by one more read of the underlying reader,
    /// unless the stream has just ended. The
    /// call returns fewer bytes than `buf` holds only when nothing is left pending, and 0
    /// bytes for a nonempty `buf` only when the verdict is known, nothing is pending and the
    /// last read of the underlying reader brought no byte.
    ///
    /// An error of the underlying reader is returned as it is, with nothing handed out: a
    /// known verdict and its pending bytes are kept, and the bytes taken by the reads that
    /// succeeded before it stay held. Where the verdict is reached in this call and the
    /// read that would fill the rest of `buf` fails, the bytes already placed in `buf` are
    /// returned and the error is left to the next read.
    pub fn read_payload(&mut self, buf: &mut [u8]) -> (r: crate::Result<usize>)
        ensures
            final(self).wf(),
            final(self).candidates() == old(self).candidates(),
            old(self).verdict() is Some ==> final(self).settled_at() == old(self).settled_at(),
            final(buf)@.len() == old(buf)@.len(),
            old(self).stream().is_prefix_of(final(self).stream()),
            old(self).verdict() is Some ==> final(self).verdict() == old(self).verdict(),
            0 < old(buf)@.len() <= old(self).pending().len() ==> {
                &&& r == Ok::<usize, std::io::Error>(old(buf)@.len() as usize)
                &&& final(buf)@ == old(self).pending().subrange(0, old(buf)@.len() as int)
                &&& final(self).stream() == old(self).stream()
            },
            old(self).pending().len() < old(buf)@.len() ==> (r matches Ok(n) ==> {
                &&& old(self).pending().len() <= n
                &&& final(buf)@.subrange(0, old(self).pending().len() as int) == old(self).pending()
            }),
            old(self).verdict() is Some && old(self).pending().len() < old(buf)@.len() ==> (
            r matches Ok(n) ==> {
                &&& final(self).pending() == Seq::<u8>::empty()
                &&& final(self).stream() == old(self).stream() + final(buf)@.subrange(
                    old(self).pending().len() as int,
                    n as int,
                )
            }),
            match r {
                Ok(n) => {
                    &&& n <= old(buf)@.len()
                    &&& final(self).output() == old(self).output() + final(buf)@.subrange(0, n as int)
                    &&& (n == old(buf)@.len() || final(self).pending() == Seq::<u8>::empty())
                    &&& (n == 0 && old(buf)@.len() > 0 ==> {
                        &&& final(self).last_read_empty()
                        &&& final(self).verdict() is Some
                        &&& final(self).pending() == Seq::<u8>::empty()
                    })
                },
                Err(_) => {
                    &&& final(self).output() == old(self).output()
                    &&& old(self).verdict() is Some ==> {
                        &&& final(self).stream() == old(self).stream()
                        &&& final(self).bom_state() == old(self).bom_state()
                    }
                    &&& old(self).verdict() is None ==> (final(self).verdict() is None
                        || final(self).pending() == Seq::<u8>::empty())
                },
            },
    {
        self.detection.read_payload(&mut self.reader, buf)
    }

    /// Unwraps this `SkipEncodingBom<R>`, returning the underlying reader.
    ///
    /// Bytes read from it and not handed out yet are lost.
    pub fn into_inner(self) -> (r: R)
        ensures
            r == self.inner(),
    {
        self.reader
    }

    /// Get a shared reference to the underlying reader.
    pub fn get_ref(&self) -> (r: &R)
        ensures
            *r == self.inner(),
    {
        &self.reader
    }

    /// Get a mutable reference to the underlying reader.
    pub fn get_mut(&mut self) -> (r: &mut R)
        ensures
            *r == old(self).inner(),
            final(self).inner() == *final(r),
            final(self).bom_state() == old(self).bom_state(),
            final(self).candidates() == old(self).candidates(),
            final(self).stream() == old(self).stream(),
            final(self).output() == old(self).output(),
            final(self).settled_at() == old(self).settled_at(),
            final(self).last_read_empty() == old(self).last_read_empty(),
            final(self).wf(),
    {
        proof {
            use_type_invariant(&self.detection);
        }
        &mut self.reader
    }
}

impl<'a, R: std::io::Read> std::io::Read for SkipEncodingBom<'a, R> {
    /// See [`SkipEncodingBom::read_payload`].
    fn read(&mut self, buf: &mut [u8]) -> (r: std::io::Result<usize>)
        ensures
            final(self).wf(),
            final(self).candidates() == old(self).candidates(),
            old(self).verdict() is Some ==> final(self).settled_at() == old(self).settled_at(),
            final(buf)@.len() == old(buf)@.len(),
            old(self).stream().is_prefix_of(final(self).stream()),
            old(self).verdict() is Some ==> final(self).verdict() == old(self).verdict(),
            0 < old(buf)@.len() <= old(self).pending().len() ==> {
                &&& r == Ok::<usize, std::io::Error>(old(buf)@.len() as usize)
                &&& final(buf)@ == old(self).pending().subrange(0, old(buf)@.len() as int)
                &&& final(self).stream() == old(self).stream()
            },
            old(self).pending().len() < old(buf)@.len() ==> (r matches Ok(n) ==> {
                &&& old(self).pending().len() <= n
                &&& final(buf)@.subrange(0, old(self).pending().len() as int) == old(self).pending()
            }),
            old(self).verdict() is Some && old(self).pending().len() < old(buf)@.len() ==> (
            r matches Ok(n) ==> {
                &&& final(self).pending() == Seq::<u8>::empty()
                &&& final(self).stream() == old(self).stream() + final(buf)@.subrange(
                    old(self).pending().len() as int,
                    n as int,
                )
            }),
            match r {
                Ok(n) => {
                    &&& n <= old(buf)@.len()
                    &&& final(self).output() == old(self).output() + final(buf)@.subrange(0, n as int)
                    &&& (n == old(buf)@.len() || final(self).pending() == Seq::<u8>::empty())
                    &&& (n == 0 && old(buf)@.len() > 0 ==> {
                        &&& final(self).last_read_empty()
                        &&& final(self).verdict() is Some
                        &&& final(self).pending() == Seq::<u8>::empty()
                    })
                },
                Err(_) => {
                    &&& final(self).output() == old(self).output()
                    &&& old(self).verdict() is Some ==> {
                        &&& final(self).stream() == old(self).stream()
                        &&& final(self).bom_state() == old(self).bom_state()
                    }
                    &&& old(self).verdict() is None ==> (final(self).verdict() is None
                        || final(self).pending() == Seq::<u8>::empty())
                },
            },
    {
        self.read_payload(buf)
    }
}

} // verus!
