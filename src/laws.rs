use vstd::prelude::*;

use crate::bom_type::{
    BomType, could_start, detect, lemma_decided_when_full, lemma_detect_marker,
    first_match_from, lemma_first_match_is_candidate, marker, starts_with,
};
use crate::skip_encoding_bom::SkipEncodingBom;

verus! {

/// A stream made of the mark of a candidate `bom` followed by `payload` is found to carry
/// `bom`, and what is handed out, followed by what is still pending, is exactly `payload`.
///
/// This holds unless a longer candidate mark begins the stream or could still begin it
/// (with both UTF-16 LE and UTF-32 BE looked for, `FF FE 00 00` is UTF-32 BE), or the
/// verdict was settled before the mark was complete, by a read that brought no byte (the
/// stream is then taken to have ended). Once nothing is pending, exactly `payload` was
/// handed out.
pub proof fn lemma_mark_then_payload<R>(d: SkipEncodingBom<'_, R>, bom: BomType, payload: Seq<u8>)
    requires
        d.wf(),
        d.settled_at() is None,
        d.candidates().contains(bom),
        d.stream() == marker(bom) + payload,
        forall|other: BomType|
            d.candidates().contains(other) && marker(other).len() > marker(bom).len()
                ==> !starts_with(d.stream(), #[trigger] marker(other)) && !could_start(
                d.stream(),
                marker(other),
            ),
    ensures
        d.verdict() == Some(Some(bom)),
        d.output() + d.pending() == payload,
        d.pending() == Seq::<u8>::empty() ==> d.output() == payload,
{
    assert(d.stream().subrange(0, marker(bom).len() as int) =~= marker(bom));
    lemma_detect_marker(d.candidates(), bom, d.stream());
    assert(d.stream().skip(marker(bom).len() as int) =~= payload);
    assert(d.output() + Seq::<u8>::empty() =~= d.output());
}

/// A stream that begins with no candidate mark is found to carry no BOM, once the verdict
/// is known (by its bytes or at its end), and every byte of it is handed out or pending,
/// unchanged and in order.
pub proof fn lemma_no_mark_passes_through<R>(d: SkipEncodingBom<'_, R>)
    requires
        d.wf(),
        d.verdict() is Some,
        forall|j: int|
            0 <= j < d.candidates().len() ==> !starts_with(
                d.stream(),
                marker(#[trigger] d.candidates()[j]),
            ),
    ensures
        d.verdict() == Some(None::<BomType>),
        d.output() + d.pending() == d.stream(),
{
    let head = match d.settled_at() {
        Some(len) => d.stream().subrange(0, len as int),
        None => d.stream(),
    };
    let found = first_match_from(d.candidates(), head, 0);
    if let Some(bom) = found {
        lemma_first_match_is_candidate(d.candidates(), head, 0);
        let j = choose|j: int| 0 <= j < d.candidates().len() && d.candidates()[j] == bom;
        assert(d.stream().subrange(0, marker(bom).len() as int) =~= head.subrange(
            0,
            marker(bom).len() as int,
        ));
        assert(!starts_with(d.stream(), marker(d.candidates()[j])));
    }
    assert(d.stream().skip(0) =~= d.stream());
}

/// The verdict stays undetermined only while a candidate mark could still begin the
/// stream: fewer than four bytes were read, and none was handed out.
pub proof fn lemma_undetermined_only_while_ambiguous<R>(d: SkipEncodingBom<'_, R>)
    requires
        d.wf(),
        d.verdict() is None,
    ensures
        d.output() == Seq::<u8>::empty(),
        d.stream().len() < 4,
        exists|j: int|
            0 <= j < d.candidates().len() && could_start(
                d.stream(),
                marker(#[trigger] d.candidates()[j]),
            ),
{
    if d.stream().len() >= 4 {
        lemma_decided_when_full(d.candidates(), d.stream());
    }
}

/// The verdict and the bytes handed out depend on the bytes of the stream alone: not on
/// how the underlying reader split them into reads, nor on the sizes of the caller's
/// buffers. Once nothing is pending, both decorators have handed out the same bytes.
/// Where a read that brought no byte settled the verdict, it did so at the same
/// point of the stream in both.
pub proof fn lemma_same_stream_same_result<R1, R2>(
    d1: SkipEncodingBom<'_, R1>,
    d2: SkipEncodingBom<'_, R2>,
)
    requires
        d1.wf(),
        d2.wf(),
        d1.candidates() == d2.candidates(),
        d1.stream() == d2.stream(),
        d1.settled_at() == d2.settled_at(),
    ensures
        d1.verdict() == d2.verdict(),
        d1.output() + d1.pending() == d2.output() + d2.pending(),
        d1.pending() == Seq::<u8>::empty() && d2.pending() == Seq::<u8>::empty() ==> d1.output()
            == d2.output(),
{
    if d1.pending() == Seq::<u8>::empty() && d2.pending() == Seq::<u8>::empty() {
        assert(d1.output() =~= d1.output() + d1.pending());
        assert(d2.output() =~= d2.output() + d2.pending());
    }
}

/// Where the mark of `short` (two bytes) is the start of the mark of `long` (four bytes) and
/// both are looked for, a stream that begins with the mark of `long` is never taken to carry
/// `short`: while it could still be `long` the verdict waits, and once `long` is complete
/// the verdict is `long`.
pub proof fn lemma_longer_mark_wins<R>(d: SkipEncodingBom<'_, R>, short: BomType, long: BomType)
    requires
        d.wf(),
        d.settled_at() is None,
        d.candidates().contains(short),
        d.candidates().contains(long),
        marker(short).len() == 2,
        marker(long).len() == 4,
        marker(long).subrange(0, 2) == marker(short),
        starts_with(d.stream(), marker(long)) || could_start(d.stream(), marker(long)),
    ensures
        d.verdict() != Some(Some(short)),
        starts_with(d.stream(), marker(long)) ==> d.verdict() == Some(Some(long)),
        could_start(d.stream(), marker(long)) ==> d.verdict() is None,
{
    let s = d.stream();
    let c = d.candidates();
    if starts_with(s, marker(long)) {
        assert forall|other: BomType|
            c.contains(other) && marker(other).len() > marker(long).len() implies !starts_with(
            s,
            #[trigger] marker(other),
        ) && !could_start(s, marker(other)) by {
            crate::bom_type::lemma_marker_length(other);
        }
        lemma_detect_marker(c, long, s);
    } else {
        let j = choose|j: int| 0 <= j < c.len() && c[j] == long;
        assert(could_start(s, marker(c[j])));
        assert(detect(c, s) is None);
    }
}

} // verus!
