use vstd::prelude::*;

verus! {

/// Type of encoding BOM.
///
/// See the questions about the BOM in the Unicode FAQ: <https://www.unicode.org/faq/utf_bom.html#bom1>.
#[derive(Debug, Clone, Copy, PartialEq, Eq, Structural, PartialOrd, Ord, Hash)]
pub enum BomType {
    /// Unicode with the UTF-8 format.
    UTF8,
    /// Unicode with the UTF-16 LE format.
    UTF16LE,
    /// Unicode with the UTF-16 BE format.
    UTF16BE,
    /// Unicode with the UTF-32 LE format.
    UTF32LE,
    /// Unicode with the UTF-32 BE format.
    UTF32BE,
    /// Unicode with the UTF-7 format.
    UTF7,
    /// Unicode with the UTF-1 format.
    UTF1,
    /// Unicode with the UTF-EBCDIC format.
    UTFEBDIC,
    /// Unicode with the SCSU format.
    SCSU,
    /// Unicode with the BOCU-1 format.
    BOCU1,
    /// GB18030 format: Information Technology — Chinese coded character set.
    GB1803,
}

/// Test result for the compatibility with a single BOM.
#[derive(Debug, Clone, Copy, PartialEq, Eq, Structural)]
pub enum BomBytesTest {
    /// The byte array tested is not long enough to confirm whether the BOM is present or absent.
    Incomplete,
    /// The byte array tested is confirmed not to start with the BOM.
    NotBom,
    /// The byte array tested is confirmed to start with the BOM.
    StartsWithBom,
}

/// Test result for the compatibility with multiple BOMs.
#[derive(Debug, Clone, Copy, PartialEq, Eq)]
pub enum BomsBytesTest<'a> {
    /// The byte array tested is not long enough to confirm whether one of the BOMs is present.
    Incomplete,
    /// The byte array tested is confirmed to start with either one of the BOMs or none of them.
    Complete {
        /// The BOM type found or `None` if there is no compatible BOM.
        bom_type: Option<BomType>,
        /// Additional bytes found in the tested buffer after the BOM.
        additional_bytes: &'a [u8],
    },
}

/// The bytes of the mark of `bom`.
pub open spec fn marker(bom: BomType) -> Seq<u8> {
    match bom {
        BomType::UTF8 => seq![0xEFu8, 0xBBu8, 0xBFu8],
        BomType::UTF16LE => seq![0xFFu8, 0xFEu8],
        BomType::UTF16BE => seq![0xFEu8, 0xFFu8],
        BomType::UTF32LE => seq![0x00u8, 0x00u8, 0xFFu8, 0xFEu8],
        BomType::UTF32BE => seq![0xFFu8, 0xFEu8, 0x00u8, 0x00u8],
        BomType::UTF7 => seq![0x2Bu8, 0x2Fu8, 0x76u8],
        BomType::UTF1 => seq![0xF7u8, 0x64u8, 0x4Cu8],
        BomType::UTFEBDIC => seq![0xDDu8, 0x73u8, 0x66u8, 0x73u8],
        BomType::SCSU => seq![0x0Eu8, 0xFEu8, 0xFFu8],
        BomType::BOCU1 => seq![0xFBu8, 0xEEu8, 0x28u8],
        BomType::GB1803 => seq![0x84u8, 0x31u8, 0x95u8, 0x33u8],
    }
}

/// The mark bytes that a verdict stands for: none for "no BOM".
pub open spec fn verdict_marker(verdict: Option<BomType>) -> Seq<u8> {
    match verdict {
        Some(bom) => marker(bom),
        None => Seq::empty(),
    }
}

/// Every BOM type, in the order in which full matches are preferred: a mark comes
/// before any shorter mark that is a prefix of it.
pub open spec fn catalog() -> Seq<BomType> {
    seq![
        BomType::UTF8,
        BomType::UTF32LE,
        BomType::UTF32BE,
        BomType::UTF16LE,
        BomType::UTF16BE,
        BomType::UTF7,
        BomType::UTF1,
        BomType::UTFEBDIC,
        BomType::SCSU,
        BomType::BOCU1,
        BomType::GB1803,
    ]
}

/// `s` begins with the whole of `m`.
pub open spec fn starts_with(s: Seq<u8>, m: Seq<u8>) -> bool {
    m.len() <= s.len() && s.subrange(0, m.len() as int) == m
}

/// `s` is a strict prefix of `m`: more bytes could still complete `m`.
pub open spec fn could_start(s: Seq<u8>, m: Seq<u8>) -> bool {
    s.len() < m.len() && m.subrange(0, s.len() as int) == s
}

/// What the bytes `s` say about the mark of `bom`.
pub open spec fn single_test(bom: BomType, s: Seq<u8>) -> BomBytesTest {
    if could_start(s, marker(bom)) {
        BomBytesTest::Incomplete
    } else if starts_with(s, marker(bom)) {
        BomBytesTest::StartsWithBom
    } else {
        BomBytesTest::NotBom
    }
}

/// Some candidate mark could still be completed by bytes that follow `s`.
pub open spec fn undecided(candidates: Seq<BomType>, s: Seq<u8>) -> bool {
    exists|j: int| 0 <= j < candidates.len() && could_start(s, marker(#[trigger] candidates[j]))
}

/// The first BOM type of the catalog, from position `i` on, that is a candidate and
/// whose whole mark begins `s`.
pub open spec fn first_match_from(candidates: Seq<BomType>, s: Seq<u8>, i: int) -> Option<BomType>
    decreases catalog().len() - i,
{
    if i >= catalog().len() {
        None
    } else if i >= 0 && candidates.contains(catalog()[i]) && starts_with(s, marker(catalog()[i])) {
        Some(catalog()[i])
    } else {
        first_match_from(candidates, s, i + 1)
    }
}

/// The verdict that the leading bytes `s` of a stream give among `candidates`:
/// `None` while some candidate could still be completed, then `Some(Some(bom))`
/// for the preferred mark that begins `s`, or `Some(None)` where none does.
pub open spec fn detect(candidates: Seq<BomType>, s: Seq<u8>) -> Option<Option<BomType>> {
    if undecided(candidates, s) {
        None
    } else {
        Some(first_match_from(candidates, s, 0))
    }
}

/// Every mark is two to four bytes long.
pub proof fn lemma_marker_length(bom: BomType)
    ensures
        2 <= marker(bom).len() <= 4,
{
}

/// Once four bytes are known, no candidate can still be completed: the verdict is reached.
pub proof fn lemma_decided_when_full(candidates: Seq<BomType>, s: Seq<u8>)
    requires
        s.len() >= 4,
    ensures
        detect(candidates, s) is Some,
{
    assert forall|j: int| 0 <= j < candidates.len() implies !could_start(
        s,
        marker(#[trigger] candidates[j]),
    ) by {
        lemma_marker_length(candidates[j]);
    }
}

/// Once reached, a verdict stands: the bytes that follow `s` in the stream do not change it.
pub proof fn lemma_detect_stable(candidates: Seq<BomType>, s: Seq<u8>, t: Seq<u8>)
    requires
        detect(candidates, s) is Some,
    ensures
        detect(candidates, s + t) == detect(candidates, s),
{
    assert forall|j: int| 0 <= j < candidates.len() implies !could_start(
        s + t,
        marker(#[trigger] candidates[j]),
    ) by {
        let m = marker(candidates[j]);
        if could_start(s + t, m) {
            assert(m.subrange(0, s.len() as int) =~= (s + t).subrange(0, s.len() as int));
            assert((s + t).subrange(0, s.len() as int) =~= s);
            assert(could_start(s, m));
        }
    }
    lemma_first_match_stable(candidates, s, t, 0);
}

proof fn lemma_first_match_stable(candidates: Seq<BomType>, s: Seq<u8>, t: Seq<u8>, i: int)
    requires
        !undecided(candidates, s),
        0 <= i,
    ensures
        first_match_from(candidates, s + t, i) == first_match_from(candidates, s, i),
    decreases catalog().len() - i,
{
    if i < catalog().len() {
        let bom = catalog()[i];
        let m = marker(bom);
        if candidates.contains(bom) {
            let j = choose|j: int| 0 <= j < candidates.len() && candidates[j] == bom;
            assert(!could_start(s, marker(candidates[j])));
            if m.len() <= s.len() {
                assert((s + t).subrange(0, m.len() as int) =~= s.subrange(0, m.len() as int));
            } else if starts_with(s + t, m) {
                assert(m.subrange(0, s.len() as int) =~= (s + t).subrange(0, s.len() as int));
                assert((s + t).subrange(0, s.len() as int) =~= s);
            }
        }
        lemma_first_match_stable(candidates, s, t, i + 1);
    }
}

/// With no candidate, no mark is ever found.
pub proof fn lemma_no_candidates(candidates: Seq<BomType>, s: Seq<u8>, i: int)
    requires
        candidates.len() == 0,
    ensures
        first_match_from(candidates, s, i) is None,
        i == 0 ==> detect(candidates, s) == Some(None::<BomType>),
    decreases catalog().len() - i,
{
    if i < catalog().len() {
        lemma_no_candidates(candidates, s, i + 1);
    }
}

/// The position of `bom` in the catalog.
pub open spec fn rank(bom: BomType) -> int {
    match bom {
        BomType::UTF8 => 0,
        BomType::UTF32LE => 1,
        BomType::UTF32BE => 2,
        BomType::UTF16LE => 3,
        BomType::UTF16BE => 4,
        BomType::UTF7 => 5,
        BomType::UTF1 => 6,
        BomType::UTFEBDIC => 7,
        BomType::SCSU => 8,
        BomType::BOCU1 => 9,
        BomType::GB1803 => 10,
    }
}

/// Every BOM type stands in the catalog, at its rank.
pub proof fn lemma_rank(bom: BomType)
    ensures
        0 <= rank(bom) < catalog().len(),
        catalog()[rank(bom)] == bom,
{
}

/// The catalog lists each BOM type at its rank.
pub proof fn lemma_catalog_rank(i: int)
    requires
        0 <= i < catalog().len(),
    ensures
        rank(catalog()[i]) == i,
{
    if i == 0 {
    } else if i == 1 {
    } else if i == 2 {
    } else if i == 3 {
    } else if i == 4 {
    } else if i == 5 {
    } else if i == 6 {
    } else if i == 7 {
    } else if i == 8 {
    } else if i == 9 {
    } else {
    }
}

/// Where the mark of `short` begins the mark of another type `long`, `long` comes first in
/// the catalog.
pub proof fn lemma_nested_marks(short: BomType, long: BomType)
    requires
        short != long,
        marker(short).len() <= marker(long).len(),
        marker(long).subrange(0, marker(short).len() as int) == marker(short),
    ensures
        rank(long) < rank(short),
{
    let m = marker(short);
    let n = marker(long);
    assert(n[0] == m[0]);
    assert(n[1] == m[1]);
    if m.len() > 2 {
        assert(n[2] == m[2]);
    }
    if m.len() > 3 {
        assert(n[3] == m[3]);
    }
}

/// The result of the scan is a candidate.
pub proof fn lemma_first_match_is_candidate(candidates: Seq<BomType>, s: Seq<u8>, i: int)
    requires
        first_match_from(candidates, s, i) matches Some(bom),
    ensures
        first_match_from(candidates, s, i) matches Some(bom) && candidates.contains(bom)
            && starts_with(s, marker(bom)),
    decreases catalog().len() - i,
{
    if i < catalog().len() && !(i >= 0 && candidates.contains(catalog()[i]) && starts_with(
        s,
        marker(catalog()[i]),
    )) {
        lemma_first_match_is_candidate(candidates, s, i + 1);
    }
}

/// A stream that begins with the mark of a candidate `bom` is taken to carry that mark,
/// unless a longer candidate mark begins it too or could still begin it.
pub proof fn lemma_detect_marker(candidates: Seq<BomType>, bom: BomType, s: Seq<u8>)
    requires
        candidates.contains(bom),
        starts_with(s, marker(bom)),
        forall|other: BomType|
            candidates.contains(other) && marker(other).len() > marker(bom).len() ==> !starts_with(
                s,
                #[trigger] marker(other),
            ) && !could_start(s, marker(other)),
    ensures
        detect(candidates, s) == Some(Some(bom)),
{
    assert forall|j: int| 0 <= j < candidates.len() implies !could_start(
        s,
        marker(#[trigger] candidates[j]),
    ) by {
        let other = candidates[j];
        assert(candidates.contains(other));
        if could_start(s, marker(other)) {
            assert(marker(other).len() > marker(bom).len());
        }
    }
    lemma_rank(bom);
    lemma_scan_reaches(candidates, bom, s, 0);
}

proof fn lemma_scan_reaches(candidates: Seq<BomType>, bom: BomType, s: Seq<u8>, i: int)
    requires
        candidates.contains(bom),
        starts_with(s, marker(bom)),
        forall|other: BomType|
            candidates.contains(other) && marker(other).len() > marker(bom).len() ==> !starts_with(
                s,
                #[trigger] marker(other),
            ),
        0 <= i <= rank(bom),
    ensures
        first_match_from(candidates, s, i) == Some(bom),
    decreases rank(bom) - i,
{
    lemma_rank(bom);
    if i < rank(bom) {
        let other = catalog()[i];
        lemma_catalog_rank(i);
        if candidates.contains(other) && starts_with(s, marker(other)) && other != bom {
            if marker(other).len() <= marker(bom).len() {
                assert(marker(bom).subrange(0, marker(other).len() as int) =~= s.subrange(
                    0,
                    marker(other).len() as int,
                ));
                lemma_nested_marks(other, bom);
            }
        }
        lemma_scan_reaches(candidates, bom, s, i + 1);
    }
}

/// Whether `a` and `b` hold the same first `n` bytes.
fn same_prefix(a: &[u8], b: &[u8], n: usize) -> (r: bool)
    requires
        n <= a@.len(),
        n <= b@.len(),
    ensures
        r == (a@.subrange(0, n as int) == b@.subrange(0, n as int)),
{
    let mut i: usize = 0;
    while i < n
        invariant
            i <= n,
            n <= a@.len(),
            n <= b@.len(),
            a@.subrange(0, i as int) == b@.subrange(0, i as int),
        decreases n - i,
    {
        if a[i] != b[i] {
            assert(a@.subrange(0, n as int)[i as int] != b@.subrange(0, n as int)[i as int]);
            return false;
        }
        assert(a@.subrange(0, i + 1) == a@.subrange(0, i as int).push(a@[i as int]));
        assert(b@.subrange(0, i + 1) == b@.subrange(0, i as int).push(b@[i as int]));
        i = i + 1;
    }
    true
}

/// Whether `bom` is listed in `types`.
fn is_listed(types: &[BomType], bom: BomType) -> (r: bool)
    ensures
        r == types@.contains(bom),
{
    let mut i: usize = 0;
    while i < types.len()
        invariant
            i <= types@.len(),
            forall|k: int| 0 <= k < i ==> types@[k] != bom,
        decreases types@.len() - i,
    {
        if types[i] == bom {
            return true;
        }
        i = i + 1;
    }
    false
}

impl BomType {
    /// The bytes of this BOM.
    pub fn bom_bytes(&self) -> (r: &'static [u8])
        ensures
            r@ == marker(*self),
    {
        match self {
            BomType::UTF8 => &[0xEF, 0xBB, 0xBF],
            BomType::UTF16LE => &[0xFF, 0xFE],
            BomType::UTF16BE => &[0xFE, 0xFF],
            BomType::UTF32LE => &[0x00, 0x00, 0xFF, 0xFE],
            BomType::UTF32BE => &[0xFF, 0xFE, 0x00, 0x00],
            BomType::UTF7 => &[0x2B, 0x2F, 0x76],
            BomType::UTF1 => &[0xF7, 0x64, 0x4C],
            BomType::UTFEBDIC => &[0xDD, 0x73, 0x66, 0x73],
            BomType::SCSU => &[0x0E, 0xFE, 0xFF],
            BomType::BOCU1 => &[0xFB, 0xEE, 0x28],
            BomType::GB1803 => &[0x84, 0x31, 0x95, 0x33],
        }
    }

    /// The number of bytes of this BOM.
    pub fn bom_length(&self) -> (r: usize)
        ensures
            r == marker(*self).len(),
    {
        self.bom_bytes().len()
    }

    /// Returns:
    /// * `BomBytesTest::StartsWithBom` if `tested_bytes` is certain to start with the BOM.
    /// * `BomBytesTest::NotBom` if `tested_bytes` is certain not to be the BOM.
    /// * `BomBytesTest::Incomplete` otherwise.
    pub fn test_bytes(&self, tested_bytes: &[u8]) -> (r: BomBytesTest)
        ensures
            r == single_test(*self, tested_bytes@),
    {
        let bom = self.bom_bytes();
        if tested_bytes.len() < bom.len() {
            if same_prefix(tested_bytes, bom, tested_bytes.len()) {
                assert(tested_bytes@.subrange(0, tested_bytes@.len() as int) == tested_bytes@);
                BomBytesTest::Incomplete
            } else {
                assert(tested_bytes@.subrange(0, tested_bytes@.len() as int) == tested_bytes@);
                BomBytesTest::NotBom
            }
        } else {
            if same_prefix(tested_bytes, bom, bom.len()) {
                assert(bom@.subrange(0, bom@.len() as int) == bom@);
                BomBytesTest::StartsWithBom
            } else {
                assert(bom@.subrange(0, bom@.len() as int) == bom@);
                BomBytesTest::NotBom
            }
        }
    }

    /// Returns:
    /// * `Complete { bom_type: Some(bom_type), additional_bytes }` if `tested_bytes` is certain to start
    ///   with the `bom_type` BOM, with the bytes that follow it.
    /// * `Complete { bom_type: None, additional_bytes }` if `tested_bytes` is certain not to start with any
    ///   of `bom_types_tested`, with all of `tested_bytes`.
    /// * `Incomplete` while more bytes could still complete one of `bom_types_tested`.
    pub fn try_find_bytes_bom<'a>(tested_bytes: &'a [u8], bom_types_tested: &[BomType]) -> (r:
        BomsBytesTest<'a>)
        ensures
            match r {
                BomsBytesTest::Incomplete => detect(bom_types_tested@, tested_bytes@) is None,
                BomsBytesTest::Complete { bom_type, additional_bytes } => {
                    &&& detect(bom_types_tested@, tested_bytes@) == Some(bom_type)
                    &&& additional_bytes@ == tested_bytes@.skip(verdict_marker(bom_type).len() as int)
                },
            },
    {
        let mut j: usize = 0;
        while j < bom_types_tested.len()
            invariant
                j <= bom_types_tested@.len(),
                forall|k: int|
                    0 <= k < j ==> !could_start(tested_bytes@, marker(#[trigger] bom_types_tested@[k])),
            decreases bom_types_tested@.len() - j,
        {
            if bom_types_tested[j].test_bytes(tested_bytes) == BomBytesTest::Incomplete {
                return BomsBytesTest::Incomplete;
            }
            j = j + 1;
        }
        match BomType::first_full_match(tested_bytes, bom_types_tested) {
            Some(bom) => {
                proof {
                    lemma_first_match_is_candidate(bom_types_tested@, tested_bytes@, 0);
                }
                let additional_bytes = vstd::slice::slice_subrange(
                    tested_bytes,
                    bom.bom_length(),
                    tested_bytes.len(),
                );
                BomsBytesTest::Complete { bom_type: Some(bom), additional_bytes }
            },
            None => {
                assert(tested_bytes@.skip(0) == tested_bytes@);
                BomsBytesTest::Complete { bom_type: None, additional_bytes: tested_bytes }
            },
        }
    }

    /// The first BOM type of [`BomType::all`] that is listed in `bom_types_tested` and whose
    /// whole mark begins `tested_bytes`, whether or not a longer mark could still begin them.
    pub fn first_full_match(tested_bytes: &[u8], bom_types_tested: &[BomType]) -> (r: Option<
        BomType,
    >)
        ensures
            r == first_match_from(bom_types_tested@, tested_bytes@, 0),
    {
        let all = BomType::all();
        let mut i: usize = 0;
        while i < all.len()
            invariant
                all@ == catalog(),
                i <= all@.len(),
                first_match_from(bom_types_tested@, tested_bytes@, 0) == first_match_from(
                    bom_types_tested@,
                    tested_bytes@,
                    i as int,
                ),
            decreases all@.len() - i,
        {
            let bom = all[i];
            if is_listed(bom_types_tested, bom) && bom.test_bytes(tested_bytes)
                == BomBytesTest::StartsWithBom {
                return Some(bom);
            }
            i = i + 1;
        }
        None
    }

    /// Get a slice containing a list of all BOM types available.
    pub fn all() -> (r: &'static [BomType])
        ensures
            r@ == catalog(),
    {
        &[
            BomType::UTF8,
            BomType::UTF32LE,
            BomType::UTF32BE,
            BomType::UTF16LE,
            BomType::UTF16BE,
            BomType::UTF7,
            BomType::UTF1,
            BomType::UTFEBDIC,
            BomType::SCSU,
            BomType::BOCU1,
            BomType::GB1803,
        ]
    }
}

} // verus!
