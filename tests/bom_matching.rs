use skip_bom::{BomBytesPushBuffer, BomBytesTest, BomType, BomsBytesTest, MAX_BOM_LENGTH};

#[test]
fn bom_bytes_of_each_type() {
    assert_eq!(BomType::UTF8.bom_bytes(), &[0xEF, 0xBB, 0xBF]);
    assert_eq!(BomType::UTF16LE.bom_bytes(), &[0xFF, 0xFE]);
    assert_eq!(BomType::UTF16BE.bom_bytes(), &[0xFE, 0xFF]);
    assert_eq!(BomType::UTF32LE.bom_bytes(), &[0x00, 0x00, 0xFF, 0xFE]);
    assert_eq!(BomType::UTF32BE.bom_bytes(), &[0xFF, 0xFE, 0x00, 0x00]);
    assert_eq!(BomType::UTF7.bom_bytes(), &[0x2B, 0x2F, 0x76]);
    assert_eq!(BomType::UTF1.bom_bytes(), &[0xF7, 0x64, 0x4C]);
    assert_eq!(BomType::UTFEBDIC.bom_bytes(), &[0xDD, 0x73, 0x66, 0x73]);
    assert_eq!(BomType::SCSU.bom_bytes(), &[0x0E, 0xFE, 0xFF]);
    assert_eq!(BomType::BOCU1.bom_bytes(), &[0xFB, 0xEE, 0x28]);
    assert_eq!(BomType::GB1803.bom_bytes(), &[0x84, 0x31, 0x95, 0x33]);
}

#[test]
fn bom_lengths() {
    assert_eq!(3, BomType::UTF8.bom_length());
    assert_eq!(2, BomType::UTF16LE.bom_length());
    assert_eq!(4, BomType::UTF32BE.bom_length());
    for bom in BomType::all() {
        assert!(bom.bom_length() <= MAX_BOM_LENGTH);
    }
}

#[test]
fn all_lists_every_type_longest_nested_first() {
    let all = BomType::all();
    assert_eq!(11, all.len());
    assert_eq!(BomType::UTF8, all[0]);
    let utf32be = all.iter().position(|b| *b == BomType::UTF32BE).unwrap();
    let utf16le = all.iter().position(|b| *b == BomType::UTF16LE).unwrap();
    assert!(utf32be < utf16le);
}

#[test]
fn test_bytes_cases() {
    assert_eq!(BomBytesTest::Incomplete, BomType::UTF8.test_bytes(b""));
    assert_eq!(BomBytesTest::Incomplete, BomType::UTF8.test_bytes(b"\xEF\xBB"));
    assert_eq!(BomBytesTest::NotBom, BomType::UTF8.test_bytes(b"\xEFa"));
    assert_eq!(BomBytesTest::StartsWithBom, BomType::UTF8.test_bytes(b"\xEF\xBB\xBF"));
    assert_eq!(BomBytesTest::StartsWithBom, BomType::UTF8.test_bytes(b"\xEF\xBB\xBFabc"));
    assert_eq!(BomBytesTest::NotBom, BomType::UTF8.test_bytes(b"abcd"));
}

#[test]
fn find_bom_with_rest() {
    match BomType::try_find_bytes_bom(b"\xEF\xBB\xBFh", BomType::all()) {
        BomsBytesTest::Complete { bom_type, additional_bytes } => {
            assert_eq!(Some(BomType::UTF8), bom_type);
            assert_eq!(b"h", additional_bytes);
        },
        BomsBytesTest::Incomplete => panic!("expected a verdict"),
    }
}

#[test]
fn find_no_bom_keeps_all_bytes() {
    match BomType::try_find_bytes_bom(b"hell", BomType::all()) {
        BomsBytesTest::Complete { bom_type, additional_bytes } => {
            assert_eq!(None, bom_type);
            assert_eq!(b"hell", additional_bytes);
        },
        BomsBytesTest::Incomplete => panic!("expected a verdict"),
    }
}

#[test]
fn find_waits_while_a_candidate_could_complete() {
    assert_eq!(BomsBytesTest::Incomplete, BomType::try_find_bytes_bom(b"", BomType::all()));
    assert_eq!(BomsBytesTest::Incomplete, BomType::try_find_bytes_bom(b"\xEF\xBB", &[BomType::UTF8]));
    // FF FE is the whole UTF-16 LE mark, but could still become the UTF-32 BE one
    let both = [BomType::UTF16LE, BomType::UTF32BE];
    assert_eq!(BomsBytesTest::Incomplete, BomType::try_find_bytes_bom(b"\xFF\xFE", &both));
    assert_eq!(BomsBytesTest::Incomplete, BomType::try_find_bytes_bom(b"\xFF\xFE\x00", &both));
    assert_eq!(
        BomsBytesTest::Complete { bom_type: Some(BomType::UTF16LE), additional_bytes: b"\x00a" },
        BomType::try_find_bytes_bom(b"\xFF\xFE\x00a", &both)
    );
    assert_eq!(
        BomsBytesTest::Complete { bom_type: Some(BomType::UTF32BE), additional_bytes: b"" },
        BomType::try_find_bytes_bom(b"\xFF\xFE\x00\x00", &both)
    );
}

#[test]
fn find_with_no_candidates_is_no_bom() {
    assert_eq!(
        BomsBytesTest::Complete { bom_type: None, additional_bytes: b"" },
        BomType::try_find_bytes_bom(b"", &[])
    );
    assert_eq!(
        BomsBytesTest::Complete { bom_type: None, additional_bytes: b"\xEF\xBB\xBF" },
        BomType::try_find_bytes_bom(b"\xEF\xBB\xBF", &[])
    );
}

#[test]
fn find_ignores_types_not_looked_for() {
    assert_eq!(
        BomsBytesTest::Complete { bom_type: None, additional_bytes: b"\xEF\xBB\xBFa" },
        BomType::try_find_bytes_bom(b"\xEF\xBB\xBFa", &[BomType::UTF16LE])
    );
}

#[test]
fn push_buffer_truncates_at_capacity() {
    let mut buffer = BomBytesPushBuffer::default();
    assert_eq!(4, buffer.available_bytes());
    assert_eq!(3, buffer.push(b"abc"));
    assert_eq!(1, buffer.push(b"def"));
    assert_eq!(0, buffer.push(b"g"));
    assert_eq!(b"abcd", buffer.bytes());
    assert_eq!(4, buffer.byte_count());
    assert_eq!(0, buffer.available_bytes());
}

#[test]
fn push_buffer_constructors() {
    let buffer = BomBytesPushBuffer::from_slice(b"abcdef");
    assert_eq!(b"abcd", buffer.bytes());
    let buffer = BomBytesPushBuffer::from_slice(b"ab");
    assert_eq!(b"ab", buffer.as_ref());
    assert_eq!(2, buffer.available_bytes());
    let buffer = BomBytesPushBuffer::from_array([1, 2, 3, 4], 3);
    assert_eq!(&[1, 2, 3], buffer.bytes());
    assert_eq!(3, buffer.byte_count());
}
