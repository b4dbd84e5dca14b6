use roxtract::heuristics::WordCursor;
use roxtract::{KnownRiscOsVersion, RomHeuristics, Slice32};

fn s(src: &[u8]) -> Slice32<'_> {
    Slice32::new(src).unwrap()
}

#[test]
fn find() {
    assert_eq!(s(b"abcdef").find(&s(b"abc")), Some(0));
    assert_eq!(s(b"abc").find(&s(b"abc")), Some(0));
    assert_eq!(s(b"abcdef").find(&s(b"bc")), Some(1));
    assert_eq!(s(b"aabc").find(&s(b"abc")), Some(1));
    assert_eq!(s(b"ababc").find(&s(b"abc")), Some(2));
    assert_eq!(s(b"abac").find(&s(b"abc")), None);
    assert_eq!(s(b"cbabc").find(&s(b"abc")), Some(2));
    assert_eq!(s(b"bac").find(&s(b"a")), Some(1));

    assert_eq!(s(b"").find(&s(b"empty haystack")), None);
    assert_eq!(s(b"empty needle").find(&s(b"")), None);
}

#[test]
fn find_scenarios() {
    assert_eq!(s(b"abcdef").find(&s(b"abc")), Some(0));
    assert_eq!(s(b"aabc").find(&s(b"abc")), Some(1));
    assert_eq!(s(b"").find(&s(b"x")), None);
}

#[test]
fn find_offset_to() {
    assert_eq!(s(b"\x08\0\0\0ABCDEFGH").find_offset_to(&s(b"EFGH"), 0), Some(0));
    assert_eq!(s(b"!!!!\x08\0\0\0ABCDEFGH").find_offset_to(&s(b"EFGH"), 0), Some(4));
    assert_eq!(s(b"!!!!\x04\0\0\0EFGH").find_offset_to(&s(b"EFGH"), 0), Some(4));
    assert_eq!(s(b"!!!!????ZERO\x08\0\0\0EFGH").find_offset_to(&s(b"EFGH"), 4), Some(8));

    assert_eq!(
        s(&[
            b'o', b'f', b'f', b's', b'e', b't', b'!', b'!', //
            0, 0, 0, 0, // run         r00 a08
            0, 0, 0, 0, // init        r04 a0c
            0, 0, 0, 0, // fini        r08 a10
            0, 0, 0, 0, // svc         r0c a14
            0x2c, 0, 0, 0, // title   r10 a18
            0, 0, 0, 0, // help        r14 a1c
            0, 0, 0, 0, // cmd         r18 a20
            0, 0, 0, 0, // swi#        r1c a24
            0, 0, 0, 0, // swi handler r20 a28
            0, 0, 0, 0, // swi table   r24 a2c
            0, 0, 0, 0, // swi code    r28 a30
            b'M', b'o', b'd', b'u', b'l', b'e', 0, // r2c a34
        ])
        .find_offset_to(&s(b"Module\0"), 0x10),
        Some(8)
    );
}

#[test]
fn find_offset_to_force_unaligned() {
    // The buffer is indexed, never reinterpreted, so no read requires 4-byte
    // alignment; the same fixture as the aligned cases must resolve.
    let data: &[u8] = b"\x08\0\0\0!no!HELLO\0";
    assert_eq!(s(data).find_offset_to(&s(b"HELLO\0"), 0), Some(0));
}

#[test]
fn find_offset_to_displacement_round_trip() {
    // [0; 4] ++ encode_le(target - (field_pos - adjust)) ++ padding ++ needle,
    // with the field at offset 4, the needle at offset 12 and adjustment 4:
    // the field value 12 - (4 - 4) = 12 resolves to the needle's offset, so
    // the heuristic reports field offset less adjustment.
    let buffer = [0u8, 0, 0, 0, 12, 0, 0, 0, b'!', b'!', b'!', b'!', b'N', b'E', b'E', b'D'];
    assert_eq!(s(&buffer).find_offset_to(&s(b"NEED"), 4), Some(0));
}

#[test]
fn word_cursor() {
    // 10 bytes: only the first two complete words are in range.
    let data = [1u8, 0, 0, 0, 2, 0, 0, 0, 0xaa, 0xbb];
    let slice = s(&data);

    let mut cursor = WordCursor::new_end(&slice);
    assert_eq!(cursor.pos(), 4);
    assert_eq!(cursor.current(), Some(2));
    cursor.move_prev();
    assert_eq!(cursor.pos(), 0);
    assert_eq!(cursor.current(), Some(1));
    cursor.move_prev(); // wraps far out of range
    assert_eq!(cursor.current(), None);

    let mut cursor = WordCursor::new_start(&slice);
    assert_eq!(cursor.pos(), 0);
    assert_eq!(cursor.current(), Some(1));
    cursor.move_next();
    assert_eq!(cursor.pos(), 4);
    cursor.move_next();
    assert_eq!(cursor.pos(), 8); // past the truncated length
    assert_eq!(cursor.current(), None);
}

#[test]
fn word_cursor_reads_unaligned_words() {
    let data = [0u8, 0x01, 0x02, 0x03, 0x04, 0, 0, 0];
    let slice = s(&data);
    let cursor = WordCursor::new_start(&slice);
    assert_eq!(cursor.current(), Some(0x0302_0100));
}

#[test]
fn version_fingerprint() {
    // CRC-32 of b"123456789" is the standard check value 0xcbf43926.
    let image: &[u8] = b"123456789";
    let entry = KnownRiscOsVersion::new("Test OS 1.0", b"456", 3, 0xcbf43926);
    assert!(entry.matches(image));
    assert_eq!(entry.name(), "Test OS 1.0");

    let wrong_crc = KnownRiscOsVersion::new("Test OS 1.0", b"456", 3, 0x12345678);
    assert!(!wrong_crc.matches(image));

    let wrong_name_pos = KnownRiscOsVersion::new("Test OS 1.0", b"456", 2, 0xcbf43926);
    assert!(!wrong_name_pos.matches(image));

    let name_out_of_range = KnownRiscOsVersion::new("Test OS 1.0", b"456", 8, 0xcbf43926);
    assert!(!name_out_of_range.matches(image));
}
