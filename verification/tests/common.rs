use quake_util::common::{read_array, read_le_u32};
use quake_util::{slice_to_cstring, ByteReader, Junk, Text};

#[test]
fn cstring_ends_at_the_first_nul() {
    assert_eq!(slice_to_cstring(b"abc\0def\0"), Text::from_slice(b"abc").unwrap());
    assert_eq!(slice_to_cstring(b"abc"), Text::from_slice(b"abc").unwrap());
    assert_eq!(slice_to_cstring(b"\0abc"), Text::empty());
    assert_eq!(slice_to_cstring(b""), Text::empty());
}

#[test]
fn little_endian_numbers() {
    let bytes = [0xff, 0x78, 0x56, 0x34, 0x12, 0xff];
    assert_eq!(read_le_u32(&bytes, 1), 0x12345678);
    assert_eq!(read_le_u32(&[0xff; 4], 0), u32::MAX);
    assert_eq!(read_le_u32(&(300u32).to_le_bytes(), 0), 300);
    let part: [u8; 3] = read_array(&bytes, 2);
    assert_eq!(part, [0x56, 0x34, 0x12]);
}

#[test]
fn junk_is_always_equal() {
    let a: Junk<u16> = Junk::default();
    let b: Junk<u16> = Junk::default();
    assert!(a == b);
}

#[test]
fn reader_reads_and_seeks() {
    let bytes = [1u8, 2, 3, 4, 5, 6];
    let mut reader = ByteReader::new(&bytes);
    assert_eq!(reader.stream_position(), 0);
    assert_eq!(reader.remaining_len(), 6);
    assert_eq!(reader.read_exact(2).unwrap(), &[1, 2]);
    assert_eq!(reader.stream_position(), 2);
    assert_eq!(reader.remaining(), &[3, 4, 5, 6]);
    let limited = reader.take(3);
    assert_eq!(limited.remaining(), &[3, 4, 5]);
    assert_eq!(reader.take(100).remaining(), &[3, 4, 5, 6]);
    let error = reader.read_exact(5).unwrap_err();
    assert_eq!(error.kind(), std::io::ErrorKind::UnexpectedEof);
    assert_eq!(reader.stream_position(), 6);
    reader.seek(4);
    assert_eq!(reader.read_exact(2).unwrap(), &[5, 6]);
    reader.seek(100);
    assert_eq!(reader.remaining_len(), 0);
    assert_eq!(reader.read_exact(0).unwrap().len(), 0);
    assert!(reader.read_exact(1).is_err());
}
