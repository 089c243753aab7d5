use play_files::ErrorKind;
use play_files::Reader;

#[test]
fn read_single_bytes() {
    let mut r = Reader::new(vec![1, 2, 3]);
    assert_eq!(r.read().unwrap(), 1);
    assert_eq!(r.read().unwrap(), 2);
    assert_eq!(r.pos(), 2);
    assert_eq!(r.read().unwrap(), 3);
    let e = r.read().unwrap_err();
    assert_eq!(e.kind, ErrorKind::Truncated);
    assert_eq!(e.offset, 3);
}

#[test]
fn read_bytes_and_rest() {
    let mut r = Reader::new(vec![10, 20, 30, 40, 50]);
    assert_eq!(r.read_bytes(2).unwrap(), vec![10, 20]);
    assert_eq!(r.rest(), vec![30, 40, 50]);
    assert_eq!(r.buffer_len(), 5);
    assert_eq!(r.read_bytes(4).unwrap_err().kind, ErrorKind::Truncated);
    // a failing read leaves the position alone
    assert_eq!(r.pos(), 2);
}

#[test]
fn read_bool_and_positioning() {
    let mut r = Reader::new(vec![1, 0, 7]);
    assert!(r.read_bool().unwrap());
    assert!(!r.read_bool().unwrap());
    r.step_back();
    assert!(!r.read_bool().unwrap());
    r.set_pos(2);
    assert_eq!(r.read().unwrap(), 7);
}

#[test]
fn read_fixed_width_little_endian() {
    let mut r = Reader::new(vec![0x34, 0x12, 0xff, 0xff, 0x00, 0x80, 0x78, 0x56, 0x34, 0x12]);
    assert_eq!(r.read_u16_le().unwrap(), 0x1234);
    assert_eq!(r.read_i16_le().unwrap(), -1);
    assert_eq!(r.read_i16_le().unwrap(), i16::MIN);
    assert_eq!(r.read_u32_le().unwrap(), 0x12345678);
}

#[test]
fn read_strings() {
    let mut r = Reader::new(vec![b'h', b'i', 0xc3, 0xa9, 0xff]);
    assert_eq!(r.read_string(2).unwrap(), "hi");
    // a two-byte UTF-8 sequence decodes to one character, so the decoded
    // string differs from the raw bytes
    let s = r.read_string(2).unwrap();
    assert_eq!(s, "\u{e9}");
    assert_eq!(s.len(), 2);
    assert_eq!(s.chars().count(), 1);
    let e = r.read_string(1).unwrap_err();
    assert_eq!(e.kind, ErrorKind::InvalidUtf8);
}

#[test]
fn varints() {
    let mut r = Reader::new(vec![0x05]);
    assert_eq!(r.read_variable_quantity().unwrap(), 5);

    let mut r = Reader::new(vec![0x85, 0x01]);
    assert_eq!(r.read_variable_quantity().unwrap(), 133);
    assert_eq!(r.pos(), 2);

    let mut r = Reader::new(vec![0x80, 0x80, 0x80, 0x01]);
    assert_eq!(r.read_variable_quantity().unwrap(), 1 << 21);

    // a fourth continuation bit would need a fifth byte
    let mut r = Reader::new(vec![0x80, 0x80, 0x80, 0x80, 0x01]);
    let e = r.read_variable_quantity().unwrap_err();
    assert_eq!(e.kind, ErrorKind::VarintTooLong);
    assert_eq!(e.offset, 0);

    // the buffer ends while the continuation bit is still set
    let mut r = Reader::new(vec![0x80, 0x80]);
    let e = r.read_variable_quantity().unwrap_err();
    assert_eq!(e.kind, ErrorKind::Truncated);
}
