use encrusted_heart::buffer::{BufReader, BufWriter, Buffer};
use encrusted_heart::ZmachineError;

#[test]
fn byte_and_word_access_big_endian() {
    let mut buf = Buffer::new(vec![0u8; 8]);
    buf.write_word(2, 0xABCD).unwrap();
    assert_eq!(buf.read_byte(2).unwrap(), 0xAB);
    assert_eq!(buf.read_byte(3).unwrap(), 0xCD);
    assert_eq!(buf.read_word(2).unwrap(), 0xABCD);
    buf.write_byte(7, 9).unwrap();
    assert_eq!(buf.read_byte(7).unwrap(), 9);
}

#[test]
fn out_of_range_access_is_a_bad_address() {
    let mut buf = Buffer::new(vec![0u8; 4]);
    assert_eq!(buf.read_byte(4).unwrap_err(), ZmachineError::BadAddress);
    assert_eq!(buf.read_word(3).unwrap_err(), ZmachineError::BadAddress);
    assert_eq!(buf.write_word(3, 1).unwrap_err(), ZmachineError::BadAddress);
    assert_eq!(buf.slice(3, 2).unwrap_err(), ZmachineError::BadAddress);
}

#[test]
fn cursors_advance_per_access() {
    let mut buf = Buffer::new(vec![0u8; 6]);
    let mut wcur = BufWriter::new(0);
    wcur.byte(&mut buf, 0x11).unwrap();
    wcur.word(&mut buf, 0x2233).unwrap();
    assert_eq!(wcur.position(), 3);
    let mut rcur = BufReader::new(0);
    assert_eq!(rcur.byte(&buf).unwrap(), 0x11);
    assert_eq!(rcur.word(&buf).unwrap(), 0x2233);
    assert_eq!(rcur.position(), 3);
}

#[test]
fn slices_and_bulk_writes() {
    let mut buf = Buffer::new((0..10u8).collect());
    assert_eq!(buf.slice(2, 5).unwrap(), vec![2, 3, 4]);
    assert_eq!(buf.read(7, 3).unwrap(), vec![7, 8, 9]);
    buf.write(4, &[40, 41]).unwrap();
    assert_eq!(buf.slice(3, 7).unwrap(), vec![3, 40, 41, 6]);
    assert_eq!(buf.len(), 10);
}
