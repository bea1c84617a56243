use encrusted_heart::frame::Frame;
use encrusted_heart::quetzal::{compress, decompress, QuetzalSave};

#[test]
fn memory_delta_round_trip() {
    let orig: Vec<u8> = (0..200u8).collect();
    let mut curr = orig.clone();
    curr[5] = 0xAA;
    curr[100] = 0x01;
    curr[199] = 0xFF;
    let packed = compress(curr.as_slice(), orig.as_slice());
    let restored = decompress(packed.as_slice(), orig.as_slice()).unwrap();
    assert_eq!(restored, curr);
}

#[test]
fn unchanged_memory_compresses_to_runs() {
    let orig = vec![7u8; 1000];
    let packed = compress(orig.as_slice(), orig.as_slice());
    // 1000 zeros: three runs of 256 and one of 232, two bytes each.
    assert_eq!(packed, vec![0, 255, 0, 255, 0, 255, 0, 231]);
    let restored = decompress(packed.as_slice(), orig.as_slice()).unwrap();
    assert_eq!(restored, orig);
}

#[test]
fn truncated_run_encoding_is_rejected() {
    let orig = vec![0u8; 8];
    assert!(decompress(&[3, 0], orig.as_slice()).is_err());
}

fn sample_frames() -> Vec<Frame> {
    let sentinel = Frame::empty();
    let inner = Frame {
        resume: 0x1234,
        store: Some(5),
        locals: vec![10, 20, 30],
        stack: vec![7, 8],
        arg_count: 2,
    };
    let no_store = Frame {
        resume: 0x00FFEE,
        store: None,
        locals: vec![],
        stack: vec![0xFFFF],
        arg_count: 0,
    };
    vec![sentinel, inner, no_store]
}

#[test]
fn container_round_trip_preserves_state() {
    let orig: Vec<u8> = (0..64u8).chain(0..64u8).collect();
    let mut dynamic = orig.clone();
    dynamic[10] = 99;
    dynamic[64] = 1;
    let frames = sample_frames();
    let serial = *b"260101";
    let blob = QuetzalSave::make(
        0x0ABCDE,
        dynamic.as_slice(),
        orig.as_slice(),
        &frames,
        0x5566,
        42,
        &serial,
    )
    .unwrap();
    let save = QuetzalSave::from_bytes(blob.as_slice(), orig.as_slice()).unwrap();
    assert_eq!(save.pc, 0x0ABCDE);
    assert_eq!(save.chksum, 0x5566);
    assert_eq!(save.release, 42);
    assert_eq!(save.serial, serial.to_vec());
    assert_eq!(save.memory, dynamic);
    assert_eq!(save.frames.len(), frames.len());
    for (a, b) in save.frames.iter().zip(frames.iter()) {
        assert_eq!(a.resume, b.resume);
        assert_eq!(a.store, b.store);
        assert_eq!(a.locals, b.locals);
        assert_eq!(a.stack, b.stack);
        assert_eq!(a.arg_count, b.arg_count);
    }
}

#[test]
fn garbage_is_rejected() {
    let orig = vec![0u8; 32];
    assert!(QuetzalSave::from_bytes(&[1, 2, 3], orig.as_slice()).is_err());
    assert!(QuetzalSave::from_bytes(&[0u8; 64], orig.as_slice()).is_err());
}
