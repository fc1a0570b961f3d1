use assets::asset::{is_encodable, Asset, Assets, Fetched, LoadError};

fn config() -> Asset {
    Assets::new()
        .load("config.bin", Fetched::Bytes(vec![0x01, 0x02, 0x03, 0x04]))
        .unwrap()
}

#[test]
fn config_scenario_reads_in_chunks() {
    let mut a = config();
    assert_eq!(a.as_slice(), &[0x01, 0x02, 0x03, 0x04]);
    let mut small = [0u8; 2];
    assert_eq!(a.read(&mut small), 2);
    assert_eq!(small, [0x01, 0x02]);
    assert_eq!(a.position(), 2);
    let mut big = [0u8; 10];
    assert_eq!(a.read(&mut big), 2);
    assert_eq!(&big[..2], &[0x03, 0x04]);
    assert_eq!(a.position(), 4);
    assert_eq!(a.read(&mut big), 0);
    assert_eq!(a.position(), 4);
}

#[test]
fn missing_resource_is_not_found() {
    let r = Assets::new().load("missing.bin", Fetched::Missing);
    assert_eq!(
        r.err(),
        Some(LoadError::ResourceNotFound { path: "missing.bin".to_string() })
    );
}

#[test]
fn unreadable_resource_is_read_failure() {
    let r = Asset::load("locked.bin", Fetched::Unreadable);
    assert_eq!(r.err(), Some(LoadError::ReadFailure { path: "locked.bin".to_string() }));
}

#[test]
fn nul_in_path_is_invalid_encoding() {
    let r = Asset::load("bad\0name.bin", Fetched::Bytes(vec![1, 2]));
    assert_eq!(
        r.err(),
        Some(LoadError::InvalidPathEncoding { path: "bad\0name.bin".to_string() })
    );
    assert!(!is_encodable("\0"));
    assert!(is_encodable("textures/stone.png"));
    assert!(is_encodable(""));
}

#[test]
fn round_trip_keeps_every_byte() {
    let content: Vec<u8> = (0..=255u8).chain(0..=255u8).collect();
    let a = Asset::load("all.bin", Fetched::Bytes(content.clone())).unwrap();
    assert_eq!(a.as_slice(), content.as_slice());
    assert_eq!(a.len(), 512);
    assert_eq!(a.position(), 0);
}

#[test]
fn empty_resource_loads_empty() {
    let mut a = Asset::load("empty.bin", Fetched::Bytes(Vec::new())).unwrap();
    assert_eq!(a.len(), 0);
    let mut buf = [9u8; 4];
    assert_eq!(a.read(&mut buf), 0);
    assert_eq!(buf, [9u8; 4]);
}

#[test]
fn chunks_concatenate_to_flat_view() {
    let content: Vec<u8> = (0..100u8).collect();
    let mut a = Asset::load("seq.bin", Fetched::Bytes(content.clone())).unwrap();
    let mut out = Vec::new();
    let sizes = [3usize, 7, 1, 50, 13];
    let mut k = 0;
    loop {
        let mut buf = vec![0u8; sizes[k % sizes.len()]];
        let n = a.read(&mut buf);
        if n == 0 {
            break;
        }
        out.extend_from_slice(&buf[..n]);
        k += 1;
    }
    assert_eq!(out, content);
}

#[test]
fn reads_after_end_stay_empty() {
    let mut a = config();
    let mut buf = [0u8; 8];
    assert_eq!(a.read(&mut buf), 4);
    for _ in 0..5 {
        assert_eq!(a.read(&mut buf), 0);
        assert_eq!(a.position(), 4);
    }
    assert_eq!(a.as_slice(), &[0x01, 0x02, 0x03, 0x04]);
}

#[test]
fn read_leaves_rest_of_buffer() {
    let mut a = config();
    let mut buf = [0xAAu8; 6];
    assert_eq!(a.read(&mut buf), 4);
    assert_eq!(buf, [0x01, 0x02, 0x03, 0x04, 0xAA, 0xAA]);
}

#[test]
fn empty_buffer_reads_nothing() {
    let mut a = config();
    let mut buf: [u8; 0] = [];
    assert_eq!(a.read(&mut buf), 0);
    assert_eq!(a.position(), 0);
}

#[test]
fn two_loads_of_one_path_are_independent() {
    let ctx = Assets::new();
    let mut a = ctx.load("config.bin", Fetched::Bytes(vec![1, 2, 3, 4])).unwrap();
    let b = ctx.load("config.bin", Fetched::Bytes(vec![1, 2, 3, 4])).unwrap();
    assert_eq!(a.as_slice(), b.as_slice());
    let mut buf = [0u8; 3];
    assert_eq!(a.read(&mut buf), 3);
    assert_eq!(a.position(), 3);
    assert_eq!(b.position(), 0);
    assert_eq!(b.as_slice(), &[1, 2, 3, 4]);
}
