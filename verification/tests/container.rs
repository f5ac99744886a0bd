use glb_pipeline::container::{join, split, Chunks};
use glb_pipeline::error::{Error, Malformed};

fn sample() -> Vec<u8> {
    join(&b"{}".to_vec(), &Some(vec![1, 2, 3, 4, 5])).unwrap()
}

#[test]
fn join_lays_out_header_and_chunks() {
    let out = sample();
    assert_eq!(&out[0..4], b"glTF");
    assert_eq!(&out[4..8], &[2, 0, 0, 0]);
    assert_eq!(out.len(), 12 + 8 + 4 + 8 + 8);
    assert_eq!(&out[8..12], &[40, 0, 0, 0]);
    assert_eq!(&out[12..16], &[4, 0, 0, 0]);
    assert_eq!(&out[16..20], b"JSON");
    assert_eq!(&out[20..24], b"{}  ");
    assert_eq!(&out[24..28], &[8, 0, 0, 0]);
    assert_eq!(&out[28..32], b"BIN\0");
    assert_eq!(&out[32..40], &[1, 2, 3, 4, 5, 0, 0, 0]);
}

#[test]
fn split_undoes_join() {
    let out = sample();
    assert_eq!(
        split(&out),
        Ok(Chunks { json: b"{}  ".to_vec(), bin: Some(vec![1, 2, 3, 4, 5, 0, 0, 0]) })
    );
}

#[test]
fn split_without_binary_chunk() {
    let out = join(&b"[1]".to_vec(), &None).unwrap();
    assert_eq!(split(&out), Ok(Chunks { json: b"[1] ".to_vec(), bin: None }));
}

#[test]
fn split_rejects_short_header() {
    assert_eq!(split(&b"glTF".to_vec()), Err(Malformed::Truncated));
}

#[test]
fn split_rejects_bad_magic() {
    let mut out = sample();
    out[0] = b'x';
    assert_eq!(split(&out), Err(Malformed::BadMagic));
}

#[test]
fn split_rejects_other_version() {
    let mut out = sample();
    out[4] = 1;
    assert_eq!(split(&out), Err(Malformed::BadVersion));
}

#[test]
fn split_rejects_cut_buffer() {
    let mut out = sample();
    out.truncate(22);
    assert_eq!(split(&out), Err(Malformed::Truncated));
}

#[test]
fn split_rejects_trailing_bytes() {
    let mut out = sample();
    out.push(0);
    assert_eq!(split(&out), Err(Malformed::LengthMismatch));
}

#[test]
fn split_rejects_first_chunk_of_other_type() {
    let mut out = sample();
    out[16] = b'X';
    assert_eq!(split(&out), Err(Malformed::MissingJson));
}

#[test]
fn split_ignores_second_chunk_of_unknown_type() {
    let mut out = sample();
    out[28] = b'X';
    assert_eq!(split(&out), Ok(Chunks { json: b"{}  ".to_vec(), bin: None }));
}

#[test]
fn overflow_is_an_error_value() {
    assert_ne!(Error::EncodingOverflow, Error::DanglingReference);
}
