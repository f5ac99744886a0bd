use glb_pipeline::bytes::{
    clone_bytes, copy_range, push_all, push_decimal, push_le32, read_decimal, read_le32, same_bytes,
};
use glb_pipeline::json::{check, duplicate, same, Json, Member};

#[test]
fn words_are_little_endian() {
    let mut out = vec![9];
    push_le32(&mut out, 0x0403_0201);
    push_le32(&mut out, u32::MAX);
    assert_eq!(out, vec![9, 1, 2, 3, 4, 255, 255, 255, 255]);
    assert_eq!(read_le32(&out, 1), 0x0403_0201);
    assert_eq!(read_le32(&out, 5), u32::MAX);
    assert_eq!(read_le32(&out, 2), 0xFF04_0302);
}

#[test]
fn numerals_are_decimal_without_leading_zeros() {
    for (n, s) in [(0usize, "0"), (7, "7"), (10, "10"), (4096, "4096"), (usize::MAX, &usize::MAX.to_string())] {
        let mut out = Vec::new();
        push_decimal(&mut out, n);
        assert_eq!(out, s.as_bytes());
        assert_eq!(read_decimal(&out), Some(n));
    }
    for bad in ["", "00", "01", "-1", "1.0", "1e2", " 1", "0x1", "18446744073709551616", "99999999999999999999999"] {
        assert_eq!(read_decimal(&bad.as_bytes().to_vec()), None, "{}", bad);
    }
}

#[test]
fn bytes_are_copied_and_compared() {
    let v = vec![1u8, 2, 3, 4];
    assert_eq!(copy_range(&v, 1, 3), vec![2, 3]);
    assert_eq!(copy_range(&v, 2, 2), Vec::<u8>::new());
    assert_eq!(clone_bytes(&v), v);
    let mut out = vec![0];
    push_all(&mut out, &v);
    assert_eq!(out, vec![0, 1, 2, 3, 4]);
    assert!(same_bytes(&v, &vec![1, 2, 3, 4]));
    assert!(!same_bytes(&v, &vec![1, 2, 3]));
    assert!(!same_bytes(&v, &vec![1, 2, 3, 5]));
}

#[test]
fn values_are_copied_compared_and_checked() {
    let v = Json::Object(vec![Member {
        key: b"a".to_vec(),
        value: Json::Array(vec![Json::Number(b"1".to_vec()), Json::Text(b"x".to_vec()), Json::Null]),
    }]);
    let copy = duplicate(&v);
    assert_eq!(copy, v);
    assert!(same(&v, &copy));
    assert!(!same(&v, &Json::Object(vec![])));
    assert!(!same(&Json::Number(b"1".to_vec()), &Json::Number(b"1.0".to_vec())));
    assert!(check(&v, 2));
    assert!(!check(&v, 1));
    assert!(check(&Json::Null, 0));
    assert!(!check(&Json::Number(b"+1".to_vec()), 5));
    assert!(!check(&Json::Array(vec![Json::Number(b"1.".to_vec())]), 5));
}
