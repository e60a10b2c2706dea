use kadcast::utils::{compute_nonce, verify_difficulty, verify_nonce, xor};

#[test]
fn utils_test_difficulty() {
    let b: [u8; 2] = [0b11110000, 0];
    let rev: Vec<u8> = b.iter().rev().copied().collect();
    for d in 0..=12 {
        assert!(verify_difficulty(&rev, d));
    }
    assert!(!verify_difficulty(&rev, 13));
}

#[test]
fn computed_nonce_verifies() {
    let id = [7u8; 16];
    let nonce = compute_nonce(&id).expect("a nonce exists");
    assert!(verify_nonce(&id, &nonce));
    // It is the least one: no smaller nonce passes.
    let n = u32::from_le_bytes(nonce);
    for m in 0..n {
        assert!(!verify_nonce(&id, &m.to_le_bytes()));
    }
}

#[test]
fn xor_of_keys() {
    let a = [0b1010_1010u8; 16];
    let mut b = [0b1010_1010u8; 16];
    b[3] = 0b0101_0101;
    let x = xor(&a, &b);
    assert_eq!(x.len(), 16);
    for (i, v) in x.iter().enumerate() {
        assert_eq!(*v, if i == 3 { 0xff } else { 0 });
    }
}

#[test]
fn empty_input_has_no_difficulty() {
    assert!(!verify_difficulty(&[], 0));
    assert!(verify_difficulty(&[0, 0, 1], 16));
    assert!(!verify_difficulty(&[0, 0, 1], 17));
}
