use getrandom::getrandom;
use speck::{Error, Speck128_128, Speck128_192, Speck128_256, Speck64_128, Speck64_96, SpeckCipher};

#[test]
fn test_round_trip() {
    let mut key = [0; 16];
    getrandom(&mut key).unwrap();

    let mut input = [0; 16];
    getrandom(&mut input).unwrap();

    let mut buffer = input.clone();
    let cipher = Speck128_128::new_slice(&key).unwrap();

    cipher.seal_in_place(&mut buffer).unwrap();
    assert_ne!(input, buffer);

    cipher.open_in_place(&mut buffer).unwrap();
    assert_eq!(input, buffer);
}

fn seal_then_open<C: SpeckCipher>(cipher: &C, input: &[u8]) {
    let mut buffer = input.to_vec();
    cipher.seal_in_place(&mut buffer).unwrap();
    assert_ne!(buffer, input);
    cipher.open_in_place(&mut buffer).unwrap();
    assert_eq!(buffer, input);
}

#[test]
fn round_trip_every_variant() {
    let block8: Vec<u8> = (0u8..8).collect();
    let block16: Vec<u8> = (100u8..116).collect();
    seal_then_open(&Speck64_96::new([0, 1, 2]), &block8);
    seal_then_open(&Speck64_128::new([0, 1, 2, 4]), &block8);
    seal_then_open(&Speck128_128::new([0, 1]), &block16);
    seal_then_open(&Speck128_192::new([0, 1, 2]), &block16);
    seal_then_open(&Speck128_256::new([0, 1, 2, 4]), &block16);
}

#[test]
fn round_trip_extreme_blocks() {
    let cipher = Speck128_256::new([u64::MAX, 0, u64::MAX, 7]);
    seal_then_open(&cipher, &[0u8; 16]);
    seal_then_open(&cipher, &[0xffu8; 16]);
    let cipher = Speck64_96::new([u32::MAX, u32::MAX, u32::MAX]);
    seal_then_open(&cipher, &[0u8; 8]);
    seal_then_open(&cipher, &[0xffu8; 8]);
}

#[test]
fn words_round_trip() {
    let cipher = Speck64_128::new([9, 8, 7, 6]);
    let block = [0xdead_beef, 0x0123_4567];
    let sealed = cipher.encrypt_words(block);
    assert_ne!(sealed, block);
    assert_eq!(cipher.decrypt_words(sealed), block);

    let cipher = Speck128_192::new([1, 2, 3]);
    let block = [u64::MAX, 0];
    let sealed = cipher.encrypt_words(block);
    assert_ne!(sealed, block);
    assert_eq!(cipher.decrypt_words(sealed), block);
}

#[test]
fn key_of_wrong_length_is_refused() {
    assert_eq!(Speck64_96::new_slice(&[0; 11]).err(), Some(Error));
    assert_eq!(Speck64_96::new_slice(&[0; 13]).err(), Some(Error));
    assert_eq!(Speck64_128::new_slice(&[0; 12]).err(), Some(Error));
    assert_eq!(Speck128_128::new_slice(&[0; 15]).err(), Some(Error));
    assert_eq!(Speck128_128::new_slice(&[]).err(), Some(Error));
    assert_eq!(Speck128_192::new_slice(&[0; 16]).err(), Some(Error));
    assert_eq!(Speck128_256::new_slice(&[0; 33]).err(), Some(Error));
    assert!(Speck64_96::new_slice(&[0; 12]).is_ok());
    assert!(Speck64_128::new_slice(&[0; 16]).is_ok());
    assert!(Speck128_128::new_slice(&[0; 16]).is_ok());
    assert!(Speck128_192::new_slice(&[0; 24]).is_ok());
    assert!(Speck128_256::new_slice(&[0; 32]).is_ok());
}

#[test]
fn buffer_of_wrong_length_is_left_alone() {
    let cipher = Speck64_96::new([1, 2, 3]);
    for len in [0usize, 1, 4, 7, 9, 16] {
        let input: Vec<u8> = (0..len as u8).collect();
        let mut buffer = input.clone();
        assert_eq!(cipher.seal_in_place(&mut buffer), Err(Error));
        assert_eq!(buffer, input);
        assert_eq!(cipher.open_in_place(&mut buffer), Err(Error));
        assert_eq!(buffer, input);
    }
    let cipher = Speck128_256::new([1, 2, 3, 4]);
    for len in [0usize, 8, 15, 17, 32] {
        let input: Vec<u8> = (0..len as u8).collect();
        let mut buffer = input.clone();
        assert_eq!(cipher.seal_in_place(&mut buffer), Err(Error));
        assert_eq!(buffer, input);
        assert_eq!(cipher.open_in_place(&mut buffer), Err(Error));
        assert_eq!(buffer, input);
    }
}

#[test]
fn same_key_gives_same_ciphertext() {
    let key: Vec<u8> = (0u8..24).collect();
    let a = Speck128_192::new_slice(&key).unwrap();
    let b = Speck128_192::new_slice(&key).unwrap();
    let words = [
        u64::from_le_bytes(key[0..8].try_into().unwrap()),
        u64::from_le_bytes(key[8..16].try_into().unwrap()),
        u64::from_le_bytes(key[16..24].try_into().unwrap()),
    ];
    let c = Speck128_192::new(words);
    let mut x = [7u8; 16];
    let mut y = [7u8; 16];
    let mut z = [7u8; 16];
    a.seal_in_place(&mut x).unwrap();
    b.seal_in_place(&mut y).unwrap();
    c.seal_in_place(&mut z).unwrap();
    assert_eq!(x, y);
    assert_eq!(x, z);
}

#[test]
fn different_keys_differ() {
    let a = Speck64_128::new([0, 1, 2, 3]);
    let b = Speck64_128::new([0, 1, 2, 4]);
    assert_ne!(a.encrypt_words([5, 6]), b.encrypt_words([5, 6]));
}
