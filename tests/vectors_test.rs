use speck::{Speck128_128, Speck128_192, Speck128_256, Speck64_128, Speck64_96, SpeckCipher};

/// Bytes of a hex string.
fn unhex(s: &str) -> Vec<u8> {
    (0..s.len())
        .step_by(2)
        .map(|i| u8::from_str_radix(&s[i..i + 2], 16).unwrap())
        .collect()
}

struct Vector {
    name: &'static str,
    key: &'static str,
    plaintext: &'static str,
    ciphertext: &'static str,
}

/// The published vectors, as bytes: each key word and each block word
/// little-endian, key word 0 and block word `y` first.
const VECTORS: [Vector; 5] = [
    Vector {
        name: "SPECK-64/96",
        key: "0001020308090a0b10111213",
        plaintext: "65616e7320466174",
        ciphertext: "6c947541ec52799f",
    },
    Vector {
        name: "SPECK-64/128",
        key: "0001020308090a0b1011121318191a1b",
        plaintext: "2d4375747465723b",
        ciphertext: "8b024e4548a56f8c",
    },
    Vector {
        name: "SPECK-128/128",
        key: "000102030405060708090a0b0c0d0e0f",
        plaintext: "206d616465206974206571756976616c",
        ciphertext: "180d575cdffe60786532787951985da6",
    },
    Vector {
        name: "SPECK-128/192",
        key: "000102030405060708090a0b0c0d0e0f1011121314151617",
        plaintext: "656e7420746f20436869656620486172",
        ciphertext: "86183ce05d18bcf9665513133acfe41b",
    },
    Vector {
        name: "SPECK-128/256",
        key: "000102030405060708090a0b0c0d0e0f101112131415161718191a1b1c1d1e1f",
        plaintext: "706f6f6e65722e20496e2074686f7365",
        ciphertext: "438f189c8db4ee4e3ef5c00504010941",
    },
];

fn seal_with(vector: &Vector, buffer: &mut [u8]) {
    let key = unhex(vector.key);
    match vector.name {
        "SPECK-64/96" => Speck64_96::new_slice(&key).unwrap().seal_in_place(buffer).unwrap(),
        "SPECK-64/128" => Speck64_128::new_slice(&key).unwrap().seal_in_place(buffer).unwrap(),
        "SPECK-128/128" => Speck128_128::new_slice(&key).unwrap().seal_in_place(buffer).unwrap(),
        "SPECK-128/192" => Speck128_192::new_slice(&key).unwrap().seal_in_place(buffer).unwrap(),
        "SPECK-128/256" => Speck128_256::new_slice(&key).unwrap().seal_in_place(buffer).unwrap(),
        _ => panic!("unknown type {}", vector.name),
    }
}

fn run_test_vector(vector: &Vector) {
    let mut plaintext = unhex(vector.plaintext);
    let ciphertext = unhex(vector.ciphertext);
    seal_with(vector, &mut plaintext);
    assert_eq!(plaintext, ciphertext, "{}", vector.name);
}

#[test]
fn test_vectors() {
    for vector in VECTORS.iter() {
        run_test_vector(vector);
    }
}

#[test]
fn vectors_by_words() {
    let c = Speck64_96::new([0x03020100, 0x0b0a0908, 0x13121110]);
    assert_eq!(c.encrypt_words([0x736e6165, 0x74614620]), [0x4175946c, 0x9f7952ec]);
    let c = Speck64_128::new([0x03020100, 0x0b0a0908, 0x13121110, 0x1b1a1918]);
    assert_eq!(c.encrypt_words([0x7475432d, 0x3b726574]), [0x454e028b, 0x8c6fa548]);
    let c = Speck128_128::new([0x0706050403020100, 0x0f0e0d0c0b0a0908]);
    assert_eq!(
        c.encrypt_words([0x7469206564616d20, 0x6c61766975716520]),
        [0x7860fedf5c570d18, 0xa65d985179783265]
    );
    let c = Speck128_192::new([0x0706050403020100, 0x0f0e0d0c0b0a0908, 0x1716151413121110]);
    assert_eq!(
        c.encrypt_words([0x43206f7420746e65, 0x7261482066656968]),
        [0xf9bc185de03c1886, 0x1be4cf3a13135566]
    );
    let c = Speck128_256::new([
        0x0706050403020100,
        0x0f0e0d0c0b0a0908,
        0x1716151413121110,
        0x1f1e1d1c1b1a1918,
    ]);
    assert_eq!(
        c.encrypt_words([0x202e72656e6f6f70, 0x65736f6874206e49]),
        [0x4eeeb48d9c188f43, 0x4109010405c0f53e]
    );
    assert_eq!(
        c.decrypt_words([0x4eeeb48d9c188f43, 0x4109010405c0f53e]),
        [0x202e72656e6f6f70, 0x65736f6874206e49]
    );
}

#[test]
fn open_known_ciphertext() {
    let key = unhex("000102030405060708090a0b0c0d0e0f");
    let cipher = Speck128_128::new_slice(&key).unwrap();
    let mut buffer = unhex("180d575cdffe60786532787951985da6");
    cipher.open_in_place(&mut buffer).unwrap();
    assert_eq!(buffer, unhex("206d616465206974206571756976616c"));
}
