use journald::hash::{rhash64, hashlittle, hashlittle2, hashword, hashword2, hash_size, hash_mask};

#[test]
fn test_hash_field_obj_payload() {
    let payload = b"_SOURCE_MONOTONIC_TIMESTAMP";
    let expected = 306791107295704799;
    let calc = rhash64(payload);
    assert_eq!(expected, calc);
}

#[test]
fn hash_test_hash_field_obj_payload() {
    let payload = b"_SOURCE_MONOTONIC_TIMESTAMP";
    let expected = 306791107295704799;
    let calc = rhash64(payload);
    assert_eq!(expected, calc);
}

#[test]
fn test_hashlittle() {
    let mut c: u32;
    c = 0;
    c = hashlittle(b"", c);
    assert_eq!(c, 0xdeadbeef);

    c = 0xdeadbeef;
    c = hashlittle(b"", c);
    assert_eq!(c, 0xbd5b7dde);

    c = 0;
    c = hashlittle(b"Four score and seven years ago", c);
    assert_eq!(c, 0x17770551);

    c = 1;
    c = hashlittle(b"Four score and seven years ago", c);
    assert_eq!(c, 0xcd628161);
}

#[test]
fn test_hashlittle2() {
    let (c, b) = hashlittle2(b"", 0, 0);
    assert_eq!(c, 0xdeadbeef);
    assert_eq!(b, 0xdeadbeef);

    let (c, b) = hashlittle2(b"", 0, 0xdeadbeef);
    assert_eq!(c, 0xbd5b7dde);
    assert_eq!(b, 0xdeadbeef);

    let (c, b) = hashlittle2(b"", 0xdeadbeef, 0xdeadbeef);
    assert_eq!(c, 0x9c093ccd);
    assert_eq!(b, 0xbd5b7dde);

    let (c, b) = hashlittle2(b"Four score and seven years ago", 0, 0);
    assert_eq!(c, 0x17770551);
    assert_eq!(b, 0xce7226e6);

    let (c, b) = hashlittle2(b"Four score and seven years ago", 0, 1);
    assert_eq!(c, 0xe3607cae);
    assert_eq!(b, 0xbd371de4);

    let (c, b) = hashlittle2(b"Four score and seven years ago", 1, 0);
    assert_eq!(c, 0xcd628161);
    assert_eq!(b, 0x6cbea4b3);
}

#[test]
fn test_hashing_repeatedly() {
    let buf: [u8; 1] = [!0];
    let mut h: u32 = 0;

    h = hashlittle(&buf[0..0], h);
    assert_eq!(h, 0xdeadbeef);

    h = hashlittle(&buf[0..0], h);
    assert_eq!(h, 0xbd5b7dde);

    h = hashlittle(&buf[0..0], h);
    assert_eq!(h, 0x9c093ccd);

    h = hashlittle(&buf[0..0], h);
    assert_eq!(h, 0x7ab6fbbc);

    h = hashlittle(&buf[0..0], h);
    assert_eq!(h, 0x5964baab);

    h = hashlittle(&buf[0..0], h);
    assert_eq!(h, 0x3812799a);

    h = hashlittle(&buf[0..0], h);
    assert_eq!(h, 0x16c03889);

    h = hashlittle(&buf[0..0], h);
    assert_eq!(h, 0xf56df778);
}

// The hash depends on the bytes alone, not on where they sit in memory:
// the same string read from a 4-aligned and from an odd address hashes
// identically.
#[test]
fn test_rhash64_alignment_independent() {
    let msg = b"MESSAGE=alignment does not matter";
    let mut shifted: Vec<u8> = vec![0u8];
    shifted.extend_from_slice(msg);
    let aligned = rhash64(msg);
    let unaligned = rhash64(&shifted[1..]);
    assert_eq!(aligned, unaligned);

    let mut shifted3: Vec<u8> = vec![0u8, 0u8, 0u8];
    shifted3.extend_from_slice(msg);
    assert_eq!(aligned, rhash64(&shifted3[3..]));
}

// Every tail length from 0 to 13 bytes, so each branch of the trailing
// block gets exercised against fixed expectations of determinism.
#[test]
fn test_hashlittle2_tail_lengths() {
    let base: Vec<u8> = (0u8..64u8).collect();
    for n in 0..14 {
        let (c1, b1) = hashlittle2(&base[..n], 5, 7);
        let copy: Vec<u8> = base[..n].to_vec();
        let (c2, b2) = hashlittle2(&copy, 5, 7);
        assert_eq!((c1, b1), (c2, b2));
    }
}

// On whole little-endian words the word hash and the byte hash agree,
// as long as the input is not empty.
#[test]
fn test_hashword_matches_hashlittle_on_words() {
    let words: Vec<u32> = vec![
        0x03020100, 0x07060504, 0x0b0a0908, 0x0f0e0d0c, 0x13121110, 0x17161514, 0x1b1a1918,
    ];
    for n in 1..=words.len() {
        let mut bytes: Vec<u8> = Vec::new();
        for w in &words[..n] {
            bytes.extend_from_slice(&w.to_le_bytes());
        }
        let (c2, b2) = hashword2(&words[..n], 9, 3);
        let (cl, bl) = hashlittle2(&bytes, 9, 3);
        assert_eq!((c2, b2), (cl, bl));
        assert_eq!(hashword(&words[..n], 11), hashlittle(&bytes, 11));
    }
}

#[test]
fn test_hash_size_and_mask() {
    assert_eq!(hash_size(0), 1);
    assert_eq!(hash_size(4), 16);
    assert_eq!(hash_size(10), 1024);
    assert_eq!(hash_mask(4), 15);
    assert_eq!(hash_mask(10), 1023);
}
