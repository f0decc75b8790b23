use marrow_run::digest::{
    hmac_sha256, prf_u128, push_lower_hex, random_bool, random_decimal_units, random_int,
    hash_bytes, slug, stable_uuid, HashArity, HashOp,
};
use sha2::{Digest, Sha256};

fn hex(bytes: &[u8]) -> String {
    bytes.iter().map(|b| format!("{b:02x}")).collect()
}

#[test]
fn digests_match_known_vectors() {
    assert_eq!(
        hex(&hash_bytes(HashOp::Sha256, &[b"abc".to_vec()]).unwrap()),
        "ba7816bf8f01cfea414140de5dae2223b00361a396177a9cb410ff61f20015ad"
    );
    assert_eq!(hash_bytes(HashOp::Sha512, &[b"abc".to_vec()]).unwrap().len(), 64);
    assert_eq!(&hex(&hash_bytes(HashOp::Sha512, &[vec![]]).unwrap())[..16], "cf83e1357eefb8bd");
}

#[test]
fn hmac_matches_rfc_4231() {
    let key = [0x0bu8; 20];
    assert_eq!(
        hex(&hmac_sha256(&key, b"Hi There")),
        "b0344c61d8db38535ca8afceaf0bf12b881dc200c9833da726e9376c2e32cff7"
    );
    assert_eq!(
        hex(&hmac_sha256(b"Jefe", b"what do ya want for nothing?")),
        "5bdcc146bf60754e6a042426089575c75a003f089d2739839dec58b964ec3843"
    );
    let long_key = [0xaau8; 131];
    assert_eq!(
        hex(&hmac_sha256(&long_key, b"Test Using Larger Than Block-Size Key - Hash Key First")),
        "60e431591ee0b67f0d8a26aacbf5b77f8e0bc6213728c5140546040f0ee37f54"
    );
}

#[test]
fn stable_uuid_is_version_four_shaped() {
    let id = stable_uuid("marrow");
    let digest = Sha256::digest(b"marrow");
    let mut bytes = [0u8; 16];
    bytes.copy_from_slice(&digest[..16]);
    bytes[6] = (bytes[6] & 0x0f) | 0x40;
    bytes[8] = (bytes[8] & 0x3f) | 0x80;
    let h = hex(&bytes);
    let expected = format!("{}-{}-{}-{}-{}", &h[0..8], &h[8..12], &h[12..16], &h[16..20], &h[20..32]);
    assert_eq!(id, expected);
    assert_eq!(id.len(), 36);
    assert_eq!(&id[14..15], "4");
    assert_ne!(stable_uuid("marrow"), stable_uuid("marrow2"));
}

#[test]
fn random_streams_are_deterministic_and_in_range() {
    let mut message = Vec::new();
    message.extend_from_slice(b"random.int");
    message.push(0);
    message.extend_from_slice(&4u64.to_be_bytes());
    message.extend_from_slice(b"seed");
    message.extend_from_slice(&3i64.to_be_bytes());
    message.extend_from_slice(&0u64.to_be_bytes());
    let digest = Sha256::digest(&message);
    let mut first = [0u8; 16];
    first.copy_from_slice(&digest[..16]);
    assert_eq!(prf_u128("random.int", "seed", 3, 0), u128::from_be_bytes(first));
    for step in 0..50 {
        let v = random_int("seed", step, -3, 3).unwrap();
        assert!((-3..=3).contains(&v));
        assert_eq!(random_int("seed", step, -3, 3), Some(v));
    }
    assert_eq!(random_int("s", 1, 5, 5), Some(5));
    assert!(random_int("s", 1, i64::MIN, i64::MAX).is_some());
    assert_eq!(random_bool("s", 2), prf_u128("random.bool", "s", 2, 0) % 2 == 1);
    let units = random_decimal_units("s", 2);
    assert!((0..1_000_000_000_000_000_000).contains(&units));
}

#[test]
fn slugs_keep_ascii_letters_and_digits() {
    assert_eq!(slug("Hello, World! 2024"), "hello-world-2024");
    assert_eq!(slug("  --Already-Slugged--  "), "already-slugged");
    assert_eq!(slug("Café"), "caf");
    assert_eq!(slug(""), "");
    let mut out = String::from("x");
    push_lower_hex(&mut out, &[0x0a, 0xff]);
    assert_eq!(out, "x0aff");
}

#[test]
fn hash_operations_dispatch_by_name_and_arity() {
    assert_eq!(HashOp::from_name("sha256"), Some(HashOp::Sha256));
    assert_eq!(HashOp::from_name("sha512"), Some(HashOp::Sha512));
    assert_eq!(HashOp::from_name("hmacSha256"), Some(HashOp::HmacSha256));
    assert_eq!(HashOp::from_name("md5"), None);
    assert_eq!(hash_bytes(HashOp::Sha256, &[]), Err(HashArity));
    assert_eq!(hash_bytes(HashOp::Sha512, &[vec![1], vec![2]]), Err(HashArity));
    assert_eq!(hash_bytes(HashOp::HmacSha256, &[b"key".to_vec()]), Err(HashArity));
    assert_eq!(
        hash_bytes(HashOp::HmacSha256, &[b"Jefe".to_vec(), b"what do ya want for nothing?".to_vec()]),
        Ok(hmac_sha256(b"Jefe", b"what do ya want for nothing?"))
    );
}
