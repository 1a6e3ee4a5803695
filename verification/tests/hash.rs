use talk::hash::{hash, HashError, Hasher, Identity, HASH_LENGTH};

fn hex(hash: &talk::hash::Hash) -> String {
    String::from_utf8(hash.to_hex()).unwrap()
}

#[test]
fn digest_of_empty_input() {
    let digest = Hasher::new().finalize();
    assert_eq!(
        hex(&digest),
        "af1349b9f5f9a1a6a0404dea36dcc9499bcb25c9adc112b7cc9a93cae41f3262"
    );
}

#[test]
fn digest_agrees_with_blake3() {
    let message = b"the quick brown fox".to_vec();
    let digest = hash(Some(message.clone())).unwrap();
    assert_eq!(digest.to_bytes(), *blake3::hash(&message).as_bytes());
    assert_ne!(digest.to_bytes().to_vec(), message);
    assert_eq!(hex(&digest), blake3::hash(&message).to_hex().to_string());
}

#[test]
fn hash_is_deterministic() {
    let first = hash(Some(vec![1, 2, 3, 4])).unwrap();
    let second = hash(Some(vec![1, 2, 3, 4])).unwrap();
    let other = hash(Some(vec![1, 2, 3, 5])).unwrap();
    assert_eq!(first, second);
    assert!(first.same(&second));
    assert_ne!(first, other);
}

#[test]
fn pieces_hash_as_the_whole() {
    let mut hasher = Hasher::new();
    hasher.update_raw(b"foo");
    hasher.update(Some(b"bar".to_vec())).unwrap();
    hasher.update_raw(b"baz");
    assert_eq!(hasher.finalize(), hash(Some(b"foobarbaz".to_vec())).unwrap());
}

#[test]
fn unserialisable_message_is_refused() {
    assert_eq!(hash(None), Err(HashError::SerializeFailed));
    let mut hasher = Hasher::new();
    assert_eq!(hasher.update(None), Err(HashError::SerializeFailed));
    assert_eq!(hasher.finalize(), Hasher::new().finalize());
}

#[test]
fn hash_from_and_to_bytes() {
    let mut bytes = [0u8; HASH_LENGTH];
    bytes[0] = 0xab;
    bytes[31] = 0x0f;
    let hash = talk::hash::Hash::from(bytes);
    assert_eq!(hash.to_bytes(), bytes);
    let text = hex(&hash);
    assert_eq!(text.len(), 64);
    assert!(text.starts_with("ab00"));
    assert!(text.ends_with("000f"));
}

#[test]
fn identities_compare_by_value() {
    let one = Identity::from_hash(talk::hash::Hash::from([1u8; 32]));
    let same = Identity::from_hash(talk::hash::Hash::from([1u8; 32]));
    let other = Identity::from_hash(talk::hash::Hash::from([2u8; 32]));
    assert_eq!(one, same);
    assert_ne!(one, other);
    assert_eq!(one.hash(), talk::hash::Hash::from([1u8; 32]));
}
