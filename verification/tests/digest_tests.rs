use governance_core::digest::{hash_delegation_payload, hash_description, hash_to_vec};

fn blake2_direct(input: &[u8]) -> [u8; 32] {
    let mut out = [0u8; 32];
    ink::env::hash_bytes::<ink::env::hash::Blake2x256>(input, &mut out);
    out
}

#[test]
fn description_digest_is_blake2_of_the_bytes() {
    let description = b"treasury motion".to_vec();
    let ours = hash_description(&description);
    assert_eq!(ours, blake2_direct(&description));
    assert_ne!(ours, blake2_direct(b"treasury motion!"));
    assert_ne!(&ours[..], &description[..]);
}

#[test]
fn delegation_digest_hashes_the_scale_encoded_tuple() {
    let delegatee: u64 = 42;
    let nonce: u128 = 7;
    let expiry: u32 = 1000;
    let encoded = parity_scale_codec::Encode::encode(&(delegatee, nonce, expiry));
    let mut expected_bytes: Vec<u8> = Vec::new();
    expected_bytes.extend_from_slice(&delegatee.to_le_bytes());
    expected_bytes.extend_from_slice(&nonce.to_le_bytes());
    expected_bytes.extend_from_slice(&expiry.to_le_bytes());
    assert_eq!(encoded, expected_bytes);
    let ours = hash_delegation_payload(delegatee, nonce, expiry);
    assert_eq!(ours, blake2_direct(&encoded));
    assert_ne!(
        ours,
        hash_delegation_payload(delegatee, nonce + 1, expiry),
        "a different nonce must sign a different payload"
    );
}

#[test]
fn hash_to_vec_copies_all_bytes() {
    let digest = hash_description(&b"x".to_vec());
    let copied = hash_to_vec(&digest);
    assert_eq!(copied.len(), 32);
    assert_eq!(&copied[..], &digest[..]);
}
