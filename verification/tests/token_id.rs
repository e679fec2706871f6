use erc721::hex::hex_encode;
use erc721::token_id::derive_token_id;
use sha3::{Digest, Keccak256};

#[test]
fn hex_of_nothing_is_empty() {
    assert_eq!(hex_encode(&[]), "");
}

#[test]
fn hex_has_two_lowercase_digits_per_byte() {
    assert_eq!(hex_encode(&[0x00]), "00");
    assert_eq!(hex_encode(&[0x0f]), "0f");
    assert_eq!(hex_encode(&[0xf0]), "f0");
    assert_eq!(hex_encode(&[0xff]), "ff");
    assert_eq!(hex_encode(&[0x00, 0xff, 0x1a]), "00ff1a");
    assert_eq!(hex_encode(&[0x01, 0x23, 0x45, 0x67, 0x89, 0xab, 0xcd, 0xef]), "0123456789abcdef");
}

#[test]
fn hex_of_every_byte() {
    let digits = "0123456789abcdef".as_bytes();
    for b in 0..=255u8 {
        let text = hex_encode(&[b]);
        let expected = [digits[(b / 16) as usize], digits[(b % 16) as usize]];
        assert_eq!(text.as_bytes(), &expected);
    }
}

#[test]
fn token_id_of_nonce_zero() {
    assert_eq!(
        derive_token_id(0),
        "ca647f2ab411497f664c8255c978e94d95d93d40c90afa0ef59cfef02a6155a8"
    );
}

#[test]
fn token_ids_of_the_next_nonces() {
    assert_eq!(
        derive_token_id(1),
        "c6504f825d15d4f847aa29f5d9bb4f96a0e36d3d2aa75086724df2001da5a06a"
    );
    assert_eq!(
        derive_token_id(2),
        "874680579c2831a5532a1dad24f8b974bbc3b75651ba24cf503ee70daac60ec2"
    );
    assert_eq!(
        derive_token_id(3),
        "09155705b2d6c3cd61bee945fd6f17332cc36614e7e7e5a76b07c8a72c71dbdd"
    );
}

#[test]
fn token_id_is_the_digest_of_tag_and_nonce() {
    for nonce in [0u64, 1, 255, 256, 0x0102_0304_0506_0708, u64::MAX] {
        let mut preimage = b"nft".to_vec();
        preimage.extend_from_slice(&nonce.to_le_bytes());
        let digest = Keccak256::digest(&preimage);
        let id = derive_token_id(nonce);
        assert_eq!(id, hex_encode(digest.as_slice()));
        assert_eq!(id.len(), 64);
        assert_ne!(id, hex_encode(&preimage));
    }
}

#[test]
fn token_id_differs_from_the_digest_of_the_bare_tag() {
    assert_ne!(
        derive_token_id(0),
        "7dd481eb4b63b94bb55e6b98aabb06c3b8484f82a4d656d6bca0b0cf9b446be0"
    );
}
