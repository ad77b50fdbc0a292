use blueboat::codec::{codec_hexdecode, codec_hexencode};
use blueboat::crypto::{
    constant_time_eq, crypto_aead_aes128_gcm_siv_decrypt, crypto_aead_aes128_gcm_siv_encrypt, crypto_digest,
    crypto_ed25519_derive_public, crypto_ed25519_pubkey_to_x25519, crypto_ed25519_sign, crypto_ed25519_verify,
    crypto_hmac_sha256, crypto_x25519_derive_public, crypto_x25519_diffie_hellman, crypto_x25519_pubkey_to_ed25519,
    digest_algorithm, AesGcmSivParams, CryptoError, DigestAlgorithm,
};

fn h(s: &str) -> Vec<u8> {
    codec_hexdecode(s.as_bytes()).unwrap()
}

fn hx(b: &[u8]) -> String {
    codec_hexencode(b)
}

#[test]
fn digest_known_values() {
    assert_eq!(hx(&crypto_digest("sha1", b"abc").unwrap()), "a9993e364706816aba3e25717850c26c9cd0d89d");
    assert_eq!(
        hx(&crypto_digest("sha256", b"abc").unwrap()),
        "ba7816bf8f01cfea414140de5dae2223b00361a396177a9cb410ff61f20015ad"
    );
    assert_eq!(
        hx(&crypto_digest("sha384", b"abc").unwrap()),
        "cb00753f45a35e8bb5a03d699ac65007272c32ab0eded1631a8b605a43ff5bed8086072ba1e7cc2358baeca134c825a7"
    );
    assert_eq!(
        hx(&crypto_digest("sha512", b"abc").unwrap()),
        "ddaf35a193617abacc417349ae20413112e6fa4e89a97ea20a9eeee64b55d39a2192992a274fc1a836ba3c23a3feebbd454d4423643ce80e2a9ac94fa54ca49f"
    );
    assert_eq!(hx(&crypto_digest("md5", b"abc").unwrap()), "900150983cd24fb0d6963f7d28e17f72");
    assert_eq!(
        hx(&crypto_digest("blake3", b"abc").unwrap()),
        "6437b3ac38465133ffb63b75273a8db548c558465d79db03fd359c6cd5bd9d85"
    );
}

#[test]
fn digest_unknown_algorithm() {
    assert_eq!(crypto_digest("sha3", b"abc"), Err(CryptoError::InvalidAlgorithm));
    assert_eq!(digest_algorithm("SHA256"), None);
    assert_eq!(digest_algorithm("sha256"), Some(DigestAlgorithm::Sha256));
}

#[test]
fn constant_time_comparison() {
    assert!(constant_time_eq(b"abc", b"abc"));
    assert!(!constant_time_eq(b"abc", b"abd"));
    assert!(!constant_time_eq(b"abc", b"ab"));
    assert!(constant_time_eq(b"", b""));
}

#[test]
fn hmac_sha256_known_value() {
    assert_eq!(
        hx(&crypto_hmac_sha256(b"Jefe", b"what do ya want for nothing?")),
        "5bdcc146bf60754e6a042426089575c75a003f089d2739839dec58b964ec3843"
    );
}

#[test]
fn aead_known_value_and_roundtrip() {
    let key = h("01000000000000000000000000000000");
    let nonce = h("030000000000000000000000");
    let p = AesGcmSivParams::new(key.clone(), nonce.clone(), vec![], None).unwrap();
    assert_eq!(hx(&crypto_aead_aes128_gcm_siv_encrypt(&p).unwrap()), "dc20e2d83f25705bb49e439eca56de25");

    let msg = b"attack at dawn".to_vec();
    let p = AesGcmSivParams::new(key.clone(), nonce.clone(), msg.clone(), Some(b"hdr".to_vec())).unwrap();
    let ct = crypto_aead_aes128_gcm_siv_encrypt(&p).unwrap();
    assert_eq!(ct.len(), msg.len() + 16);
    let d = AesGcmSivParams::new(key.clone(), nonce.clone(), ct.clone(), Some(b"hdr".to_vec())).unwrap();
    assert_eq!(crypto_aead_aes128_gcm_siv_decrypt(&d), Ok(msg));
    let wrong_aad = AesGcmSivParams::new(key.clone(), nonce.clone(), ct.clone(), None).unwrap();
    assert_eq!(crypto_aead_aes128_gcm_siv_decrypt(&wrong_aad), Err(CryptoError::DecryptFailed));
    let mut altered = ct;
    altered[0] ^= 1;
    let altered = AesGcmSivParams::new(key.clone(), nonce.clone(), altered, Some(b"hdr".to_vec())).unwrap();
    assert_eq!(crypto_aead_aes128_gcm_siv_decrypt(&altered), Err(CryptoError::DecryptFailed));
}

#[test]
fn aead_parameter_lengths() {
    assert!(matches!(
        AesGcmSivParams::new(vec![0; 15], vec![0; 12], vec![], None),
        Err(CryptoError::InvalidLength)
    ));
    assert!(matches!(
        AesGcmSivParams::new(vec![0; 16], vec![0; 11], vec![], None),
        Err(CryptoError::InvalidLength)
    ));
}

#[test]
fn x25519_known_values() {
    let alice = h("77076d0a7318a57d3c16c17251b26645df4c2f87ebc0992ab177fba51db92c2a");
    let bob = h("5dab087e624a8a4b79e17f8b83800ee66f3bb1292618b6fd1c2f8b27ff88e0eb");
    let alice_pub = crypto_x25519_derive_public(&alice).unwrap();
    let bob_pub = crypto_x25519_derive_public(&bob).unwrap();
    assert_eq!(hx(&alice_pub), "8520f0098930a754748b7ddcb43ef75a0dbf3a0d26381af4eba4a98eaa9b4e6a");
    assert_eq!(hx(&bob_pub), "de9edb7d7b7dc1b4d35b61c2ece435373f8343c85b78674dadfc7e146f882b4f");
    let shared = "4a5d9d5ba4ce2de1728e3bf480350f25e07e21c947d19e3376f09b3c1e161742";
    assert_eq!(hx(&crypto_x25519_diffie_hellman(&alice, &bob_pub).unwrap()), shared);
    assert_eq!(hx(&crypto_x25519_diffie_hellman(&bob, &alice_pub).unwrap()), shared);
    assert_eq!(crypto_x25519_diffie_hellman(&alice[..31], &bob_pub), Err(CryptoError::InvalidLength));
}

#[test]
fn ed25519_known_values() {
    let secret = h("9d61b19deffd5a60ba844af492ec2cc44449c5697b326919703bac031cae7f60");
    let public = crypto_ed25519_derive_public(&secret).unwrap();
    assert_eq!(hx(&public), "d75a980182b10ab7d54bfed3c964073a0ee172f3daa62325af021a68f707511a");
    let sig = crypto_ed25519_sign(&public, &secret, b"").unwrap();
    assert_eq!(
        hx(&sig),
        "e5564300c360ac729086e2cc806e828a84877f1eb8e5d974d873e065224901555fb8821590a33bacc61e39701cf9b46bd25bf5f0595bbe24655141438e7a100b"
    );
    assert!(crypto_ed25519_verify(&public, &sig, b"", false));
    assert!(crypto_ed25519_verify(&public, &sig, b"", true));
    assert!(!crypto_ed25519_verify(&public, &sig, b"x", false));
    assert!(!crypto_ed25519_verify(&public, &sig[..63], b"", false));
}

#[test]
fn ed25519_sign_then_verify() {
    let secret = vec![7u8; 32];
    let public = crypto_ed25519_derive_public(&secret).unwrap();
    let sig = crypto_ed25519_sign(&public, &secret, b"message").unwrap();
    assert!(crypto_ed25519_verify(&public, &sig, b"message", false));
    assert!(crypto_ed25519_verify(&public, &sig, b"message", true));
    // A public key of another secret key still signs, but the signature does
    // not verify under either key.
    let other = crypto_ed25519_derive_public(&[9u8; 32]).unwrap();
    let odd = crypto_ed25519_sign(&other, &secret, b"message").unwrap();
    assert_eq!(odd.len(), 64);
    assert_ne!(odd, sig);
    assert!(!crypto_ed25519_verify(&other, &odd, b"message", false));
    assert!(!crypto_ed25519_verify(&public, &odd, b"message", false));
    // y = 2 is not the y-coordinate of a curve point.
    let mut not_a_point = vec![0u8; 32];
    not_a_point[0] = 2;
    assert_eq!(crypto_ed25519_sign(&not_a_point, &secret, b"message"), Err(CryptoError::InvalidPublicKey));
    assert!(!crypto_ed25519_verify(&not_a_point, &sig, b"message", false));
    assert_eq!(crypto_ed25519_sign(&public[..31], &secret, b"m"), Err(CryptoError::InvalidLength));
}

#[test]
fn curve_conversions() {
    let public = h("d75a980182b10ab7d54bfed3c964073a0ee172f3daa62325af021a68f707511a");
    let x = crypto_ed25519_pubkey_to_x25519(&public).unwrap();
    assert_eq!(x.len(), 32);
    assert_ne!(x, public);
    assert_eq!(crypto_x25519_pubkey_to_ed25519(&x).unwrap(), public);
    assert_eq!(crypto_ed25519_pubkey_to_x25519(&public[..3]), Err(CryptoError::InvalidLength));
    assert_eq!(crypto_x25519_pubkey_to_ed25519(&[]), Err(CryptoError::InvalidLength));
}
