//! The runtime's crypto API: digests, constant-time comparison, HMAC-SHA256,
//! AES-128-GCM-SIV and the curve25519 operations. The primitives come from
//! `ring`, `blake3`, `md-5`, `hmac`/`sha2`, `aes-gcm-siv`, `x25519-dalek`,
//! `ed25519-dalek` and `curve25519-dalek`; what this module decides is which
//! inputs reach them and what the caller gets back.

use vstd::prelude::*;
use crate::text::str_eq;
use md5::Digest;
use hmac::Mac;
use aes_gcm_siv::aead::{Aead, NewAead};
use ed25519_dalek::{Signer, Verifier};

verus! {

/// The digest algorithms that the digest API knows by name.
#[derive(Debug, Clone, Copy, PartialEq, Eq, Structural)]
pub enum DigestAlgorithm {
    Sha1,
    Sha256,
    Sha384,
    Sha512,
    Blake3,
    Md5,
}

/// Why a crypto request is refused.
#[derive(Debug, Clone, Copy, PartialEq, Eq, Structural)]
pub enum CryptoError {
    /// The digest algorithm's name is unknown.
    InvalidAlgorithm,
    /// A key, nonce, public key or signature has the wrong number of bytes.
    InvalidLength,
    /// AES-GCM-SIV sealing failed (message or associated data too long).
    EncryptFailed,
    /// AES-GCM-SIV opening failed (the ciphertext is not authentic).
    DecryptFailed,
    /// An ed25519 public key is not the compressed form of a curve point.
    InvalidPublicKey,
    /// A curve point cannot be converted to the other curve form.
    InvalidCurve25519Param,
}

/// The algorithm that a name selects, if any.
pub open spec fn spec_digest_algorithm(name: Seq<char>) -> Option<DigestAlgorithm> {
    if name == "sha1"@ {
        Some(DigestAlgorithm::Sha1)
    } else if name == "sha256"@ {
        Some(DigestAlgorithm::Sha256)
    } else if name == "sha384"@ {
        Some(DigestAlgorithm::Sha384)
    } else if name == "sha512"@ {
        Some(DigestAlgorithm::Sha512)
    } else if name == "blake3"@ {
        Some(DigestAlgorithm::Blake3)
    } else if name == "md5"@ {
        Some(DigestAlgorithm::Md5)
    } else {
        None
    }
}

/// Looks up a digest algorithm by its name in the API.
pub fn digest_algorithm(name: &str) -> (res: Option<DigestAlgorithm>)
    ensures
        res == spec_digest_algorithm(name@),
{
    if str_eq(name, "sha1") {
        Some(DigestAlgorithm::Sha1)
    } else if str_eq(name, "sha256") {
        Some(DigestAlgorithm::Sha256)
    } else if str_eq(name, "sha384") {
        Some(DigestAlgorithm::Sha384)
    } else if str_eq(name, "sha512") {
        Some(DigestAlgorithm::Sha512)
    } else if str_eq(name, "blake3") {
        Some(DigestAlgorithm::Blake3)
    } else if str_eq(name, "md5") {
        Some(DigestAlgorithm::Md5)
    } else {
        None
    }
}

/// Whether `ring` computes the algorithm.
pub open spec fn is_ring_algorithm(alg: DigestAlgorithm) -> bool {
    alg == DigestAlgorithm::Sha1 || alg == DigestAlgorithm::Sha256 || alg == DigestAlgorithm::Sha384
        || alg == DigestAlgorithm::Sha512
}

/// The digest length of each algorithm, in bytes.
pub open spec fn digest_len(alg: DigestAlgorithm) -> nat {
    match alg {
        DigestAlgorithm::Sha1 => 20,
        DigestAlgorithm::Sha256 => 32,
        DigestAlgorithm::Sha384 => 48,
        DigestAlgorithm::Sha512 => 64,
        DigestAlgorithm::Blake3 => 32,
        DigestAlgorithm::Md5 => 16,
    }
}

/// `ring::digest::digest` with one of the SHA algorithms.
pub uninterp spec fn ring_digest_of(alg: DigestAlgorithm, data: Seq<u8>) -> Seq<u8>;

/// `blake3::hash`.
pub uninterp spec fn blake3_hash_of(data: Seq<u8>) -> Seq<u8>;

/// `md5::Md5::digest`.
pub uninterp spec fn md5_digest_of(data: Seq<u8>) -> Seq<u8>;

/// The digest of `data` under an algorithm, by the crate that computes it.
pub open spec fn spec_digest(alg: DigestAlgorithm, data: Seq<u8>) -> Seq<u8> {
    match alg {
        DigestAlgorithm::Blake3 => blake3_hash_of(data),
        DigestAlgorithm::Md5 => md5_digest_of(data),
        _ => ring_digest_of(alg, data),
    }
}

/// `ring::digest::digest` with SHA-1, SHA-256, SHA-384 or SHA-512: the digest
/// is named, and has the algorithm's output length.
#[verifier::external_body]
fn ring_digest(alg: DigestAlgorithm, data: &[u8]) -> (res: Vec<u8>)
    requires
        is_ring_algorithm(alg),
    ensures
        res@ == ring_digest_of(alg, data@),
        res@.len() == digest_len(alg),
{
    let algorithm: &'static ring::digest::Algorithm = match alg {
        DigestAlgorithm::Sha1 => &ring::digest::SHA1_FOR_LEGACY_USE_ONLY,
        DigestAlgorithm::Sha256 => &ring::digest::SHA256,
        DigestAlgorithm::Sha384 => &ring::digest::SHA384,
        _ => &ring::digest::SHA512,
    };
    ring::digest::digest(algorithm, data).as_ref().to_vec()
}

/// `blake3::hash`: the 32-byte BLAKE3 hash, named.
#[verifier::external_body]
fn blake3_hash(data: &[u8]) -> (res: Vec<u8>)
    ensures
        res@ == blake3_hash_of(data@),
        res@.len() == 32,
{
    blake3::hash(data).as_bytes().to_vec()
}

/// `md5::Md5::digest`: the 16-byte MD5 digest, named.
#[verifier::external_body]
fn md5_digest(data: &[u8]) -> (res: Vec<u8>)
    ensures
        res@ == md5_digest_of(data@),
        res@.len() == 16,
{
    md5::Md5::digest(data).to_vec()
}

/// The digest API: the digest of `data` under the algorithm called `alg`, or
/// `InvalidAlgorithm` when no algorithm has that name.
pub fn crypto_digest(alg: &str, data: &[u8]) -> (res: Result<Vec<u8>, CryptoError>)
    ensures
        match spec_digest_algorithm(alg@) {
            None => res == Err::<Vec<u8>, CryptoError>(CryptoError::InvalidAlgorithm),
            Some(a) => res matches Ok(out) && out@ == spec_digest(a, data@) && out@.len() == digest_len(a),
        },
{
    match digest_algorithm(alg) {
        None => Err(CryptoError::InvalidAlgorithm),
        Some(DigestAlgorithm::Blake3) => Ok(blake3_hash(data)),
        Some(DigestAlgorithm::Md5) => Ok(md5_digest(data)),
        Some(a) => Ok(ring_digest(a, data)),
    }
}

/// `ring::constant_time::verify_slices_are_equal`: succeeds exactly when the
/// two slices hold the same bytes.
#[verifier::external_body]
#[allow(deprecated)]
fn ring_verify_slices_are_equal(a: &[u8], b: &[u8]) -> (res: bool)
    ensures
        res == (a@ == b@),
{
    ring::constant_time::verify_slices_are_equal(a, b).is_ok()
}

/// Compares two byte strings in constant time.
pub fn constant_time_eq(a: &[u8], b: &[u8]) -> (res: bool)
    ensures
        res == (a@ == b@),
{
    ring_verify_slices_are_equal(a, b)
}

/// HMAC-SHA256 of `data` under `key`, as `hmac` computes it.
pub uninterp spec fn hmac_sha256_of(key: Seq<u8>, data: Seq<u8>) -> Seq<u8>;

/// `Hmac::<Sha256>::new_from_slice`, `update` and `finalize`: the 32-byte tag,
/// named. HMAC takes keys of any length, so the crate never reports an
/// invalid length here.
#[verifier::external_body]
fn hmac_sha256_tag(key: &[u8], data: &[u8]) -> (res: Result<Vec<u8>, ()>)
    ensures
        res is Ok,
        res matches Ok(t) ==> t@ == hmac_sha256_of(key@, data@) && t@.len() == 32,
{
    match <hmac::Hmac<sha2::Sha256> as Mac>::new_from_slice(key) {
        Ok(mut mac) => {
            mac.update(data);
            Ok(mac.finalize().into_bytes().to_vec())
        },
        Err(_) => Err(()),
    }
}

/// The HMAC-SHA256 API: the tag of `data` under `key`.
pub fn crypto_hmac_sha256(key: &[u8], data: &[u8]) -> (res: Vec<u8>)
    ensures
        res@ == hmac_sha256_of(key@, data@),
        res@.len() == 32,
{
    match hmac_sha256_tag(key, data) {
        Ok(t) => t,
        Err(_) => Vec::new(),
    }
}

/// The largest message or associated data AES-GCM-SIV seals, in bytes.
pub open spec fn aead_max_len() -> nat {
    0x10_0000_0000
}

/// The parameters of an AES-128-GCM-SIV call: a 16-byte key, a 12-byte nonce,
/// the message and the optional associated data.
pub struct AesGcmSivParams {
    key: Vec<u8>,
    nonce: Vec<u8>,
    data: Vec<u8>,
    associated_data: Option<Vec<u8>>,
}

impl AesGcmSivParams {
    /// The key's bytes.
    pub closed spec fn spec_key(&self) -> Seq<u8> {
        self.key@
    }

    /// The nonce's bytes.
    pub closed spec fn spec_nonce(&self) -> Seq<u8> {
        self.nonce@
    }

    /// The message's bytes.
    pub closed spec fn spec_data(&self) -> Seq<u8> {
        self.data@
    }

    /// The associated data; none counts as empty.
    pub closed spec fn spec_aad(&self) -> Seq<u8> {
        match self.associated_data {
            Some(a) => a@,
            None => Seq::empty(),
        }
    }

    /// A key of 16 bytes and a nonce of 12.
    pub closed spec fn wf(&self) -> bool {
        self.key@.len() == 16 && self.nonce@.len() == 12
    }

    /// Builds the parameters, refusing a key that is not 16 bytes long or a
    /// nonce that is not 12 bytes long.
    pub fn new(key: Vec<u8>, nonce: Vec<u8>, data: Vec<u8>, associated_data: Option<Vec<u8>>) -> (res: Result<
        AesGcmSivParams,
        CryptoError,
    >)
        ensures
            (key@.len() == 16 && nonce@.len() == 12) <==> res is Ok,
            !(key@.len() == 16 && nonce@.len() == 12) ==> res == Err::<AesGcmSivParams, CryptoError>(
                CryptoError::InvalidLength,
            ),
            res matches Ok(p) ==> {
                &&& p.wf()
                &&& p.spec_key() == key@
                &&& p.spec_nonce() == nonce@
                &&& p.spec_data() == data@
                &&& p.spec_aad() == match associated_data {
                    Some(a) => a@,
                    None => Seq::<u8>::empty(),
                }
            },
    {
        if key.len() != 16 || nonce.len() != 12 {
            return Err(CryptoError::InvalidLength);
        }
        Ok(AesGcmSivParams { key, nonce, data, associated_data })
    }
}

/// AES-128-GCM-SIV sealing of a message, as `aes-gcm-siv` computes it.
pub uninterp spec fn aes128_gcm_siv_seal(key: Seq<u8>, nonce: Seq<u8>, msg: Seq<u8>, aad: Seq<u8>) -> Seq<u8>;

/// AES-128-GCM-SIV opening of a ciphertext: the message, or none when the
/// ciphertext is not authentic.
pub uninterp spec fn aes128_gcm_siv_open(key: Seq<u8>, nonce: Seq<u8>, ct: Seq<u8>, aad: Seq<u8>) -> Option<Seq<u8>>;

/// `Aes128GcmSiv::encrypt`: fails exactly when the message or the associated
/// data is longer than 2^36 bytes; otherwise the ciphertext is named, is 16
/// bytes longer than the message, and opens back to the message under the
/// same key, nonce and associated data.
#[verifier::external_body]
fn aes_seal(key: &[u8], nonce: &[u8], msg: &[u8], aad: &[u8]) -> (res: Result<Vec<u8>, ()>)
    requires
        key@.len() == 16,
        nonce@.len() == 12,
    ensures
        (msg@.len() <= aead_max_len() && aad@.len() <= aead_max_len()) <==> res is Ok,
        res matches Ok(ct) ==> {
            &&& ct@ == aes128_gcm_siv_seal(key@, nonce@, msg@, aad@)
            &&& ct@.len() == msg@.len() + 16
            &&& aes128_gcm_siv_open(key@, nonce@, ct@, aad@) == Some(msg@)
        },
{
    let cipher = aes_gcm_siv::Aes128GcmSiv::new(aes_gcm_siv::Key::from_slice(key));
    let payload = aes_gcm_siv::aead::Payload { msg, aad };
    cipher.encrypt(aes_gcm_siv::Nonce::from_slice(nonce), payload).map_err(|_| ())
}

/// `Aes128GcmSiv::decrypt`: the opened message, named; an error exactly when
/// the name gives none. Opening recomputes the tag over the message it
/// decrypted and accepts only when it matches, so a message that opens (and
/// is short enough to seal) seals back to the very ciphertext it came from.
#[verifier::external_body]
fn aes_open(key: &[u8], nonce: &[u8], ct: &[u8], aad: &[u8]) -> (res: Result<Vec<u8>, ()>)
    requires
        key@.len() == 16,
        nonce@.len() == 12,
    ensures
        match aes128_gcm_siv_open(key@, nonce@, ct@, aad@) {
            Some(m) => res matches Ok(v) && v@ == m,
            None => res is Err,
        },
        res matches Ok(v) ==> (v@.len() <= aead_max_len() ==> aes128_gcm_siv_seal(key@, nonce@, v@, aad@) == ct@),
{
    let cipher = aes_gcm_siv::Aes128GcmSiv::new(aes_gcm_siv::Key::from_slice(key));
    let payload = aes_gcm_siv::aead::Payload { msg: ct, aad };
    cipher.decrypt(aes_gcm_siv::Nonce::from_slice(nonce), payload).map_err(|_| ())
}

/// The associated data of the parameters, empty when there is none.
fn aad_of(params: &AesGcmSivParams) -> (res: &[u8])
    ensures
        res@ == params.spec_aad(),
{
    match &params.associated_data {
        Some(a) => a.as_slice(),
        None => &[],
    }
}

/// AES-128-GCM-SIV encryption of the parameters' message: the ciphertext with
/// its 16-byte tag, or `EncryptFailed` when the message or the associated data
/// is longer than 2^36 bytes.
pub fn crypto_aead_aes128_gcm_siv_encrypt(params: &AesGcmSivParams) -> (res: Result<Vec<u8>, CryptoError>)
    requires
        params.wf(),
    ensures
        (params.spec_data().len() <= aead_max_len() && params.spec_aad().len() <= aead_max_len())
            <==> res is Ok,
        res is Err ==> res == Err::<Vec<u8>, CryptoError>(CryptoError::EncryptFailed),
        res matches Ok(ct) ==> {
            &&& ct@ == aes128_gcm_siv_seal(params.spec_key(), params.spec_nonce(), params.spec_data(), params.spec_aad())
            &&& ct@.len() == params.spec_data().len() + 16
            &&& aes128_gcm_siv_open(params.spec_key(), params.spec_nonce(), ct@, params.spec_aad()) == Some(
                params.spec_data(),
            )
        },
{
    let aad = aad_of(params);
    match aes_seal(params.key.as_slice(), params.nonce.as_slice(), params.data.as_slice(), aad) {
        Ok(ct) => Ok(ct),
        Err(_) => Err(CryptoError::EncryptFailed),
    }
}

/// AES-128-GCM-SIV decryption of the parameters' message (a ciphertext): the
/// plaintext, or `DecryptFailed` when the ciphertext is not authentic. Only
/// a sealed ciphertext opens: a plaintext that comes back (of at most 2^36
/// bytes) seals, under the same key, nonce and associated data, to exactly
/// the ciphertext given: no ciphertext opens but one that sealing gives.
pub fn crypto_aead_aes128_gcm_siv_decrypt(params: &AesGcmSivParams) -> (res: Result<Vec<u8>, CryptoError>)
    requires
        params.wf(),
    ensures
        match aes128_gcm_siv_open(params.spec_key(), params.spec_nonce(), params.spec_data(), params.spec_aad()) {
            Some(m) => res matches Ok(v) && v@ == m,
            None => res == Err::<Vec<u8>, CryptoError>(CryptoError::DecryptFailed),
        },
        res matches Ok(v) ==> (v@.len() <= aead_max_len() ==> aes128_gcm_siv_seal(
            params.spec_key(),
            params.spec_nonce(),
            v@,
            params.spec_aad(),
        ) == params.spec_data()),
{
    let aad = aad_of(params);
    match aes_open(params.key.as_slice(), params.nonce.as_slice(), params.data.as_slice(), aad) {
        Ok(m) => Ok(m),
        Err(_) => Err(CryptoError::DecryptFailed),
    }
}

/// The X25519 shared secret of a secret scalar and a public point.
pub uninterp spec fn x25519_shared_of(secret: Seq<u8>, public: Seq<u8>) -> Seq<u8>;

/// The X25519 public key of a secret scalar.
pub uninterp spec fn x25519_public_of(secret: Seq<u8>) -> Seq<u8>;

/// The ed25519 public key of a secret key.
pub uninterp spec fn ed25519_public_of(secret: Seq<u8>) -> Seq<u8>;

/// Whether `ed25519-dalek`'s `VerifyingKey::from_bytes` accepts a public key:
/// whether it decompresses to a curve point.
pub uninterp spec fn ed25519_public_decompresses(public: Seq<u8>) -> bool;

/// The ed25519 signature of a message under a secret key, with the given
/// public key hashed in, as `hazmat::raw_sign` computes it.
pub uninterp spec fn ed25519_signature_of(secret: Seq<u8>, public: Seq<u8>, msg: Seq<u8>) -> Seq<u8>;

/// Whether `ed25519-dalek`'s `verify` accepts a signature.
pub uninterp spec fn ed25519_accepts(public: Seq<u8>, msg: Seq<u8>, sig: Seq<u8>) -> bool;

/// Whether `ed25519-dalek`'s `verify_strict` accepts a signature.
pub uninterp spec fn ed25519_accepts_strict(public: Seq<u8>, msg: Seq<u8>, sig: Seq<u8>) -> bool;

/// The Montgomery form of a compressed Edwards point, if it decompresses.
pub uninterp spec fn edwards_to_montgomery_of(point: Seq<u8>) -> Option<Seq<u8>>;

/// The compressed Edwards form (sign 0) of a Montgomery point, if it has one.
pub uninterp spec fn montgomery_to_edwards_of(point: Seq<u8>) -> Option<Seq<u8>>;

/// `StaticSecret::diffie_hellman` of `x25519-dalek`: the 32-byte shared
/// secret, named.
#[verifier::external_body]
fn x25519_dh(secret: &[u8], public: &[u8]) -> (res: Vec<u8>)
    requires
        secret@.len() == 32,
        public@.len() == 32,
    ensures
        res@ == x25519_shared_of(secret@, public@),
        res@.len() == 32,
{
    let s: [u8; 32] = secret.try_into().unwrap();
    let p: [u8; 32] = public.try_into().unwrap();
    let secret = x25519_dalek::StaticSecret::from(s);
    secret.diffie_hellman(&x25519_dalek::PublicKey::from(p)).as_bytes().to_vec()
}

/// `x25519_dalek::PublicKey::from(&StaticSecret)`: the 32-byte public key,
/// named.
#[verifier::external_body]
fn x25519_public(secret: &[u8]) -> (res: Vec<u8>)
    requires
        secret@.len() == 32,
    ensures
        res@ == x25519_public_of(secret@),
        res@.len() == 32,
{
    let s: [u8; 32] = secret.try_into().unwrap();
    x25519_dalek::PublicKey::from(&x25519_dalek::StaticSecret::from(s)).as_bytes().to_vec()
}

/// `SigningKey::verifying_key` of `ed25519-dalek`: the 32-byte public key,
/// named; being the compression of a curve point, it decompresses.
#[verifier::external_body]
fn ed25519_public(secret: &[u8]) -> (res: Vec<u8>)
    requires
        secret@.len() == 32,
    ensures
        res@ == ed25519_public_of(secret@),
        res@.len() == 32,
        ed25519_public_decompresses(res@),
{
    let s: [u8; 32] = secret.try_into().unwrap();
    ed25519_dalek::SigningKey::from_bytes(&s).verifying_key().to_bytes().to_vec()
}

/// The compressed encoding of the identity point of edwards25519: y = 1,
/// sign bit 0.
pub open spec fn ed25519_identity_point() -> Seq<u8> {
    seq![1u8] + Seq::new(31, |i: int| 0u8)
}

/// `VerifyingKey::from_bytes`, then `hazmat::raw_sign` with SHA-512 on the
/// secret key expanded by `ExpandedSecretKey::from`, of `ed25519-dalek`:
/// `None` exactly when the public key does not decompress (the public key
/// that the secret key gives always does); else the 64-byte signature, named
/// over secret key, public key and message. Under the public key that the
/// secret key gives, `verify` accepts it, and so does `verify_strict` unless
/// its first half (the nonce point R) is the identity point, which
/// `verify_strict` refuses as a point of small order; signing gives that R
/// only when the nonce hash is a multiple of the group order.
#[verifier::external_body]
fn ed25519_sign_raw(public: &[u8], secret: &[u8], msg: &[u8]) -> (res: Option<Vec<u8>>)
    requires
        public@.len() == 32,
        secret@.len() == 32,
    ensures
        res is Some <==> ed25519_public_decompresses(public@),
        public@ == ed25519_public_of(secret@) ==> res is Some,
        res matches Some(sig) ==> (sig@ == ed25519_signature_of(secret@, public@, msg@) && sig@.len() == 64),
        res matches Some(sig) ==> (public@ == ed25519_public_of(secret@) ==> ed25519_accepts(public@, msg@, sig@)),
        res matches Some(sig) ==> ((public@ == ed25519_public_of(secret@) && sig@.take(32) != ed25519_identity_point())
            ==> ed25519_accepts_strict(public@, msg@, sig@)),
{
    let p: [u8; 32] = public.try_into().unwrap();
    let s: [u8; 32] = secret.try_into().unwrap();
    let key = ed25519_dalek::VerifyingKey::from_bytes(&p).ok()?;
    let esk = ed25519_dalek::hazmat::ExpandedSecretKey::from(&s);
    Some(ed25519_dalek::hazmat::raw_sign::<sha2::Sha512>(&esk, msg, &key).to_bytes().to_vec())
}

/// `VerifyingKey::from_bytes` and `verify` of `ed25519-dalek`: the verdict,
/// named; a public key that does not decompress is refused.
#[verifier::external_body]
fn ed25519_verify_lax(public: &[u8], msg: &[u8], sig: &[u8]) -> (res: bool)
    requires
        public@.len() == 32,
        sig@.len() == 64,
    ensures
        res == ed25519_accepts(public@, msg@, sig@),
        !ed25519_public_decompresses(public@) ==> !res,
{
    let p: [u8; 32] = public.try_into().unwrap();
    let s: [u8; 64] = sig.try_into().unwrap();
    match ed25519_dalek::VerifyingKey::from_bytes(&p) {
        Ok(key) => key.verify(msg, &ed25519_dalek::Signature::from_bytes(&s)).is_ok(),
        Err(_) => false,
    }
}

/// `VerifyingKey::from_bytes` and `verify_strict` of `ed25519-dalek`: the
/// verdict, named; a public key that does not decompress is refused.
#[verifier::external_body]
fn ed25519_verify_strict(public: &[u8], msg: &[u8], sig: &[u8]) -> (res: bool)
    requires
        public@.len() == 32,
        sig@.len() == 64,
    ensures
        res == ed25519_accepts_strict(public@, msg@, sig@),
        !ed25519_public_decompresses(public@) ==> !res,
{
    let p: [u8; 32] = public.try_into().unwrap();
    let s: [u8; 64] = sig.try_into().unwrap();
    match ed25519_dalek::VerifyingKey::from_bytes(&p) {
        Ok(key) => key.verify_strict(msg, &ed25519_dalek::Signature::from_bytes(&s)).is_ok(),
        Err(_) => false,
    }
}

/// `CompressedEdwardsY::decompress` and `to_montgomery` of
/// `curve25519-dalek`: the Montgomery point, named; none when the bytes do not
/// decompress.
#[verifier::external_body]
fn edwards_to_montgomery(point: &[u8]) -> (res: Option<Vec<u8>>)
    requires
        point@.len() == 32,
    ensures
        match edwards_to_montgomery_of(point@) {
            Some(m) => res matches Some(v) && v@ == m && m.len() == 32,
            None => res is None,
        },
{
    let p: [u8; 32] = point.try_into().unwrap();
    curve25519_dalek::edwards::CompressedEdwardsY(p).decompress().map(|e| e.to_montgomery().to_bytes().to_vec())
}

/// `MontgomeryPoint::to_edwards(0)` and `compress` of `curve25519-dalek`: the
/// compressed Edwards point, named; none when there is no such point.
#[verifier::external_body]
fn montgomery_to_edwards(point: &[u8]) -> (res: Option<Vec<u8>>)
    requires
        point@.len() == 32,
    ensures
        match montgomery_to_edwards_of(point@) {
            Some(e) => res matches Some(v) && v@ == e && e.len() == 32,
            None => res is None,
        },
{
    let p: [u8; 32] = point.try_into().unwrap();
    curve25519_dalek::montgomery::MontgomeryPoint(p).to_edwards(0).map(|e| e.compress().to_bytes().to_vec())
}

/// X25519 key agreement: the shared secret of our 32-byte secret and their
/// 32-byte public key; `InvalidLength` when either has another length.
pub fn crypto_x25519_diffie_hellman(our_secret: &[u8], their_public: &[u8]) -> (res: Result<Vec<u8>, CryptoError>)
    ensures
        (our_secret@.len() == 32 && their_public@.len() == 32) ==> (res matches Ok(v) && v@ == x25519_shared_of(
            our_secret@,
            their_public@,
        )),
        !(our_secret@.len() == 32 && their_public@.len() == 32) ==> res == Err::<Vec<u8>, CryptoError>(
            CryptoError::InvalidLength,
        ),
{
    if our_secret.len() != 32 || their_public.len() != 32 {
        return Err(CryptoError::InvalidLength);
    }
    Ok(x25519_dh(our_secret, their_public))
}

/// The X25519 public key of a 32-byte secret; `InvalidLength` otherwise.
pub fn crypto_x25519_derive_public(secret: &[u8]) -> (res: Result<Vec<u8>, CryptoError>)
    ensures
        secret@.len() == 32 ==> (res matches Ok(v) && v@ == x25519_public_of(secret@)),
        secret@.len() != 32 ==> res == Err::<Vec<u8>, CryptoError>(CryptoError::InvalidLength),
{
    if secret.len() != 32 {
        return Err(CryptoError::InvalidLength);
    }
    Ok(x25519_public(secret))
}

/// The ed25519 public key of a 32-byte secret key; `InvalidLength` otherwise.
pub fn crypto_ed25519_derive_public(secret: &[u8]) -> (res: Result<Vec<u8>, CryptoError>)
    ensures
        secret@.len() == 32 ==> (res matches Ok(v) && v@ == ed25519_public_of(secret@)),
        secret@.len() != 32 ==> res == Err::<Vec<u8>, CryptoError>(CryptoError::InvalidLength),
{
    if secret.len() != 32 {
        return Err(CryptoError::InvalidLength);
    }
    Ok(ed25519_public(secret))
}

/// Signs a message with an ed25519 key pair given as its two 32-byte halves.
/// Refused with `InvalidLength` when a half has another length, and with
/// `InvalidPublicKey` when the public half does not decompress; else the
/// signature of the message under the secret half with the public half
/// hashed in. When the public half is the one the secret half gives,
/// `crypto_ed25519_verify` accepts the signature under it, and its strict
/// form does too unless the signature's nonce point is the identity.
pub fn crypto_ed25519_sign(public: &[u8], secret: &[u8], message: &[u8]) -> (res: Result<Vec<u8>, CryptoError>)
    ensures
        !(public@.len() == 32 && secret@.len() == 32) ==> res == Err::<Vec<u8>, CryptoError>(
            CryptoError::InvalidLength,
        ),
        (public@.len() == 32 && secret@.len() == 32 && !ed25519_public_decompresses(public@)) ==> res == Err::<
            Vec<u8>,
            CryptoError,
        >(CryptoError::InvalidPublicKey),
        (public@.len() == 32 && secret@.len() == 32 && ed25519_public_decompresses(public@)) ==> (res matches Ok(
            sig,
        ) && sig@ == ed25519_signature_of(secret@, public@, message@) && sig@.len() == 64),
        (public@.len() == 32 && secret@.len() == 32 && public@ == ed25519_public_of(secret@)) ==> (res matches Ok(
            sig,
        ) && spec_ed25519_verify(public@, sig@, message@, false) && (sig@.take(32) != ed25519_identity_point()
            ==> spec_ed25519_verify(public@, sig@, message@, true))),
{
    if public.len() != 32 || secret.len() != 32 {
        return Err(CryptoError::InvalidLength);
    }
    match ed25519_sign_raw(public, secret, message) {
        Some(sig) => Ok(sig),
        None => Err(CryptoError::InvalidPublicKey),
    }
}

/// The verdict of the ed25519 verification API on public key, signature and
/// message, strict or not.
pub open spec fn spec_ed25519_verify(public: Seq<u8>, sig: Seq<u8>, msg: Seq<u8>, strict: bool) -> bool {
    &&& public.len() == 32
    &&& sig.len() == 64
    &&& if strict {
        ed25519_accepts_strict(public, msg, sig)
    } else {
        ed25519_accepts(public, msg, sig)
    }
}

/// Verifies an ed25519 signature; a public key that is not 32 bytes or a
/// signature that is not 64 bytes is simply not authentic.
pub fn crypto_ed25519_verify(public: &[u8], sig: &[u8], message: &[u8], strict: bool) -> (res: bool)
    ensures
        res == spec_ed25519_verify(public@, sig@, message@, strict),
{
    if public.len() != 32 || sig.len() != 64 {
        return false;
    }
    if strict {
        ed25519_verify_strict(public, message, sig)
    } else {
        ed25519_verify_lax(public, message, sig)
    }
}

/// The X25519 form of an ed25519 public key: `InvalidLength` unless it is 32
/// bytes, `InvalidCurve25519Param` when it does not decompress.
pub fn crypto_ed25519_pubkey_to_x25519(input: &[u8]) -> (res: Result<Vec<u8>, CryptoError>)
    ensures
        input@.len() != 32 ==> res == Err::<Vec<u8>, CryptoError>(CryptoError::InvalidLength),
        input@.len() == 32 ==> match edwards_to_montgomery_of(input@) {
            Some(m) => res matches Ok(v) && v@ == m,
            None => res == Err::<Vec<u8>, CryptoError>(CryptoError::InvalidCurve25519Param),
        },
{
    if input.len() != 32 {
        return Err(CryptoError::InvalidLength);
    }
    match edwards_to_montgomery(input) {
        Some(v) => Ok(v),
        None => Err(CryptoError::InvalidCurve25519Param),
    }
}

/// The ed25519 form (sign bit 0) of an X25519 public key: `InvalidLength`
/// unless it is 32 bytes, `InvalidCurve25519Param` when there is none.
pub fn crypto_x25519_pubkey_to_ed25519(input: &[u8]) -> (res: Result<Vec<u8>, CryptoError>)
    ensures
        input@.len() != 32 ==> res == Err::<Vec<u8>, CryptoError>(CryptoError::InvalidLength),
        input@.len() == 32 ==> match montgomery_to_edwards_of(input@) {
            Some(e) => res matches Ok(v) && v@ == e,
            None => res == Err::<Vec<u8>, CryptoError>(CryptoError::InvalidCurve25519Param),
        },
{
    if input.len() != 32 {
        return Err(CryptoError::InvalidLength);
    }
    match montgomery_to_edwards(input) {
        Some(v) => Ok(v),
        None => Err(CryptoError::InvalidCurve25519Param),
    }
}

} // verus!
