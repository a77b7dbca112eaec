//! Trusted wrappers around the cryptographic crates.
//!
//! Each wrapper makes one outside call and converts its arguments and
//! result between byte vectors and the crate's own types.  Results that
//! are deterministic functions of the arguments alone — signature
//! verification and key validation — are named by uninterpreted
//! specification functions, so that callers' contracts can speak of them
//! exactly; nothing is promised of randomized results (key generation,
//! signing) beyond their documented sizes.

use vstd::prelude::*;

verus! {

use k256::elliptic_curve::sec1::ToEncodedPoint;

/// Whether P-256 ECDSA verification accepts `sig` over `msg` under the
/// uncompressed SEC1 key `point`; false as well when the key fails to
/// decode.
pub uninterp spec fn p256_accepts(point: Seq<u8>, msg: Seq<u8>, sig: Seq<u8>) -> bool;

/// Whether P-384 ECDSA verification accepts `sig` over `msg` under `point`.
pub uninterp spec fn p384_accepts(point: Seq<u8>, msg: Seq<u8>, sig: Seq<u8>) -> bool;

/// Whether secp256k1 ECDSA verification accepts `sig` over `msg` under `point`.
pub uninterp spec fn k256_accepts(point: Seq<u8>, msg: Seq<u8>, sig: Seq<u8>) -> bool;

/// Whether `sig` parses as a fixed-size P-256 ECDSA signature.
pub uninterp spec fn p256_sig_ok(sig: Seq<u8>) -> bool;

/// Whether `sig` parses as a fixed-size P-384 ECDSA signature.
pub uninterp spec fn p384_sig_ok(sig: Seq<u8>) -> bool;

/// Whether `sig` parses as a fixed-size secp256k1 ECDSA signature.
pub uninterp spec fn k256_sig_ok(sig: Seq<u8>) -> bool;

/// Whether `point` decodes as a P-256 public key in SEC1 form.
pub uninterp spec fn p256_point_ok(point: Seq<u8>) -> bool;

/// Whether `point` decodes as a P-384 public key in SEC1 form.
pub uninterp spec fn p384_point_ok(point: Seq<u8>) -> bool;

/// Whether `point` decodes as a secp256k1 public key in SEC1 form.
pub uninterp spec fn k256_point_ok(point: Seq<u8>) -> bool;

/// Whether RSA PKCS#1 v1.5 over SHA-256 accepts `sig` over `msg` under the
/// big-endian public key `(e, n)`; false as well when the key is invalid.
pub uninterp spec fn rsa_v15_sha256_accepts(e: Seq<u8>, n: Seq<u8>, msg: Seq<u8>, sig: Seq<u8>) -> bool;

/// Whether RSA PKCS#1 v1.5 over SHA-384 accepts `sig` over `msg` under `(e, n)`.
pub uninterp spec fn rsa_v15_sha384_accepts(e: Seq<u8>, n: Seq<u8>, msg: Seq<u8>, sig: Seq<u8>) -> bool;

/// Whether RSA PKCS#1 v1.5 over SHA-512 accepts `sig` over `msg` under `(e, n)`.
pub uninterp spec fn rsa_v15_sha512_accepts(e: Seq<u8>, n: Seq<u8>, msg: Seq<u8>, sig: Seq<u8>) -> bool;

/// Whether RSA-PSS over SHA-256 accepts `sig` over `msg` under `(e, n)`.
pub uninterp spec fn rsa_pss_sha256_accepts(e: Seq<u8>, n: Seq<u8>, msg: Seq<u8>, sig: Seq<u8>) -> bool;

/// Whether RSA-PSS over SHA-384 accepts `sig` over `msg` under `(e, n)`.
pub uninterp spec fn rsa_pss_sha384_accepts(e: Seq<u8>, n: Seq<u8>, msg: Seq<u8>, sig: Seq<u8>) -> bool;

/// Whether RSA-PSS over SHA-512 accepts `sig` over `msg` under `(e, n)`.
pub uninterp spec fn rsa_pss_sha512_accepts(e: Seq<u8>, n: Seq<u8>, msg: Seq<u8>, sig: Seq<u8>) -> bool;

/// Whether `(e, n)` in big-endian bytes is a valid RSA public key: the
/// modulus carries at most 4096 bits and the exponent's value lies in
/// `[2, 2^33 - 1]` — exactly the checks `rsa::RsaPublicKey::new` runs.
pub open spec fn rsa_key_ok(e: Seq<u8>, n: Seq<u8>) -> bool {
    crate::keyfs::rsa_mod_bits(n) <= 4096 && 2 <= crate::keyfs::be_val(e) <= 8589934591
}

/// The bit length of the modulus inside a PKCS#1 DER private key; a
/// deterministic function of the encoding alone.
pub uninterp spec fn rsa_der_mod_bits(der: Seq<u8>) -> int;

/// Whether a PKCS#1 DER decodes to a sound private key the signing
/// backend can run on: consistent non-degenerate primes (so the decoder's
/// precomputation has nothing to divide by zero or one) and a modulus no
/// smaller than the signature paddings need.  A deterministic function of
/// the encoding alone.
pub uninterp spec fn rsa_der_ok(der: Seq<u8>) -> bool;

/// The big-endian public components `(e, n)` embedded in a PKCS#1 DER
/// private key; a deterministic function of the encoding alone.
pub uninterp spec fn rsa_der_pub(der: Seq<u8>) -> (Seq<u8>, Seq<u8>);

/// The uncompressed SEC1 point of a P-256 scalar: the public key the
/// curve arithmetic derives, a deterministic function of the scalar.
pub uninterp spec fn p256_point_of(scalar: Seq<u8>) -> Seq<u8>;

/// The uncompressed SEC1 point of a P-384 scalar.
pub uninterp spec fn p384_point_of(scalar: Seq<u8>) -> Seq<u8>;

/// The uncompressed SEC1 point of a secp256k1 scalar.
pub uninterp spec fn k256_point_of(scalar: Seq<u8>) -> Seq<u8>;

/// A byte of a hyphenated, lower-case UUID: a decimal digit, a lower-case
/// hex letter, or a hyphen.
pub open spec fn is_uuid_byte(b: u8) -> bool {
    (48 <= b <= 57) || (97 <= b <= 102) || b == 45
}

/// Relies on `uuid::Uuid::new_v4` and its hyphenated display form: 36
/// ASCII bytes of lower-case hex digits and hyphens.  The value is random;
/// nothing more is promised of it.
#[verifier::external_body]
pub(crate) fn fresh_name() -> (r: Vec<u8>)
    ensures
        r@.len() == 36,
        forall|i: int| 0 <= i < 36 ==> is_uuid_byte(#[trigger] r@[i]),
{
    uuid::Uuid::new_v4().to_string().into_bytes()
}

/// Relies on `rsa::RsaPrivateKey::new`: a fresh key of exactly `bits`
/// modulus bits — the generator retries until the modulus has the asked
/// bit size — returned as its PKCS#1 DER, with the public exponent and
/// modulus in big-endian bytes.  `to_bytes_be` strips leading zeros, so
/// the modulus bytes carry exactly `bits` bits; the public part of a
/// fresh key passes `rsa::RsaPublicKey::new`.  The key itself is random;
/// nothing more is promised of it.
#[verifier::external_body]
pub(crate) fn rsa_generate(bits: usize) -> (r: Option<(Vec<u8>, Vec<u8>, Vec<u8>)>)
    requires
        bits == 2048 || bits == 3072 || bits == 4096,
    ensures
        r matches Some(m) ==> rsa_key_ok(m.1@, m.2@)
            && crate::keyfs::rsa_mod_bits(m.2@) == bits && rsa_der_mod_bits(m.0@) == bits
            && rsa_der_ok(m.0@) && rsa_der_pub(m.0@) == (m.1@, m.2@),
{
    let sk = match rsa::RsaPrivateKey::new(&mut rand::thread_rng(), bits) {
        Ok(k) => k,
        Err(_) => return None,
    };
    let der = match rsa::pkcs1::EncodeRsaPrivateKey::to_pkcs1_der(&sk) {
        Ok(d) => d,
        Err(_) => return None,
    };
    let pk = sk.to_public_key();
    let e = rsa::PublicKeyParts::e(&pk).to_bytes_be();
    let n = rsa::PublicKeyParts::n(&pk).to_bytes_be();
    Some((der.as_bytes().to_vec(), e, n))
}

/// Relies on `rsa::RsaPublicKey::new`: acceptance is exactly the bound
/// on the modulus bits and the exponent range that [`rsa_key_ok`]
/// states, nothing else.
#[verifier::external_body]
pub(crate) fn rsa_key_check(e: &Vec<u8>, n: &Vec<u8>) -> (r: bool)
    ensures
        r == rsa_key_ok(e@, n@),
{
    let eb = rsa::BigUint::from_bytes_be(e);
    let nb = rsa::BigUint::from_bytes_be(n);
    rsa::RsaPublicKey::new(nb, eb).is_ok()
}

/// Relies on `rsa::pkcs1v15::SigningKey::<Sha256>::try_sign_digest_with_rng`
/// over the PKCS#1 DER secret key; the decoder's precomputation and the
/// padding demand a sound, full-size key, which the soundness name
/// excludes everything else by.  A fresh signature is accepted by the
/// verifier under the key's own public half.
#[verifier::external_body]
pub(crate) fn rsa_v15_sha256_sign(der: &Vec<u8>, msg: &Vec<u8>) -> (r: Option<Vec<u8>>)
    requires
        rsa_der_ok(der@),
    ensures
        r matches Some(sig) ==> rsa_v15_sha256_accepts(
            rsa_der_pub(der@).0,
            rsa_der_pub(der@).1,
            msg@,
            sig@,
        ),
{
    let sk: rsa::RsaPrivateKey =
        match rsa::pkcs1::DecodeRsaPrivateKey::from_pkcs1_der(der.as_slice()) {
            Ok(k) => k,
            Err(_) => return None,
        };
    let key = rsa::pkcs1v15::SigningKey::<sha2::Sha256>::new_with_prefix(sk);
    let d = <sha2::Sha256 as sha2::Digest>::new_with_prefix(msg.as_slice());
    match signature::RandomizedDigestSigner::try_sign_digest_with_rng(
        &key, rand::thread_rng(), d) {
        Ok(s) => Some(signature::Signature::as_bytes(&s).to_vec()),
        Err(_) => None,
    }
}

/// Relies on `rsa::pkcs1v15::SigningKey::<Sha384>::try_sign_digest_with_rng`
/// over the PKCS#1 DER secret key; the decoder's precomputation and the
/// padding demand a sound, full-size key, which the soundness name
/// excludes everything else by.  A fresh signature is accepted by the
/// verifier under the key's own public half.
#[verifier::external_body]
pub(crate) fn rsa_v15_sha384_sign(der: &Vec<u8>, msg: &Vec<u8>) -> (r: Option<Vec<u8>>)
    requires
        rsa_der_ok(der@),
    ensures
        r matches Some(sig) ==> rsa_v15_sha384_accepts(
            rsa_der_pub(der@).0,
            rsa_der_pub(der@).1,
            msg@,
            sig@,
        ),
{
    let sk: rsa::RsaPrivateKey =
        match rsa::pkcs1::DecodeRsaPrivateKey::from_pkcs1_der(der.as_slice()) {
            Ok(k) => k,
            Err(_) => return None,
        };
    let key = rsa::pkcs1v15::SigningKey::<sha2::Sha384>::new_with_prefix(sk);
    let d = <sha2::Sha384 as sha2::Digest>::new_with_prefix(msg.as_slice());
    match signature::RandomizedDigestSigner::try_sign_digest_with_rng(
        &key, rand::thread_rng(), d) {
        Ok(s) => Some(signature::Signature::as_bytes(&s).to_vec()),
        Err(_) => None,
    }
}

/// Relies on `rsa::pkcs1v15::SigningKey::<Sha512>::try_sign_digest_with_rng`
/// over the PKCS#1 DER secret key; the decoder's precomputation and the
/// padding demand a sound, full-size key, which the soundness name
/// excludes everything else by.  A fresh signature is accepted by the
/// verifier under the key's own public half.
#[verifier::external_body]
pub(crate) fn rsa_v15_sha512_sign(der: &Vec<u8>, msg: &Vec<u8>) -> (r: Option<Vec<u8>>)
    requires
        rsa_der_ok(der@),
    ensures
        r matches Some(sig) ==> rsa_v15_sha512_accepts(
            rsa_der_pub(der@).0,
            rsa_der_pub(der@).1,
            msg@,
            sig@,
        ),
{
    let sk: rsa::RsaPrivateKey =
        match rsa::pkcs1::DecodeRsaPrivateKey::from_pkcs1_der(der.as_slice()) {
            Ok(k) => k,
            Err(_) => return None,
        };
    let key = rsa::pkcs1v15::SigningKey::<sha2::Sha512>::new_with_prefix(sk);
    let d = <sha2::Sha512 as sha2::Digest>::new_with_prefix(msg.as_slice());
    match signature::RandomizedDigestSigner::try_sign_digest_with_rng(
        &key, rand::thread_rng(), d) {
        Ok(s) => Some(signature::Signature::as_bytes(&s).to_vec()),
        Err(_) => None,
    }
}

/// Relies on `rsa::pss::BlindedSigningKey::<Sha256>::try_sign_digest_with_rng`.
/// The PSS routines size the encoded message from the modulus bit length
/// and misbehave when that length is one past a byte boundary, so such
/// moduli are excluded; the library only signs with keys it generated,
/// whose sizes are byte-aligned.
#[verifier::external_body]
pub(crate) fn rsa_pss_sha256_sign(der: &Vec<u8>, msg: &Vec<u8>) -> (r: Option<Vec<u8>>)
    requires
        rsa_der_ok(der@),
        rsa_der_mod_bits(der@) % 8 != 1,
    ensures
        r matches Some(sig) ==> rsa_pss_sha256_accepts(
            rsa_der_pub(der@).0,
            rsa_der_pub(der@).1,
            msg@,
            sig@,
        ),
{
    let sk: rsa::RsaPrivateKey =
        match rsa::pkcs1::DecodeRsaPrivateKey::from_pkcs1_der(der.as_slice()) {
            Ok(k) => k,
            Err(_) => return None,
        };
    let key = rsa::pss::BlindedSigningKey::<sha2::Sha256>::from(sk);
    let d = <sha2::Sha256 as sha2::Digest>::new_with_prefix(msg.as_slice());
    match signature::RandomizedDigestSigner::try_sign_digest_with_rng(
        &key, rand::thread_rng(), d) {
        Ok(s) => Some(signature::Signature::as_bytes(&s).to_vec()),
        Err(_) => None,
    }
}

/// Relies on `rsa::pss::BlindedSigningKey::<Sha384>::try_sign_digest_with_rng`.
/// The PSS routines size the encoded message from the modulus bit length
/// and misbehave when that length is one past a byte boundary, so such
/// moduli are excluded; the library only signs with keys it generated,
/// whose sizes are byte-aligned.
#[verifier::external_body]
pub(crate) fn rsa_pss_sha384_sign(der: &Vec<u8>, msg: &Vec<u8>) -> (r: Option<Vec<u8>>)
    requires
        rsa_der_ok(der@),
        rsa_der_mod_bits(der@) % 8 != 1,
    ensures
        r matches Some(sig) ==> rsa_pss_sha384_accepts(
            rsa_der_pub(der@).0,
            rsa_der_pub(der@).1,
            msg@,
            sig@,
        ),
{
    let sk: rsa::RsaPrivateKey =
        match rsa::pkcs1::DecodeRsaPrivateKey::from_pkcs1_der(der.as_slice()) {
            Ok(k) => k,
            Err(_) => return None,
        };
    let key = rsa::pss::BlindedSigningKey::<sha2::Sha384>::from(sk);
    let d = <sha2::Sha384 as sha2::Digest>::new_with_prefix(msg.as_slice());
    match signature::RandomizedDigestSigner::try_sign_digest_with_rng(
        &key, rand::thread_rng(), d) {
        Ok(s) => Some(signature::Signature::as_bytes(&s).to_vec()),
        Err(_) => None,
    }
}

/// Relies on `rsa::pss::BlindedSigningKey::<Sha512>::try_sign_digest_with_rng`.
/// The PSS routines size the encoded message from the modulus bit length
/// and misbehave when that length is one past a byte boundary, so such
/// moduli are excluded; the library only signs with keys it generated,
/// whose sizes are byte-aligned.
#[verifier::external_body]
pub(crate) fn rsa_pss_sha512_sign(der: &Vec<u8>, msg: &Vec<u8>) -> (r: Option<Vec<u8>>)
    requires
        rsa_der_ok(der@),
        rsa_der_mod_bits(der@) % 8 != 1,
    ensures
        r matches Some(sig) ==> rsa_pss_sha512_accepts(
            rsa_der_pub(der@).0,
            rsa_der_pub(der@).1,
            msg@,
            sig@,
        ),
{
    let sk: rsa::RsaPrivateKey =
        match rsa::pkcs1::DecodeRsaPrivateKey::from_pkcs1_der(der.as_slice()) {
            Ok(k) => k,
            Err(_) => return None,
        };
    let key = rsa::pss::BlindedSigningKey::<sha2::Sha512>::from(sk);
    let d = <sha2::Sha512 as sha2::Digest>::new_with_prefix(msg.as_slice());
    match signature::RandomizedDigestSigner::try_sign_digest_with_rng(
        &key, rand::thread_rng(), d) {
        Ok(s) => Some(signature::Signature::as_bytes(&s).to_vec()),
        Err(_) => None,
    }
}

/// Relies on `rsa::pkcs1v15::VerifyingKey::<Sha256>::verify_digest`; the
/// PKCS#1 v1.5 signature type accepts any byte string, so the result is a
/// function of the key, message and signature bytes alone.
#[verifier::external_body]
pub(crate) fn rsa_v15_sha256_verify(e: &Vec<u8>, n: &Vec<u8>, msg: &Vec<u8>, sig: &Vec<u8>) -> (r:
    bool)
    ensures
        r == rsa_v15_sha256_accepts(e@, n@, msg@, sig@),
{
    let eb = rsa::BigUint::from_bytes_be(e);
    let nb = rsa::BigUint::from_bytes_be(n);
    let pk = match rsa::RsaPublicKey::new(nb, eb) {
        Ok(k) => k,
        Err(_) => return false,
    };
    let key = rsa::pkcs1v15::VerifyingKey::<sha2::Sha256>::new_with_prefix(pk);
    let d = <sha2::Sha256 as sha2::Digest>::new_with_prefix(msg.as_slice());
    let s = rsa::pkcs1v15::Signature::from(sig.clone());
    signature::DigestVerifier::verify_digest(&key, d, &s).is_ok()
}

/// Relies on `rsa::pkcs1v15::VerifyingKey::<Sha384>::verify_digest`.
#[verifier::external_body]
pub(crate) fn rsa_v15_sha384_verify(e: &Vec<u8>, n: &Vec<u8>, msg: &Vec<u8>, sig: &Vec<u8>) -> (r:
    bool)
    ensures
        r == rsa_v15_sha384_accepts(e@, n@, msg@, sig@),
{
    let eb = rsa::BigUint::from_bytes_be(e);
    let nb = rsa::BigUint::from_bytes_be(n);
    let pk = match rsa::RsaPublicKey::new(nb, eb) {
        Ok(k) => k,
        Err(_) => return false,
    };
    let key = rsa::pkcs1v15::VerifyingKey::<sha2::Sha384>::new_with_prefix(pk);
    let d = <sha2::Sha384 as sha2::Digest>::new_with_prefix(msg.as_slice());
    let s = rsa::pkcs1v15::Signature::from(sig.clone());
    signature::DigestVerifier::verify_digest(&key, d, &s).is_ok()
}

/// Relies on `rsa::pkcs1v15::VerifyingKey::<Sha512>::verify_digest`.
#[verifier::external_body]
pub(crate) fn rsa_v15_sha512_verify(e: &Vec<u8>, n: &Vec<u8>, msg: &Vec<u8>, sig: &Vec<u8>) -> (r:
    bool)
    ensures
        r == rsa_v15_sha512_accepts(e@, n@, msg@, sig@),
{
    let eb = rsa::BigUint::from_bytes_be(e);
    let nb = rsa::BigUint::from_bytes_be(n);
    let pk = match rsa::RsaPublicKey::new(nb, eb) {
        Ok(k) => k,
        Err(_) => return false,
    };
    let key = rsa::pkcs1v15::VerifyingKey::<sha2::Sha512>::new_with_prefix(pk);
    let d = <sha2::Sha512 as sha2::Digest>::new_with_prefix(msg.as_slice());
    let s = rsa::pkcs1v15::Signature::from(sig.clone());
    signature::DigestVerifier::verify_digest(&key, d, &s).is_ok()
}

/// Relies on `rsa::pss::VerifyingKey::<Sha256>::verify_digest`; PSS
/// verification is deterministic although signing is randomized.
/// The PSS padding check sizes its buffer from the modulus bit length
/// and aborts on moduli one bit past a byte boundary, and its modular
/// arithmetic cannot take a degenerate modulus; both are excluded, and
/// the keystore never stores either.
#[verifier::external_body]
pub(crate) fn rsa_pss_sha256_verify(e: &Vec<u8>, n: &Vec<u8>, msg: &Vec<u8>, sig: &Vec<u8>) -> (r:
    bool)
    requires
        crate::keyfs::rsa_mod_bits(n@) >= 2,
        crate::keyfs::rsa_mod_bits(n@) % 8 != 1,
    ensures
        r == rsa_pss_sha256_accepts(e@, n@, msg@, sig@),
{
    let eb = rsa::BigUint::from_bytes_be(e);
    let nb = rsa::BigUint::from_bytes_be(n);
    let pk = match rsa::RsaPublicKey::new(nb, eb) {
        Ok(k) => k,
        Err(_) => return false,
    };
    let key = rsa::pss::VerifyingKey::<sha2::Sha256>::from(pk);
    let d = <sha2::Sha256 as sha2::Digest>::new_with_prefix(msg.as_slice());
    let s = rsa::pss::Signature::from(sig.clone());
    signature::DigestVerifier::verify_digest(&key, d, &s).is_ok()
}

/// Relies on `rsa::pss::VerifyingKey::<Sha384>::verify_digest`.
/// The PSS padding check sizes its buffer from the modulus bit length
/// and aborts on moduli one bit past a byte boundary, and its modular
/// arithmetic cannot take a degenerate modulus; both are excluded, and
/// the keystore never stores either.
#[verifier::external_body]
pub(crate) fn rsa_pss_sha384_verify(e: &Vec<u8>, n: &Vec<u8>, msg: &Vec<u8>, sig: &Vec<u8>) -> (r:
    bool)
    requires
        crate::keyfs::rsa_mod_bits(n@) >= 2,
        crate::keyfs::rsa_mod_bits(n@) % 8 != 1,
    ensures
        r == rsa_pss_sha384_accepts(e@, n@, msg@, sig@),
{
    let eb = rsa::BigUint::from_bytes_be(e);
    let nb = rsa::BigUint::from_bytes_be(n);
    let pk = match rsa::RsaPublicKey::new(nb, eb) {
        Ok(k) => k,
        Err(_) => return false,
    };
    let key = rsa::pss::VerifyingKey::<sha2::Sha384>::from(pk);
    let d = <sha2::Sha384 as sha2::Digest>::new_with_prefix(msg.as_slice());
    let s = rsa::pss::Signature::from(sig.clone());
    signature::DigestVerifier::verify_digest(&key, d, &s).is_ok()
}

/// Relies on `rsa::pss::VerifyingKey::<Sha512>::verify_digest`.
/// The PSS padding check sizes its buffer from the modulus bit length
/// and aborts on moduli one bit past a byte boundary, and its modular
/// arithmetic cannot take a degenerate modulus; both are excluded, and
/// the keystore never stores either.
#[verifier::external_body]
pub(crate) fn rsa_pss_sha512_verify(e: &Vec<u8>, n: &Vec<u8>, msg: &Vec<u8>, sig: &Vec<u8>) -> (r:
    bool)
    requires
        crate::keyfs::rsa_mod_bits(n@) >= 2,
        crate::keyfs::rsa_mod_bits(n@) % 8 != 1,
    ensures
        r == rsa_pss_sha512_accepts(e@, n@, msg@, sig@),
{
    let eb = rsa::BigUint::from_bytes_be(e);
    let nb = rsa::BigUint::from_bytes_be(n);
    let pk = match rsa::RsaPublicKey::new(nb, eb) {
        Ok(k) => k,
        Err(_) => return false,
    };
    let key = rsa::pss::VerifyingKey::<sha2::Sha512>::from(pk);
    let d = <sha2::Sha512 as sha2::Digest>::new_with_prefix(msg.as_slice());
    let s = rsa::pss::Signature::from(sig.clone());
    signature::DigestVerifier::verify_digest(&key, d, &s).is_ok()
}

/// Relies on `ecdsa::SigningKey::<p256::NistP256>::random`; the
/// exported point is the standard uncompressed SEC1 form, which the
/// key decoder accepts back: a fresh P-256
/// key as its 32 raw scalar bytes and its 65-byte uncompressed SEC1 point.
#[verifier::external_body]
pub(crate) fn p256_generate() -> (r: (Vec<u8>, Vec<u8>))
    ensures
        r.0@.len() == 32,
        r.1@.len() == 65,
        r.1@ == p256_point_of(r.0@),
        p256_point_ok(r.1@),
        r.1@[0] == 4,
{
    let sk = p256::ecdsa::SigningKey::random(&mut rand::thread_rng());
    let pk = sk.verifying_key().to_encoded_point(false);
    (sk.to_bytes().to_vec(), pk.as_bytes().to_vec())
}

/// Relies on `ecdsa::SigningKey::<p384::NistP384>::random`; the
/// exported point is the standard uncompressed SEC1 form, which the
/// key decoder accepts back: 48 scalar
/// bytes and a 97-byte uncompressed SEC1 point.
#[verifier::external_body]
pub(crate) fn p384_generate() -> (r: (Vec<u8>, Vec<u8>))
    ensures
        r.0@.len() == 48,
        r.1@.len() == 97,
        r.1@ == p384_point_of(r.0@),
        p384_point_ok(r.1@),
        r.1@[0] == 4,
{
    let sk = p384::ecdsa::SigningKey::random(&mut rand::thread_rng());
    let pk = sk.verifying_key().to_encoded_point(false);
    (sk.to_bytes().to_vec(), pk.as_bytes().to_vec())
}

/// Relies on `ecdsa::SigningKey::<k256::Secp256k1>::random`; the
/// exported point is the standard uncompressed SEC1 form, which the
/// key decoder accepts back: 32 scalar
/// bytes and a 65-byte uncompressed SEC1 point.
#[verifier::external_body]
pub(crate) fn k256_generate() -> (r: (Vec<u8>, Vec<u8>))
    ensures
        r.0@.len() == 32,
        r.1@.len() == 65,
        r.1@ == k256_point_of(r.0@),
        k256_point_ok(r.1@),
        r.1@[0] == 4,
{
    let sk = k256::ecdsa::SigningKey::random(&mut rand::thread_rng());
    let pk = sk.verifying_key().to_encoded_point(false);
    (sk.to_bytes().to_vec(), pk.as_bytes().to_vec())
}

/// Relies on `ecdsa::SigningKey::<p256::NistP256>::try_sign_digest_with_rng`
/// over SHA-256: a 64-byte `r || s` signature that the matching
/// `VerifyingKey` — the one `verifying_key` derives from the scalar —
/// accepts over the same digest, as the signing/verification pair is
/// built to do.  The nonce is random.
#[verifier::external_body]
pub(crate) fn p256_sign(sk: &Vec<u8>, msg: &Vec<u8>) -> (r: Option<Vec<u8>>)
    ensures
        r matches Some(sig) ==> sig@.len() == 64 && p256_sig_ok(sig@) && p256_accepts(
            p256_point_of(sk@),
            msg@,
            sig@,
        ),
{
    let key = match p256::ecdsa::SigningKey::from_bytes(sk.as_slice()) {
        Ok(k) => k,
        Err(_) => return None,
    };
    let d = <sha2::Sha256 as sha2::Digest>::new_with_prefix(msg.as_slice());
    let sig: p256::ecdsa::Signature = match signature::RandomizedDigestSigner::
        try_sign_digest_with_rng(&key, rand::thread_rng(), d) {
        Ok(s) => s,
        Err(_) => return None,
    };
    Some(signature::Signature::as_bytes(&sig).to_vec())
}

/// Relies on `ecdsa::SigningKey::<p384::NistP384>::try_sign_digest_with_rng`
/// over SHA-384: a 96-byte `r || s` signature that the scalar's own
/// verification key accepts over the same digest.
#[verifier::external_body]
pub(crate) fn p384_sign(sk: &Vec<u8>, msg: &Vec<u8>) -> (r: Option<Vec<u8>>)
    ensures
        r matches Some(sig) ==> sig@.len() == 96 && p384_sig_ok(sig@) && p384_accepts(
            p384_point_of(sk@),
            msg@,
            sig@,
        ),
{
    let key = match p384::ecdsa::SigningKey::from_bytes(sk.as_slice()) {
        Ok(k) => k,
        Err(_) => return None,
    };
    let d = <sha2::Sha384 as sha2::Digest>::new_with_prefix(msg.as_slice());
    let sig: p384::ecdsa::Signature = match signature::RandomizedDigestSigner::
        try_sign_digest_with_rng(&key, rand::thread_rng(), d) {
        Ok(s) => s,
        Err(_) => return None,
    };
    Some(signature::Signature::as_bytes(&sig).to_vec())
}

/// Relies on `ecdsa::SigningKey::<k256::Secp256k1>::try_sign_digest_with_rng`
/// over SHA-256: a 64-byte `r || s` signature that the scalar's own
/// verification key accepts over the same digest.
#[verifier::external_body]
pub(crate) fn k256_sign(sk: &Vec<u8>, msg: &Vec<u8>) -> (r: Option<Vec<u8>>)
    ensures
        r matches Some(sig) ==> sig@.len() == 64 && k256_sig_ok(sig@) && k256_accepts(
            k256_point_of(sk@),
            msg@,
            sig@,
        ),
{
    let key = match k256::ecdsa::SigningKey::from_bytes(sk.as_slice()) {
        Ok(k) => k,
        Err(_) => return None,
    };
    let d = <sha2::Sha256 as sha2::Digest>::new_with_prefix(msg.as_slice());
    let sig: k256::ecdsa::Signature = match signature::RandomizedDigestSigner::
        try_sign_digest_with_rng(&key, rand::thread_rng(), d) {
        Ok(s) => s,
        Err(_) => return None,
    };
    Some(signature::Signature::as_bytes(&sig).to_vec())
}

/// Relies on `ecdsa::Signature::try_from` and
/// `ecdsa::VerifyingKey::<p256::NistP256>::verify_digest`: `None` exactly
/// when the signature bytes do not parse; otherwise the deterministic
/// verification verdict, false as well on an undecodable key.
#[verifier::external_body]
pub(crate) fn p256_verify(point: &Vec<u8>, msg: &Vec<u8>, sig: &Vec<u8>) -> (r: Option<bool>)
    ensures
        r is Some <==> p256_sig_ok(sig@),
        r matches Some(b) ==> b == p256_accepts(point@, msg@, sig@),
{
    let s = match p256::ecdsa::Signature::try_from(sig.as_slice()) {
        Ok(s) => s,
        Err(_) => return None,
    };
    let key = match p256::ecdsa::VerifyingKey::from_sec1_bytes(point.as_slice()) {
        Ok(k) => k,
        Err(_) => return Some(false),
    };
    let d = <sha2::Sha256 as sha2::Digest>::new_with_prefix(msg.as_slice());
    Some(signature::DigestVerifier::verify_digest(&key, d, &s).is_ok())
}

/// Relies on `ecdsa::VerifyingKey::<p384::NistP384>::verify_digest`.
#[verifier::external_body]
pub(crate) fn p384_verify(point: &Vec<u8>, msg: &Vec<u8>, sig: &Vec<u8>) -> (r: Option<bool>)
    ensures
        r is Some <==> p384_sig_ok(sig@),
        r matches Some(b) ==> b == p384_accepts(point@, msg@, sig@),
{
    let s = match p384::ecdsa::Signature::try_from(sig.as_slice()) {
        Ok(s) => s,
        Err(_) => return None,
    };
    let key = match p384::ecdsa::VerifyingKey::from_sec1_bytes(point.as_slice()) {
        Ok(k) => k,
        Err(_) => return Some(false),
    };
    let d = <sha2::Sha384 as sha2::Digest>::new_with_prefix(msg.as_slice());
    Some(signature::DigestVerifier::verify_digest(&key, d, &s).is_ok())
}

/// Relies on `ecdsa::VerifyingKey::<k256::Secp256k1>::verify_digest`.
#[verifier::external_body]
pub(crate) fn k256_verify(point: &Vec<u8>, msg: &Vec<u8>, sig: &Vec<u8>) -> (r: Option<bool>)
    ensures
        r is Some <==> k256_sig_ok(sig@),
        r matches Some(b) ==> b == k256_accepts(point@, msg@, sig@),
{
    let s = match k256::ecdsa::Signature::try_from(sig.as_slice()) {
        Ok(s) => s,
        Err(_) => return None,
    };
    let key = match k256::ecdsa::VerifyingKey::from_sec1_bytes(point.as_slice()) {
        Ok(k) => k,
        Err(_) => return Some(false),
    };
    let d = <sha2::Sha256 as sha2::Digest>::new_with_prefix(msg.as_slice());
    Some(signature::DigestVerifier::verify_digest(&key, d, &s).is_ok())
}

/// Relies on `ecdsa::VerifyingKey::<p256::NistP256>::from_sec1_bytes`:
/// whether `point` decodes as a P-256 public key.
#[verifier::external_body]
pub(crate) fn p256_point_check(point: &Vec<u8>) -> (r: bool)
    ensures
        r == p256_point_ok(point@),
{
    p256::ecdsa::VerifyingKey::from_sec1_bytes(point.as_slice()).is_ok()
}

/// Relies on `ecdsa::VerifyingKey::<p384::NistP384>::from_sec1_bytes`.
#[verifier::external_body]
pub(crate) fn p384_point_check(point: &Vec<u8>) -> (r: bool)
    ensures
        r == p384_point_ok(point@),
{
    p384::ecdsa::VerifyingKey::from_sec1_bytes(point.as_slice()).is_ok()
}

/// Relies on `ecdsa::VerifyingKey::<k256::Secp256k1>::from_sec1_bytes`.
#[verifier::external_body]
pub(crate) fn k256_point_check(point: &Vec<u8>) -> (r: bool)
    ensures
        r == k256_point_ok(point@),
{
    k256::ecdsa::VerifyingKey::from_sec1_bytes(point.as_slice()).is_ok()
}

} // verus!
