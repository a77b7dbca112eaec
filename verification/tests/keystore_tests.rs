//! The keystore overlay: key generation, export, signing, verification,
//! trust registration and the factory message protocol.

use memfs::handle::Handle;
use memfs::tree::Tree;
use memfs::types::{FdFlags, FsError, OFlags};
use signature::Signature as SignatureBytes;

const RSA_N_HEX: [&str; 8] = [
    "c4f8ae89314851c8469f43dacd1afd03770fed0d393ee914f73f58d030e40a30",
    "f8a8078c048d24a1ff345990fae0149fb4f12fd0f1f82d410eb36f09bce11fb0",
    "b9e0cfb7e8cb1fca2e6659365c74db8e52b4d47dd590464409f3ac1b516617b9",
    "df694b3a26c18fea6a2eb2b209a9507c5b7697de706781467fdd58cf84e41219",
    "11119a0aba1f9a3c5f8c72c04e38ca439c86758477c428ebab5352f4d75b9eef",
    "c46fd83c4db9836e69d562e5e17010178ebbe0a2d7e992972d2fa9c8129e871c",
    "899c39571239723afc543d0109b280801da8bb5de788c757fc7a9b89e81a2e31",
    "fe4e14570d7382c8ac9647e9f6507881f320bf08b0d048e13564acd9d3232b35",
];

const RSA_SIG_HEX: [&str; 8] = [
    "a85b85816a41f1617001b126cb48b80b4974c7f5e7e217fac9b95ef65996c007",
    "88fcae669a2df31cd4aef1fe286e6cca56b7274b595cca83e72c2a2643fc8240",
    "0b4834640e34de11b8d5509c582247702c7eec5d9330e436ff4a2d371da42ca6",
    "63abc77dd5a3215a091db7033b16e565ec3d3ef5ba2230ac8ed6ebb26707ad5c",
    "787df9b0f840dc8e3896f54fd7b44c7de3a0f774daded3d2e7f59089101b3a67",
    "2c8a95f3b92b9485b07e3be4775d844a165d19c79ad761769fa57cbdc3ae0f3b",
    "e4342df733568558beab27f09d7228b4e1108bcf63390d670f0ce75dc6bb27d8",
    "61a5a1cb0db991354b555f2768ee2cc6cdf5b6d02e51dc6b66f01d505363af9b",
];

fn no_flags() -> FdFlags {
    FdFlags { append: false }
}

fn plain() -> OFlags {
    OFlags { create: false, directory: false, exclusive: false, truncate: false }
}

fn hex_bytes(parts: &[&str]) -> Vec<u8> {
    let joined: String = parts.concat();
    let raw = joined.as_bytes();
    let mut out = Vec::new();
    let digit = |b: u8| -> u8 {
        match b {
            b'0'..=b'9' => b - b'0',
            b'a'..=b'f' => b - b'a' + 10,
            _ => panic!(),
        }
    };
    let mut i = 0;
    while i < raw.len() {
        out.push(digit(raw[i]) * 16 + digit(raw[i + 1]));
        i += 2;
    }
    out
}

/// A tree whose root holds a keystore overlay, with a handle on the
/// overlay directory.
fn keystore() -> (Tree, Handle) {
    let mut t = Tree::root(false, 0);
    let ks = t.keystore_new(0, 0).unwrap();
    let kh = t.open_node(ks, false, false, false, no_flags()).unwrap();
    (t, kh)
}

fn open_rw(t: &mut Tree, kh: &Handle, path: &str, read: bool, write: bool) -> Handle {
    t.open_file(kh, false, path, plain(), read, write, no_flags(), 0).unwrap()
}

/// Write a four-byte tag to `generate` and read back the fresh UUID.
fn generate_es256(t: &mut Tree, kh: &Handle) -> (Handle, String) {
    let mut generate = open_rw(t, kh, "generate", true, true);
    let n = t.write_vectored(&mut generate, &vec![vec![0, 0, 0, 7]], 0).unwrap();
    assert_eq!(n, 4);
    let mut bufs = vec![vec![0u8; 36]];
    let n = t.read_vectored(&mut generate, &mut bufs).unwrap();
    assert_eq!(n, 36);
    let uuid = String::from_utf8(bufs[0].clone()).unwrap();
    (generate, uuid)
}

#[test]
fn sign() {
    let (mut t, kh) = keystore();
    let (_generate, uuid) = generate_es256(&mut t, &kh);
    uuid::Uuid::parse_str(&uuid).unwrap();

    // The new key appears in the directory listing.
    let listing = t.readdir(&kh, 0).unwrap();
    assert!(listing.iter().any(|e| e.name == uuid.as_bytes()));

    // Export the public key: the tag and an uncompressed P-256 point.
    let mut share = open_rw(&mut t, &kh, &format!("{}/share", uuid), true, false);
    let mut bufs = vec![vec![0u8; 69]];
    let n = t.read_vectored(&mut share, &mut bufs).unwrap();
    assert_eq!(n, 69);
    assert_eq!(&bufs[0][..4], &[0, 0, 0, 7]);
    let pubkey = p256::PublicKey::from_sec1_bytes(&bufs[0][4..]).unwrap();

    // Sign a message through the socket.
    let mut sgn = open_rw(&mut t, &kh, &format!("{}/sign", uuid), true, true);
    t.write_vectored(&mut sgn, &vec![b"foo".to_vec()], 0).unwrap();
    let mut sb = vec![vec![0u8; 64]];
    let n = t.read_vectored_at(&sgn, &mut sb, u64::MAX).unwrap();
    assert_eq!(n, 64);

    // The signature checks out under the exported key.
    let vkey = p256::ecdsa::VerifyingKey::from(pubkey);
    let sig = <p256::ecdsa::Signature as SignatureBytes>::from_bytes(&sb[0]).unwrap();
    signature::Verifier::verify(&vkey, b"foo", &sig).unwrap();

    // The library's own verify socket agrees.
    let mut ver = open_rw(&mut t, &kh, &format!("{}/verify", uuid), false, true);
    t.write_vectored(&mut ver, &vec![b"foo".to_vec()], 0).unwrap();
    let n = t.write_vectored_at(&mut ver, &vec![sb[0].clone()], u64::MAX).unwrap();
    assert_eq!(n, 64);

    // A flipped bit is rejected.
    let mut bad = sb[0].clone();
    bad[10] ^= 1;
    t.write_vectored(&mut ver, &vec![b"foo".to_vec()], 0).unwrap();
    assert_eq!(
        t.write_vectored_at(&mut ver, &vec![bad], u64::MAX).unwrap_err(),
        FsError::IllegalByteSequence
    );
}

#[test]
fn verify() {
    // Trust an externally generated P-256 key, then verify its
    // signature through the socket.
    let sk = p256::ecdsa::SigningKey::random(&mut rand::thread_rng());
    let point = p256::ecdsa::VerifyingKey::from(&sk).to_encoded_point(false).as_bytes().to_vec();
    let sig: p256::ecdsa::Signature = signature::Signer::sign(&sk, b"foo");
    let mut sig = signature::Signature::as_bytes(&sig).to_vec();

    let (mut t, kh) = keystore();
    let mut trust = open_rw(&mut t, &kh, "trust", true, true);
    let n = t
        .write_vectored(&mut trust, &vec![vec![0, 0, 0, 7], point.clone()], 0)
        .unwrap();
    assert_eq!(n as usize, 4 + point.len());

    let mut bufs = vec![vec![0u8; 36]];
    let n = t.read_vectored(&mut trust, &mut bufs).unwrap();
    assert_eq!(n, 36);
    let uuid = String::from_utf8(bufs[0].clone()).unwrap();

    // The key appears in the listing, and carries no sign socket.
    let listing = t.readdir(&kh, 0).unwrap();
    assert!(listing.iter().any(|e| e.name == uuid.as_bytes()));
    assert_eq!(
        t.get(kh.node, &format!("{}/sign", uuid)).unwrap_err(),
        FsError::NotFound
    );

    // Verify the message.
    let mut ver = open_rw(&mut t, &kh, &format!("{}/verify", uuid), false, true);
    t.write_vectored(&mut ver, &vec![b"foo".to_vec()], 0).unwrap();
    let n = t.write_vectored_at(&mut ver, &vec![sig.clone()], u64::MAX).unwrap();
    assert_eq!(n as usize, sig.len());

    // A tampered signature fails.
    sig[0] = sig[0].wrapping_add(1);
    t.write_vectored(&mut ver, &vec![b"foo".to_vec()], 0).unwrap();
    assert_eq!(
        t.write_vectored_at(&mut ver, &vec![sig], u64::MAX).unwrap_err(),
        FsError::IllegalByteSequence
    );
}

#[test]
fn remove() {
    let (mut t, kh) = keystore();
    let (_generate, uuid) = generate_es256(&mut t, &kh);

    // The key appears in the listing.
    let listing = t.readdir(&kh, 0).unwrap();
    assert!(listing.iter().any(|e| e.name == uuid.as_bytes()));

    // Empty the key directory, then remove it; the overlay is a single
    // device, so both stay same-device operations.
    t.unlink_file(&kh, &format!("{}/share", uuid)).unwrap();
    t.unlink_file(&kh, &format!("{}/sign", uuid)).unwrap();
    t.unlink_file(&kh, &format!("{}/verify", uuid)).unwrap();
    t.remove_dir(&kh, &uuid).unwrap();

    // The key no longer appears.
    let listing = t.readdir(&kh, 0).unwrap();
    assert!(!listing.iter().any(|e| e.name == uuid.as_bytes()));
}

#[test]
fn rsa_trust_round_trip() {
    // Register an RSA public key over the wire format and verify a
    // PKCS#1 v1.5 / SHA-256 signature made outside the library.
    let n_bytes = hex_bytes(&RSA_N_HEX);
    let sig = hex_bytes(&RSA_SIG_HEX);
    let e_bytes = vec![1u8, 0, 1];
    let mut payload = vec![0u8, 0, 0, 0];
    payload.extend_from_slice(&(e_bytes.len() as u32).to_be_bytes());
    payload.extend_from_slice(&e_bytes);
    payload.extend_from_slice(&(n_bytes.len() as u32).to_be_bytes());
    payload.extend_from_slice(&n_bytes);

    let (mut t, kh) = keystore();
    let mut trust = open_rw(&mut t, &kh, "trust", true, true);
    let n = t.write_vectored(&mut trust, &vec![payload], 0).unwrap();
    assert_eq!(n as usize, 8 + 4 + 3 + 256);

    let mut bufs = vec![vec![0u8; 36]];
    t.read_vectored(&mut trust, &mut bufs).unwrap();
    let uuid = String::from_utf8(bufs[0].clone()).unwrap();

    let mut ver = open_rw(&mut t, &kh, &format!("{}/verify", uuid), false, true);
    t.write_vectored(&mut ver, &vec![b"foo".to_vec()], 0).unwrap();
    let n = t.write_vectored_at(&mut ver, &vec![sig.clone()], u64::MAX).unwrap();
    assert_eq!(n, 256);

    // The wrong message is rejected.
    t.write_vectored(&mut ver, &vec![b"bar".to_vec()], 0).unwrap();
    assert_eq!(
        t.write_vectored_at(&mut ver, &vec![sig], u64::MAX).unwrap_err(),
        FsError::IllegalByteSequence
    );
}

#[test]
fn overlay_layout() {
    let (t, kh) = keystore();
    let listing = t.readdir(&kh, 0).unwrap();
    let names: Vec<&[u8]> = listing.iter().map(|e| e.name.as_slice()).collect();
    assert_eq!(names, [b".".as_slice(), b"..", b"generate", b"trust"]);
}

#[test]
fn factory_protocol_errors() {
    let (mut t, kh) = keystore();
    let mut generate = open_rw(&mut t, &kh, "generate", true, true);

    // An empty queue would block.
    let mut bufs = vec![vec![0u8; 36]];
    assert_eq!(
        t.read_vectored(&mut generate, &mut bufs).unwrap_err(),
        FsError::WouldBlock
    );
    // The request must be one four-byte buffer.
    assert_eq!(
        t.write_vectored(&mut generate, &vec![vec![0, 0, 0]], 0).unwrap_err(),
        FsError::InvalidArgument
    );
    assert_eq!(
        t.write_vectored(&mut generate, &vec![vec![0, 0], vec![0, 7]], 0).unwrap_err(),
        FsError::InvalidArgument
    );
    // An unrecognized tag is an illegal byte sequence.
    assert_eq!(
        t.write_vectored(&mut generate, &vec![vec![0, 0, 0, 9]], 0).unwrap_err(),
        FsError::IllegalByteSequence
    );

    // An undersized readout re-queues the name and reports the size
    // fault; the next full read still delivers it.
    t.write_vectored(&mut generate, &vec![vec![0, 0, 0, 7]], 0).unwrap();
    let mut small = vec![vec![0u8; 10]];
    assert_eq!(
        t.read_vectored(&mut generate, &mut small).unwrap_err(),
        FsError::TooBig
    );
    let mut full = vec![vec![0u8; 20], vec![0u8; 16]];
    let n = t.read_vectored(&mut generate, &mut full).unwrap();
    assert_eq!(n, 36);
    let uuid = String::from_utf8([full[0].clone(), full[1].clone()].concat()).unwrap();
    uuid::Uuid::parse_str(&uuid).unwrap();
}

#[test]
fn trust_rejections() {
    let (mut t, kh) = keystore();
    let mut trust = open_rw(&mut t, &kh, "trust", true, true);
    // Too short and too long payloads are invalid.
    assert_eq!(
        t.write_vectored(&mut trust, &vec![vec![0, 0, 0]], 0).unwrap_err(),
        FsError::InvalidArgument
    );
    assert_eq!(
        t.write_vectored(&mut trust, &vec![vec![0u8; 4097]], 0).unwrap_err(),
        FsError::InvalidArgument
    );
    // A malformed P-256 point is an illegal byte sequence.
    let mut bad = vec![0u8, 0, 0, 7];
    bad.extend_from_slice(&[4u8; 65]);
    assert_eq!(
        t.write_vectored(&mut trust, &vec![bad], 0).unwrap_err(),
        FsError::IllegalByteSequence
    );
    // A malformed RSA wire payload is an illegal byte sequence.
    assert_eq!(
        t.write_vectored(&mut trust, &vec![vec![0, 0, 0, 0, 9, 9]], 0).unwrap_err(),
        FsError::IllegalByteSequence
    );
    // A well-formed RSA key below the minimum size is denied.
    let e = vec![1u8, 0, 1];
    let mut n128 = vec![0x80u8];
    n128.extend_from_slice(&vec![0x55u8; 126]);
    n128.push(0x01);
    let mut payload = vec![0u8, 0, 0, 0];
    payload.extend_from_slice(&(e.len() as u32).to_be_bytes());
    payload.extend_from_slice(&e);
    payload.extend_from_slice(&(n128.len() as u32).to_be_bytes());
    payload.extend_from_slice(&n128);
    assert_eq!(
        t.write_vectored(&mut trust, &vec![payload], 0).unwrap_err(),
        FsError::PermissionDenied
    );
}

#[test]
fn trust_size_boundaries() {
    // The RSA floor is exact in bits: a valid 2041-bit key is denied.
    let e = vec![1u8, 0, 1];
    let mut n2041 = vec![0x01u8];
    n2041.extend_from_slice(&vec![0x55u8; 254]);
    n2041.push(0x01);
    let wire = |tag: u8, n: &[u8]| {
        let mut p = vec![0u8, 0, 0, tag];
        p.extend_from_slice(&(e.len() as u32).to_be_bytes());
        p.extend_from_slice(&e);
        p.extend_from_slice(&(n.len() as u32).to_be_bytes());
        p.extend_from_slice(n);
        p
    };
    let (mut t, kh) = keystore();
    let mut trust = open_rw(&mut t, &kh, "trust", true, true);
    assert_eq!(
        t.write_vectored(&mut trust, &vec![wire(0, &n2041)], 0).unwrap_err(),
        FsError::PermissionDenied
    );
    // A 2049-bit modulus is byte-misaligned: refused for the PSS
    // algorithms, which cannot take it, but fine for PKCS#1 v1.5.
    let mut n2049 = vec![0x01u8];
    n2049.extend_from_slice(&vec![0x55u8; 255]);
    n2049.push(0x01);
    assert_eq!(
        t.write_vectored(&mut trust, &vec![wire(3, &n2049)], 0).unwrap_err(),
        FsError::IllegalByteSequence
    );
    let n = t.write_vectored(&mut trust, &vec![wire(0, &n2049)], 0).unwrap();
    assert_eq!(n as usize, 12 + 3 + 257);
}

#[test]
fn share_atomicity() {
    let (mut t, kh) = keystore();
    let (_generate, uuid) = generate_es256(&mut t, &kh);
    let mut share = open_rw(&mut t, &kh, &format!("{}/share", uuid), true, false);
    assert_eq!(t.num_ready_bytes(&share).unwrap(), 69);
    // Undersized buffers deliver nothing and leave the payload whole.
    let mut small = vec![vec![3u8; 68]];
    assert_eq!(t.read_vectored(&mut share, &mut small).unwrap_err(), FsError::TooBig);
    assert_eq!(small[0], vec![3u8; 68]);
    // A read across split buffers delivers the entire payload.
    let mut bufs = vec![vec![0u8; 30], vec![0u8; 39]];
    let n = t.read_vectored(&mut share, &mut bufs).unwrap();
    assert_eq!(n, 69);
    assert_eq!(&bufs[0][..4], &[0, 0, 0, 7]);
}

#[test]
fn socket_permissions() {
    let (mut t, kh) = keystore();
    let (_generate, uuid) = generate_es256(&mut t, &kh);
    // share is read-only.
    assert_eq!(
        t.open_file(&kh, false, &format!("{}/share", uuid), plain(), true, true, no_flags(), 0)
            .unwrap_err(),
        FsError::PermissionDenied
    );
    // sign and the factories want read and write together.
    assert_eq!(
        t.open_file(&kh, false, &format!("{}/sign", uuid), plain(), true, false, no_flags(), 0)
            .unwrap_err(),
        FsError::PermissionDenied
    );
    assert_eq!(
        t.open_file(&kh, false, "generate", plain(), false, true, no_flags(), 0).unwrap_err(),
        FsError::PermissionDenied
    );
    // verify is write-only.
    assert_eq!(
        t.open_file(&kh, false, &format!("{}/verify", uuid), plain(), true, true, no_flags(), 0)
            .unwrap_err(),
        FsError::PermissionDenied
    );
    // Descriptor flags are rejected on the sockets.
    assert_eq!(
        t.open_file(&kh, false, "generate", plain(), true, true, FdFlags { append: true }, 0)
            .unwrap_err(),
        FsError::InvalidArgument
    );
    // The sign socket accepts only the sentinel offset.
    let sgn = open_rw(&mut t, &kh, &format!("{}/sign", uuid), true, true);
    let mut bufs = vec![vec![0u8; 64]];
    assert_eq!(
        t.read_vectored_at(&sgn, &mut bufs, 3).unwrap_err(),
        FsError::InvalidArgument
    );
    // The verify socket wants the sentinel and a single buffer.
    let mut ver = open_rw(&mut t, &kh, &format!("{}/verify", uuid), false, true);
    assert_eq!(
        t.write_vectored_at(&mut ver, &vec![vec![0u8; 64]], 5).unwrap_err(),
        FsError::InvalidArgument
    );
    assert_eq!(
        t.write_vectored_at(&mut ver, &vec![vec![0u8; 32], vec![0u8; 32]], u64::MAX)
            .unwrap_err(),
        FsError::InvalidArgument
    );
    drop(sgn);
    drop(bufs);
}
