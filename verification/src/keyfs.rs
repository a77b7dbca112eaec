//! The keystore overlay: algorithm tags, the public-key wire format, and
//! the construction of key directories.
//!
//! An overlay directory sits on a device of its own and holds two factory
//! pseudo-files, `generate` and `trust`.  Writing a recognized request to
//! a factory materialises a sub-directory named by a fresh UUID, holding
//! `share`, `verify` and — for generated keys — `sign`.
//!
//! Because a fresh key directory holds its sockets, removing a key obeys
//! the ordinary empty-directory rule: unlink `share`, `sign` and
//! `verify`, then remove the UUID directory — every step a same-device
//! operation, since the overlay carries its own device.

use vstd::prelude::*;

use crate::path::valid_name;
use crate::tree::{
    has_name, lookup_name, Alg, KeyMaterial, NodeKind, Tree,
};
use crate::types::FsError;

verus! {

/// The name `generate`.
pub open spec fn generate_name() -> Seq<u8> {
    seq![103u8, 101u8, 110u8, 101u8, 114u8, 97u8, 116u8, 101u8]
}

/// The name `trust`.
pub open spec fn trust_name() -> Seq<u8> {
    seq![116u8, 114u8, 117u8, 115u8, 116u8]
}

/// The name `share`.
pub open spec fn share_name() -> Seq<u8> {
    seq![115u8, 104u8, 97u8, 114u8, 101u8]
}

/// The name `sign`.
pub open spec fn sign_name() -> Seq<u8> {
    seq![115u8, 105u8, 103u8, 110u8]
}

/// The name `verify`.
pub open spec fn verify_name() -> Seq<u8> {
    seq![118u8, 101u8, 114u8, 105u8, 102u8, 121u8]
}

pub fn name_generate() -> (r: Vec<u8>)
    ensures
        r@ == generate_name(),
{
    let mut r: Vec<u8> = Vec::new();
    r.push(103);
    r.push(101);
    r.push(110);
    r.push(101);
    r.push(114);
    r.push(97);
    r.push(116);
    r.push(101);
    proof {
        assert(r@ =~= generate_name());
    }
    r
}

pub fn name_trust() -> (r: Vec<u8>)
    ensures
        r@ == trust_name(),
{
    let mut r: Vec<u8> = Vec::new();
    r.push(116);
    r.push(114);
    r.push(117);
    r.push(115);
    r.push(116);
    proof {
        assert(r@ =~= trust_name());
    }
    r
}

pub fn name_share() -> (r: Vec<u8>)
    ensures
        r@ == share_name(),
{
    let mut r: Vec<u8> = Vec::new();
    r.push(115);
    r.push(104);
    r.push(97);
    r.push(114);
    r.push(101);
    proof {
        assert(r@ =~= share_name());
    }
    r
}

pub fn name_sign() -> (r: Vec<u8>)
    ensures
        r@ == sign_name(),
{
    let mut r: Vec<u8> = Vec::new();
    r.push(115);
    r.push(105);
    r.push(103);
    r.push(110);
    proof {
        assert(r@ =~= sign_name());
    }
    r
}

pub fn name_verify() -> (r: Vec<u8>)
    ensures
        r@ == verify_name(),
{
    let mut r: Vec<u8> = Vec::new();
    r.push(118);
    r.push(101);
    r.push(114);
    r.push(105);
    r.push(102);
    r.push(121);
    proof {
        assert(r@ =~= verify_name());
    }
    r
}

/// The four-byte big-endian tag of an algorithm.
pub open spec fn tag_of(alg: Alg) -> Seq<u8> {
    match alg {
        Alg::Rs256 => seq![0u8, 0u8, 0u8, 0u8],
        Alg::Rs384 => seq![0u8, 0u8, 0u8, 1u8],
        Alg::Rs512 => seq![0u8, 0u8, 0u8, 2u8],
        Alg::Ps256 => seq![0u8, 0u8, 0u8, 3u8],
        Alg::Ps384 => seq![0u8, 0u8, 0u8, 4u8],
        Alg::Ps512 => seq![0u8, 0u8, 0u8, 5u8],
        Alg::Es256K => seq![0u8, 0u8, 0u8, 6u8],
        Alg::Es256 => seq![0u8, 0u8, 0u8, 7u8],
        Alg::Es384 => seq![0u8, 0u8, 0u8, 8u8],
    }
}

/// The algorithm a four-byte tag names, if any.
pub open spec fn tag_to_alg(t: Seq<u8>) -> Option<Alg> {
    if t.len() != 4 || t[0] != 0 || t[1] != 0 || t[2] != 0 {
        Option::None
    } else if t[3] == 0 {
        Option::Some(Alg::Rs256)
    } else if t[3] == 1 {
        Option::Some(Alg::Rs384)
    } else if t[3] == 2 {
        Option::Some(Alg::Rs512)
    } else if t[3] == 3 {
        Option::Some(Alg::Ps256)
    } else if t[3] == 4 {
        Option::Some(Alg::Ps384)
    } else if t[3] == 5 {
        Option::Some(Alg::Ps512)
    } else if t[3] == 6 {
        Option::Some(Alg::Es256K)
    } else if t[3] == 7 {
        Option::Some(Alg::Es256)
    } else if t[3] == 8 {
        Option::Some(Alg::Es384)
    } else {
        Option::None
    }
}

/// Read a tag.
pub fn parse_tag(t: &Vec<u8>) -> (r: Option<Alg>)
    ensures
        r == tag_to_alg(t@),
{
    if t.len() != 4 || t[0] != 0 || t[1] != 0 || t[2] != 0 {
        return Option::None;
    }
    let b = t[3];
    if b == 0 {
        Option::Some(Alg::Rs256)
    } else if b == 1 {
        Option::Some(Alg::Rs384)
    } else if b == 2 {
        Option::Some(Alg::Rs512)
    } else if b == 3 {
        Option::Some(Alg::Ps256)
    } else if b == 4 {
        Option::Some(Alg::Ps384)
    } else if b == 5 {
        Option::Some(Alg::Ps512)
    } else if b == 6 {
        Option::Some(Alg::Es256K)
    } else if b == 7 {
        Option::Some(Alg::Es256)
    } else if b == 8 {
        Option::Some(Alg::Es384)
    } else {
        Option::None
    }
}

/// Write a tag.
pub fn tag_bytes(alg: Alg) -> (r: Vec<u8>)
    ensures
        r@ == tag_of(alg),
{
    let mut r: Vec<u8> = Vec::new();
    r.push(0);
    r.push(0);
    r.push(0);
    let b: u8 = match alg {
        Alg::Rs256 => 0,
        Alg::Rs384 => 1,
        Alg::Rs512 => 2,
        Alg::Ps256 => 3,
        Alg::Ps384 => 4,
        Alg::Ps512 => 5,
        Alg::Es256K => 6,
        Alg::Es256 => 7,
        Alg::Es384 => 8,
    };
    r.push(b);
    proof {
        assert(r@ =~= tag_of(alg));
    }
    r
}

/// A 32-bit big-endian length.
pub open spec fn be32(n: int) -> Seq<u8> {
    seq![
        ((n / 16777216) % 256) as u8,
        ((n / 65536) % 256) as u8,
        ((n / 256) % 256) as u8,
        (n % 256) as u8,
    ]
}

/// The value of four big-endian bytes.
pub open spec fn be32_val(s: Seq<u8>) -> int {
    (s[0] as int) * 16777216 + (s[1] as int) * 65536 + (s[2] as int) * 256 + (s[3] as int)
}

/// The RSA public-key wire payload: length-prefixed `e`, then
/// length-prefixed `n`.
pub open spec fn rsa_wire(e: Seq<u8>, n: Seq<u8>) -> Seq<u8> {
    be32(e.len() as int) + e + be32(n.len() as int) + n
}

/// How a wire payload parses: `None` exactly on the malformed shapes.
pub open spec fn rsa_parse(d: Seq<u8>) -> Option<(Seq<u8>, Seq<u8>)> {
    if d.len() < 4 {
        Option::None
    } else {
        let el = be32_val(d.take(4));
        if d.len() < 8 + el {
            Option::None
        } else {
            let nl = be32_val(d.subrange(4 + el, 8 + el));
            if d.len() != 8 + el + nl {
                Option::None
            } else {
                Option::Some((d.subrange(4, 4 + el), d.subrange(8 + el, 8 + el + nl)))
            }
        }
    }
}

/// Append a 32-bit big-endian length.
pub fn push_be32(out: &mut Vec<u8>, n: u32)
    ensures
        final(out)@ == old(out)@ + be32(n as int),
{
    out.push(((n / 16777216) % 256) as u8);
    out.push(((n / 65536) % 256) as u8);
    out.push(((n / 256) % 256) as u8);
    out.push((n % 256) as u8);
    proof {
        assert(out@ =~= old(out)@ + be32(n as int));
    }
}

/// Copy `src[from..to]` onto the end of `out`.
pub fn push_range(out: &mut Vec<u8>, src: &Vec<u8>, from: usize, to: usize)
    requires
        from <= to <= src@.len(),
    ensures
        final(out)@ == old(out)@ + src@.subrange(from as int, to as int),
{
    let mut j: usize = from;
    while j < to
        invariant
            from <= j <= to <= src@.len(),
            out@ == old(out)@ + src@.subrange(from as int, j as int),
        decreases to - j,
    {
        out.push(src[j]);
        proof {
            assert(out@ =~= old(out)@ + src@.subrange(from as int, j + 1));
        }
        j = j + 1;
    }
}

/// Parse a wire payload into `(e, n)`.
pub fn parse_rsa_wire(d: &Vec<u8>) -> (r: Option<(Vec<u8>, Vec<u8>)>)
    ensures
        r is Some <==> rsa_parse(d@) is Some,
        r matches Some(p) ==> rsa_parse(d@) matches Some(q) && p.0@ == q.0 && p.1@ == q.1,
{
    if d.len() < 4 {
        return Option::None;
    }
    let el: u64 = (d[0] as u64) * 16777216 + (d[1] as u64) * 65536 + (d[2] as u64) * 256
        + (d[3] as u64);
    proof {
        assert(d@.take(4)[0] == d@[0] && d@.take(4)[1] == d@[1] && d@.take(4)[2] == d@[2]
            && d@.take(4)[3] == d@[3]);
        assert(el == be32_val(d@.take(4)));
    }
    if (d.len() as u64) < 8 + el {
        return Option::None;
    }
    let el_us: usize = el as usize;
    let nl: u64 = (d[4 + el_us] as u64) * 16777216 + (d[5 + el_us] as u64) * 65536
        + (d[6 + el_us] as u64) * 256 + (d[7 + el_us] as u64);
    proof {
        let mid = d@.subrange(4 + el as int, 8 + el as int);
        assert(mid[0] == d@[4 + el as int] && mid[1] == d@[5 + el as int]
            && mid[2] == d@[6 + el as int] && mid[3] == d@[7 + el as int]);
        assert(nl == be32_val(mid));
    }
    if (d.len() as u64) != 8 + el + nl {
        return Option::None;
    }
    let nl_us: usize = nl as usize;
    let mut e: Vec<u8> = Vec::new();
    push_range(&mut e, d, 4, 4 + el_us);
    let mut n: Vec<u8> = Vec::new();
    push_range(&mut n, d, 8 + el_us, 8 + el_us + nl_us);
    proof {
        assert(e@ =~= d@.subrange(4, 4 + el as int));
        assert(n@ =~= d@.subrange(8 + el as int, 8 + el as int + nl as int));
    }
    Option::Some((e, n))
}

/// Encoding then parsing an RSA public key gives it back.
pub proof fn lemma_rsa_wire_roundtrip(e: Seq<u8>, n: Seq<u8>)
    requires
        e.len() < 4294967296,
        n.len() < 4294967296,
    ensures
        rsa_parse(rsa_wire(e, n)) == Option::Some((e, n)),
{
    let d = rsa_wire(e, n);
    lemma_be32_val(e.len() as int);
    lemma_be32_val(n.len() as int);
    assert(d.take(4) =~= be32(e.len() as int));
    assert(be32_val(d.take(4)) == e.len());
    let el = e.len() as int;
    assert(d.len() == 8 + el + n.len());
    assert(d.subrange(4 + el, 8 + el) =~= be32(n.len() as int));
    assert(be32_val(d.subrange(4 + el, 8 + el)) == n.len());
    assert(d.subrange(4, 4 + el) =~= e);
    assert(d.subrange(8 + el, 8 + el + n.len() as int) =~= n);
}

/// The four big-endian bytes of `v` read back as `v`.
pub proof fn lemma_be32_val(v: int)
    requires
        0 <= v < 4294967296,
    ensures
        be32_val(be32(v)) == v,
{
    let a = (v / 16777216) % 256;
    let b = (v / 65536) % 256;
    let c = (v / 256) % 256;
    let d = v % 256;
    assert(a * 16777216 + b * 65536 + c * 256 + d == v) by (nonlinear_arith)
        requires
            0 <= v < 4294967296,
            a == (v / 16777216) % 256,
            b == (v / 65536) % 256,
            c == (v / 256) % 256,
            d == v % 256,
    ;
}

/// Four big-endian bytes read back as their value re-encode to
/// themselves.
pub proof fn lemma_be32_bytes(s: Seq<u8>)
    requires
        s.len() == 4,
    ensures
        be32(be32_val(s)) == s,
{
    let v = be32_val(s);
    let b0 = s[0] as int;
    let b1 = s[1] as int;
    let b2 = s[2] as int;
    let b3 = s[3] as int;
    assert((v / 16777216) % 256 == b0 && (v / 65536) % 256 == b1 && (v / 256) % 256 == b2 && v
        % 256 == b3) by (nonlinear_arith)
        requires
            v == b0 * 16777216 + b1 * 65536 + b2 * 256 + b3,
            0 <= b0 < 256,
            0 <= b1 < 256,
            0 <= b2 < 256,
            0 <= b3 < 256,
    ;
    assert(be32(v) =~= s);
}

/// A payload that parses is exactly the wire encoding of what it parsed
/// to.
pub proof fn lemma_rsa_parse_shape(d: Seq<u8>, e: Seq<u8>, n: Seq<u8>)
    requires
        rsa_parse(d) == Option::Some((e, n)),
    ensures
        d == rsa_wire(e, n),
{
    let el = be32_val(d.take(4));
    let nl = be32_val(d.subrange(4 + el, 8 + el));
    assert(e == d.subrange(4, 4 + el) && n == d.subrange(8 + el, 8 + el + nl));
    assert(e.len() == el && n.len() == nl);
    lemma_be32_bytes(d.take(4));
    lemma_be32_bytes(d.subrange(4 + el, 8 + el));
    assert(d =~= be32(el) + e + be32(nl) + n);
}

/// The layout of a key directory: `share` holding `payload`, `verify`
/// holding the algorithm and key, and — for keys generated here — `sign`.
pub open spec fn key_same(a: KeyMaterial, b: KeyMaterial) -> bool {
    match (a, b) {
        (KeyMaterial::Rsa { e: e1, n: n1 }, KeyMaterial::Rsa { e: e2, n: n2 }) => e1@ == e2@
            && n1@ == n2@,
        (KeyMaterial::Ec { point: p1 }, KeyMaterial::Ec { point: p2 }) => p1@ == p2@,
        _ => false,
    }
}

pub open spec fn key_dir_ok(
    t: Tree,
    kdir: int,
    alg: Alg,
    key: KeyMaterial,
    payload: Seq<u8>,
    with_sign: bool,
    dev: u64,
) -> bool {
    &&& 0 <= kdir < t.nodes@.len()
    &&& t.nodes@[kdir].is_dir()
    &&& t.nodes@[kdir].inode.device == dev
    &&& t.nodes@[kdir].entries().len() == if with_sign {
        3int
    } else {
        2int
    }
    &&& has_name(t.nodes@[kdir].entries(), share_name())
    &&& {
        let s = lookup_name(t.nodes@[kdir].entries(), share_name()) as int;
        &&& 0 <= s < t.nodes@.len()
        &&& t.nodes@[s].kind matches NodeKind::Share { payload: p } && p@ == payload
    }
    &&& has_name(t.nodes@[kdir].entries(), verify_name())
    &&& {
        let v = lookup_name(t.nodes@[kdir].entries(), verify_name()) as int;
        &&& 0 <= v < t.nodes@.len()
        &&& t.nodes@[v].kind matches NodeKind::Verify { alg: a2, key: k2 } && a2 == alg
            && key_same(k2, key)
    }
    &&& with_sign ==> has_name(t.nodes@[kdir].entries(), sign_name())
    &&& with_sign ==> {
        let g = lookup_name(t.nodes@[kdir].entries(), sign_name()) as int;
        &&& 0 <= g < t.nodes@.len()
        &&& t.nodes@[g].kind matches NodeKind::Sign { alg: a2, secret } && a2 == alg
            && sign_key_matches(alg, secret@, key)
    }
}


/// The bit length of a most-significant byte.
pub open spec fn byte_bits(b: u8) -> int {
    if b >= 128 {
        8
    } else if b >= 64 {
        7
    } else if b >= 32 {
        6
    } else if b >= 16 {
        5
    } else if b >= 8 {
        4
    } else if b >= 4 {
        3
    } else if b >= 2 {
        2
    } else if b >= 1 {
        1
    } else {
        0
    }
}

/// The bit length of a big-endian unsigned number: leading zero bytes
/// carry nothing, the first nonzero byte carries its own bit length.
pub open spec fn rsa_mod_bits(n: Seq<u8>) -> int
    decreases n.len(),
{
    if n.len() == 0 {
        0
    } else if n[0] == 0 {
        rsa_mod_bits(n.drop_first())
    } else {
        8 * (n.len() - 1) + byte_bits(n[0])
    }
}

/// Compute the bit length of a big-endian modulus.
pub fn mod_bits(n: &Vec<u8>) -> (r: u64)
    requires
        8 * n@.len() <= u64::MAX,
    ensures
        r == rsa_mod_bits(n@),
{
    let mut i: usize = 0;
    proof {
        assert(n@.skip(0) =~= n@);
    }
    while i < n.len() && n[i] == 0
        invariant
            i <= n@.len(),
            8 * n@.len() <= u64::MAX,
            rsa_mod_bits(n@) == rsa_mod_bits(n@.skip(i as int)),
        decreases n@.len() - i,
    {
        proof {
            assert(n@.skip(i as int)[0] == n@[i as int]);
            assert(n@.skip(i as int).drop_first() =~= n@.skip(i + 1));
        }
        i = i + 1;
    }
    if i == n.len() {
        proof {
            assert(n@.skip(i as int).len() == 0);
        }
        return 0;
    }
    let b = n[i];
    let bb: u64 = if b >= 128 {
        8
    } else if b >= 64 {
        7
    } else if b >= 32 {
        6
    } else if b >= 16 {
        5
    } else if b >= 8 {
        4
    } else if b >= 4 {
        3
    } else if b >= 2 {
        2
    } else {
        1
    };
    proof {
        assert(n@.skip(i as int)[0] == n@[i as int]);
        assert(n@.skip(i as int).len() == n@.len() - i);
    }
    8 * ((n.len() - i - 1) as u64) + bb
}

/// The value of a big-endian byte string.
pub open spec fn be_val(s: Seq<u8>) -> int
    decreases s.len(),
{
    if s.len() == 0 {
        0
    } else {
        be_val(s.drop_last()) * 256 + s.last()
    }
}

/// The RSA-PSS algorithms.
pub open spec fn pss_alg(alg: Alg) -> bool {
    alg == Alg::Ps256 || alg == Alg::Ps384 || alg == Alg::Ps512
}

/// The RSA algorithms, PKCS#1 v1.5 and PSS alike.
pub open spec fn rsa_alg(alg: Alg) -> bool {
    match alg {
        Alg::Rs256 | Alg::Rs384 | Alg::Rs512 | Alg::Ps256 | Alg::Ps384 | Alg::Ps512 => true,
        _ => false,
    }
}

/// The modulus size the specification mandates for each RSA algorithm.
pub open spec fn mandated_bits(alg: Alg) -> int {
    match alg {
        Alg::Rs256 | Alg::Ps256 => 2048,
        Alg::Rs384 | Alg::Ps384 => 3072,
        Alg::Rs512 | Alg::Ps512 => 4096,
        _ => 0,
    }
}

/// The length of an uncompressed SEC1 point on each curve.
pub open spec fn ec_point_len(alg: Alg) -> int {
    match alg {
        Alg::Es256 | Alg::Es256K => 65,
        Alg::Es384 => 97,
        _ => 0,
    }
}

/// A generated key has the mandated size: the documented point length
/// for the curves, the mandated modulus bits (and a valid public part)
/// for RSA.
pub open spec fn material_sized(alg: Alg, key: KeyMaterial) -> bool {
    match key {
        KeyMaterial::Ec { point } => point@.len() == ec_point_len(alg) && curve_point_ok(
            alg,
            point@,
        ),
        KeyMaterial::Rsa { e, n } => crate::crypto::rsa_key_ok(e@, n@) && rsa_mod_bits(n@)
            == mandated_bits(alg),
    }
}

/// The sign socket's secret belongs to the verify socket's key: for the
/// curves the stored point is the scalar's own public point, and for RSA
/// the stored components are the DER's embedded public half.
pub open spec fn sign_key_matches(alg: Alg, secret: Seq<u8>, key: KeyMaterial) -> bool {
    match (alg, key) {
        (Alg::Es256, KeyMaterial::Ec { point }) => point@ == crate::crypto::p256_point_of(secret),
        (Alg::Es384, KeyMaterial::Ec { point }) => point@ == crate::crypto::p384_point_of(secret),
        (Alg::Es256K, KeyMaterial::Ec { point }) => point@ == crate::crypto::k256_point_of(
            secret,
        ),
        (_, KeyMaterial::Rsa { e, n }) => crate::crypto::rsa_der_pub(secret) == (e@, n@),
        _ => true,
    }
}

/// What a fresh signature from the sign socket satisfies: it verifies
/// under the secret's own public half, and for the curves it also
/// parses as a fixed-size signature.
pub open spec fn signed_ok(alg: Alg, secret: Seq<u8>, msg: Seq<u8>, sig: Seq<u8>) -> bool {
    match alg {
        Alg::Es256 => crate::crypto::p256_sig_ok(sig) && crate::crypto::p256_accepts(
            crate::crypto::p256_point_of(secret),
            msg,
            sig,
        ),
        Alg::Es384 => crate::crypto::p384_sig_ok(sig) && crate::crypto::p384_accepts(
            crate::crypto::p384_point_of(secret),
            msg,
            sig,
        ),
        Alg::Es256K => crate::crypto::k256_sig_ok(sig) && crate::crypto::k256_accepts(
            crate::crypto::k256_point_of(secret),
            msg,
            sig,
        ),
        Alg::Rs256 => crate::crypto::rsa_v15_sha256_accepts(
            crate::crypto::rsa_der_pub(secret).0,
            crate::crypto::rsa_der_pub(secret).1,
            msg,
            sig,
        ),
        Alg::Rs384 => crate::crypto::rsa_v15_sha384_accepts(
            crate::crypto::rsa_der_pub(secret).0,
            crate::crypto::rsa_der_pub(secret).1,
            msg,
            sig,
        ),
        Alg::Rs512 => crate::crypto::rsa_v15_sha512_accepts(
            crate::crypto::rsa_der_pub(secret).0,
            crate::crypto::rsa_der_pub(secret).1,
            msg,
            sig,
        ),
        Alg::Ps256 => crate::crypto::rsa_pss_sha256_accepts(
            crate::crypto::rsa_der_pub(secret).0,
            crate::crypto::rsa_der_pub(secret).1,
            msg,
            sig,
        ),
        Alg::Ps384 => crate::crypto::rsa_pss_sha384_accepts(
            crate::crypto::rsa_der_pub(secret).0,
            crate::crypto::rsa_der_pub(secret).1,
            msg,
            sig,
        ),
        Alg::Ps512 => crate::crypto::rsa_pss_sha512_accepts(
            crate::crypto::rsa_der_pub(secret).0,
            crate::crypto::rsa_der_pub(secret).1,
            msg,
            sig,
        ),
    }
}

/// The sign/verify round trip of a generated key: a signature the sign
/// socket emits over a message parses and is exactly what the same key
/// directory's verify socket accepts over that message.
pub proof fn lemma_sign_verify_round_trip(
    alg: Alg,
    secret: Seq<u8>,
    key: KeyMaterial,
    msg: Seq<u8>,
    sig: Seq<u8>,
)
    requires
        key_fits(alg, key),
        sign_key_matches(alg, secret, key),
        signed_ok(alg, secret, msg, sig),
    ensures
        sig_parses(alg, sig),
        accepts(alg, key, msg, sig),
{
}

/// A trusted key is exactly what the written bytes carried: the SEC1
/// point after the tag, or the parsed RSA components.
pub open spec fn trust_key_matches(alg: Alg, key: KeyMaterial, rest: Seq<u8>) -> bool {
    match key {
        KeyMaterial::Ec { point } => point@ == rest,
        KeyMaterial::Rsa { e, n } => rsa_parse(rest) == Option::Some((e@, n@)),
    }
}

/// How a verify key corresponds to a share payload: the payload is the
/// algorithm tag followed by the key's wire encoding.
pub open spec fn material_matches(alg: Alg, key: KeyMaterial, payload: Seq<u8>) -> bool {
    match key {
        KeyMaterial::Rsa { e, n } => payload == tag_of(alg) + rsa_wire(e@, n@),
        KeyMaterial::Ec { point } => payload == tag_of(alg) + point@,
    }
}

/// Whether `point` decodes on the curve of `alg`; false for RSA tags.
pub open spec fn curve_point_ok(alg: Alg, point: Seq<u8>) -> bool {
    match alg {
        Alg::Es256 => crate::crypto::p256_point_ok(point),
        Alg::Es384 => crate::crypto::p384_point_ok(point),
        Alg::Es256K => crate::crypto::k256_point_ok(point),
        _ => false,
    }
}

/// Whether `sig` has the shape the algorithm's signature parser accepts;
/// the RSA signature types accept any bytes.
pub open spec fn sig_parses(alg: Alg, sig: Seq<u8>) -> bool {
    match alg {
        Alg::Es256 => crate::crypto::p256_sig_ok(sig),
        Alg::Es384 => crate::crypto::p384_sig_ok(sig),
        Alg::Es256K => crate::crypto::k256_sig_ok(sig),
        _ => true,
    }
}

/// Whether the stored key fits the algorithm tag.
pub open spec fn key_fits(alg: Alg, key: KeyMaterial) -> bool {
    match (alg, key) {
        (Alg::Es256, KeyMaterial::Ec { .. }) => true,
        (Alg::Es384, KeyMaterial::Ec { .. }) => true,
        (Alg::Es256K, KeyMaterial::Ec { .. }) => true,
        (Alg::Rs256, KeyMaterial::Rsa { .. }) => true,
        (Alg::Rs384, KeyMaterial::Rsa { .. }) => true,
        (Alg::Rs512, KeyMaterial::Rsa { .. }) => true,
        (Alg::Ps256, KeyMaterial::Rsa { .. }) => true,
        (Alg::Ps384, KeyMaterial::Rsa { .. }) => true,
        (Alg::Ps512, KeyMaterial::Rsa { .. }) => true,
        _ => false,
    }
}

/// The deterministic verification verdict of `sig` over `msg` under the
/// stored key, by way of the named outside results.
pub open spec fn accepts(alg: Alg, key: KeyMaterial, msg: Seq<u8>, sig: Seq<u8>) -> bool {
    match (alg, key) {
        (Alg::Es256, KeyMaterial::Ec { point }) => crate::crypto::p256_accepts(point@, msg, sig),
        (Alg::Es384, KeyMaterial::Ec { point }) => crate::crypto::p384_accepts(point@, msg, sig),
        (Alg::Es256K, KeyMaterial::Ec { point }) => crate::crypto::k256_accepts(point@, msg, sig),
        (Alg::Rs256, KeyMaterial::Rsa { e, n }) => crate::crypto::rsa_v15_sha256_accepts(
            e@, n@, msg, sig),
        (Alg::Rs384, KeyMaterial::Rsa { e, n }) => crate::crypto::rsa_v15_sha384_accepts(
            e@, n@, msg, sig),
        (Alg::Rs512, KeyMaterial::Rsa { e, n }) => crate::crypto::rsa_v15_sha512_accepts(
            e@, n@, msg, sig),
        (Alg::Ps256, KeyMaterial::Rsa { e, n }) => crate::crypto::rsa_pss_sha256_accepts(
            e@, n@, msg, sig),
        (Alg::Ps384, KeyMaterial::Rsa { e, n }) => crate::crypto::rsa_pss_sha384_accepts(
            e@, n@, msg, sig),
        (Alg::Ps512, KeyMaterial::Rsa { e, n }) => crate::crypto::rsa_pss_sha512_accepts(
            e@, n@, msg, sig),
        _ => false,
    }
}

/// The length of a fresh signature, where the algorithm fixes one.
pub open spec fn sig_len_ok(alg: Alg, len: int) -> bool {
    match alg {
        Alg::Es256 => len == 64,
        Alg::Es256K => len == 64,
        Alg::Es384 => len == 96,
        _ => true,
    }
}

/// Generate an RSA key pair of `bits` and package it: the PKCS#1 DER
/// secret, the verification key, and the tagged share payload.
pub(crate) fn rsa_material(alg: Alg, bits: usize) -> (r: Option<(Vec<u8>, KeyMaterial, Vec<u8>)>)
    requires
        bits == 2048 || bits == 3072 || bits == 4096,
        bits as int == mandated_bits(alg),
    ensures
        r matches Some(m) ==> material_matches(alg, m.1, m.2@)
            && (m.1 matches KeyMaterial::Rsa { .. }) && material_sized(alg, m.1)
            && crate::crypto::rsa_der_mod_bits(m.0@) == bits
            && crate::crypto::rsa_der_ok(m.0@) && sign_key_matches(alg, m.0@, m.1),
{
    match crate::crypto::rsa_generate(bits) {
        Option::None => Option::None,
        Option::Some((der, e, n)) => {
            if e.len() as u64 > 4294967295u64 || n.len() as u64 > 4294967295u64 {
                return Option::None;
            }
            let mut payload = tag_bytes(alg);
            push_be32(&mut payload, e.len() as u32);
            push_range(&mut payload, &e, 0, e.len());
            push_be32(&mut payload, n.len() as u32);
            push_range(&mut payload, &n, 0, n.len());
            proof {
                assert(e@.subrange(0, e@.len() as int) =~= e@);
                assert(n@.subrange(0, n@.len() as int) =~= n@);
                assert(payload@ =~= tag_of(alg) + rsa_wire(e@, n@));
            }
            Option::Some((der, KeyMaterial::Rsa { e, n }, payload))
        },
    }
}

/// Package a generated elliptic-curve key: the raw scalar secret, the
/// SEC1 verification point, and the tagged share payload.
pub(crate) fn ec_material(alg: Alg, sk: Vec<u8>, pk: Vec<u8>) -> (r: (Vec<u8>, KeyMaterial, Vec<
    u8,
>))
    requires
        pk@.len() == ec_point_len(alg),
        curve_point_ok(alg, pk@),
    ensures
        material_matches(alg, r.1, r.2@),
        r.1 matches KeyMaterial::Ec { point } && point@ == pk@,
        r.0 == sk,
        material_sized(alg, r.1),
{
    let mut payload = tag_bytes(alg);
    push_range(&mut payload, &pk, 0, pk.len());
    proof {
        assert(pk@.subrange(0, pk@.len() as int) =~= pk@);
        assert(payload@ =~= tag_of(alg) + pk@);
    }
    (sk, KeyMaterial::Ec { point: pk }, payload)
}

impl Tree {
    /// Build a keystore overlay under `parent`: a directory on a fresh
    /// device holding the `generate` and `trust` factories, ready to be
    /// attached into the tree.
    pub fn keystore_new(&mut self, parent: usize, now: u64) -> (r: Result<usize, FsError>)
        requires
            old(self).wf(),
            parent < old(self).nodes@.len(),
            old(self).nodes@.len() + 3 <= usize::MAX,
        ensures
            final(self).wf(),
            forall|i: int| 0 <= i < old(self).nodes@.len()
                ==> final(self).nodes@[i] == old(self).nodes@[i],
            r matches Result::Ok(d) ==> {
                &&& old(self).nodes@.len() <= d < final(self).nodes@.len()
                &&& final(self).nodes@[d as int].is_dir()
                &&& final(self).nodes@[d as int].parent == parent
                &&& final(self).nodes@[d as int].inode.device
                    != final(self).nodes@[parent as int].inode.device
                &&& forall|i: int| 0 <= i < old(self).nodes@.len()
                    ==> final(self).nodes@[d as int].inode.device != (
                    #[trigger] old(self).nodes@[i]).inode.device
                &&& !final(self).nodes@[d as int].spec_create_file()
                &&& final(self).nodes@[d as int].entries().len() == 2
                &&& has_name(final(self).nodes@[d as int].entries(), generate_name())
                &&& has_name(final(self).nodes@[d as int].entries(), trust_name())
                &&& {
                    let g = lookup_name(
                        final(self).nodes@[d as int].entries(),
                        generate_name(),
                    ) as int;
                    &&& 0 <= g < final(self).nodes@.len()
                    &&& final(self).nodes@[g].kind matches NodeKind::Generate { queue }
                        && queue@.len() == 0
                    &&& final(self).nodes@[g].parent == d
                    &&& final(self).nodes@[g].inode.device
                        == final(self).nodes@[d as int].inode.device
                }
                &&& {
                    let t = lookup_name(final(self).nodes@[d as int].entries(), trust_name()) as int;
                    &&& 0 <= t < final(self).nodes@.len()
                    &&& final(self).nodes@[t].kind matches NodeKind::Trust { queue }
                        && queue@.len() == 0
                    &&& final(self).nodes@[t].parent == d
                    &&& final(self).nodes@[t].inode.device
                        == final(self).nodes@[d as int].inode.device
                }
            },
            r is Ok,
    {
        let d = self.new_device_dir(parent, false, now);
        let dev = self.nodes[d].inode.device;
        proof {
            let w = choose|w: int| 0 <= w < self.devices@.len()
                && (#[trigger] self.devices@[w]).id_of() == self.nodes@[d as int].inode.device
                && self.devices@[w].inode_live(self.nodes@[d as int].inode.id);
        }
        let g = self.add_node(d, dev, NodeKind::Generate { queue: Vec::new() }, now);
        proof {
            let w = choose|w: int| 0 <= w < self.devices@.len()
                && (#[trigger] self.devices@[w]).id_of() == self.nodes@[d as int].inode.device
                && self.devices@[w].inode_live(self.nodes@[d as int].inode.id);
        }
        let t = self.add_node(d, dev, NodeKind::Trust { queue: Vec::new() }, now);
        proof {
            assert(generate_name()[0] != trust_name()[0]);
            assert(!has_name(self.nodes@[d as int].entries(), generate_name()));
        }
        match self.attach_name(d, name_generate(), g) {
            Result::Ok(_) => {},
            Result::Err(_) => {
                proof {
                    assert(false);
                }
            },
        }
        proof {
            if has_name(self.nodes@[d as int].entries(), trust_name()) {
                assert(trust_name() != generate_name());
            }
        }
        match self.attach_name(d, name_trust(), t) {
            Result::Ok(_) => {},
            Result::Err(_) => {
                proof {
                    assert(false);
                }
            },
        }
        Result::Ok(d)
    }

    /// Materialise one key directory under the overlay that holds the
    /// factory `fac`: a fresh UUID-named directory with `share`,
    /// `verify` and — when `with_sign` — `sign`, on the overlay's own
    /// device.  The returned name is the UUID; the caller enqueues it.
    pub(crate) fn key_add(
        &mut self,
        fac: usize,
        with_sign: bool,
        alg: Alg,
        secret: Vec<u8>,
        key: KeyMaterial,
        payload: Vec<u8>,
        now: u64,
    ) -> (r: Result<Vec<u8>, FsError>)
        requires
            old(self).wf(),
            fac < old(self).nodes@.len(),
            old(self).nodes@.len() + 4 <= usize::MAX,
            crate::tree::key_kind_wf(NodeKind::Verify { alg, key }),
            with_sign ==> crate::tree::key_kind_wf(NodeKind::Sign { alg, secret }),
            with_sign ==> sign_key_matches(alg, secret@, key),
        ensures
            final(self).wf(),
            final(self).nodes@.len() >= old(self).nodes@.len(),
            r matches Result::Err(e) ==> *final(self) == *old(self) && (e == FsError::Exists
                || (e == FsError::Io
                && !old(self).nodes@[old(self).nodes@[fac as int].parent as int].is_dir())),
            r matches Result::Ok(name) ==> {
                let par = old(self).nodes@[fac as int].parent as int;
                &&& old(self).nodes@[par].is_dir()
                &&& name@.len() == 36
                &&& valid_name(name@)
                &&& forall|i: int| 0 <= i < old(self).nodes@.len() && i != par
                    ==> final(self).nodes@[i] == old(self).nodes@[i]
                &&& final(self).nodes@[par].is_dir()
                &&& final(self).nodes@[par].inode == old(self).nodes@[par].inode
                &&& forall|x: Seq<u8>| has_name(final(self).nodes@[par].entries(), x)
                    == (x == name@ || has_name(old(self).nodes@[par].entries(), x))
                &&& !has_name(old(self).nodes@[par].entries(), name@)
                &&& forall|x: Seq<u8>| x != name@
                    && has_name(old(self).nodes@[par].entries(), x)
                    ==> lookup_name(final(self).nodes@[par].entries(), x)
                        == lookup_name(old(self).nodes@[par].entries(), x)
                &&& key_dir_ok(
                    *final(self),
                    lookup_name(final(self).nodes@[par].entries(), name@) as int,
                    alg,
                    key,
                    payload@,
                    with_sign,
                    old(self).nodes@[par].inode.device,
                )
            },
    {
        let par = self.nodes[fac].parent;
        let par_is_dir = match &self.nodes[par].kind {
            NodeKind::Dir { .. } => true,
            _ => false,
        };
        if !par_is_dir {
            return Result::Err(FsError::Io);
        }
        // Pick the name and check for a collision before anything is
        // allocated, so a failure leaves no trace.
        let uuid = crate::crypto::fresh_name();
        proof {
            assert(uuid@[0] != 47 && uuid@.len() == 36);
            assert(uuid@ != crate::path::dot_seg() && uuid@ != crate::path::dotdot_seg());
            if uuid@.contains(crate::path::SEP) {
                let j = choose|j: int| 0 <= j < uuid@.len() && uuid@[j] == crate::path::SEP;
                assert(crate::crypto::is_uuid_byte(uuid@[j]));
            }
            assert(valid_name(uuid@));
        }
        match self.dir_lookup(par, &uuid) {
            Option::Some(_) => {
                return Result::Err(FsError::Exists);
            },
            Option::None => {},
        }
        let d = self.new_dir(par, false, now);
        let dev = self.nodes[d].inode.device;
        proof {
            let w = choose|w: int| 0 <= w < self.devices@.len()
                && (#[trigger] self.devices@[w]).id_of() == self.nodes@[d as int].inode.device
                && self.devices@[w].inode_live(self.nodes@[d as int].inode.id);
        }
        let v = self.add_node(d, dev, NodeKind::Verify { alg, key }, now);
        proof {
            let w = choose|w: int| 0 <= w < self.devices@.len()
                && (#[trigger] self.devices@[w]).id_of() == self.nodes@[d as int].inode.device
                && self.devices@[w].inode_live(self.nodes@[d as int].inode.id);
        }
        let s = self.add_node(d, dev, NodeKind::Share { payload }, now);
        proof {
            assert(!has_name(self.nodes@[d as int].entries(), verify_name()));
        }
        match self.attach_name(d, name_verify(), v) {
            Result::Ok(_) => {},
            Result::Err(_) => {
                proof {
                    assert(false);
                }
            },
        }
        proof {
            if has_name(self.nodes@[d as int].entries(), share_name()) {
                assert(share_name() != verify_name());
            }
        }
        match self.attach_name(d, name_share(), s) {
            Result::Ok(_) => {},
            Result::Err(_) => {
                proof {
                    assert(false);
                }
            },
        }
        if with_sign {
            proof {
                let w = choose|w: int| 0 <= w < self.devices@.len()
                    && (#[trigger] self.devices@[w]).id_of() == self.nodes@[d as int].inode.device
                    && self.devices@[w].inode_live(self.nodes@[d as int].inode.id);
            }
            let g = self.add_node(d, dev, NodeKind::Sign { alg, secret }, now);
            proof {
                if has_name(self.nodes@[d as int].entries(), sign_name()) {
                    assert(sign_name() != verify_name());
                    assert(sign_name() != share_name());
                }
            }
            match self.attach_name(d, name_sign(), g) {
                Result::Ok(_) => {},
                Result::Err(_) => {
                    proof {
                        assert(false);
                    }
                },
            }
        }
        let name_copy = crate::tree::copy_bytes(&uuid);
        proof {
            assert(!has_name(self.nodes@[par as int].entries(), uuid@));
        }
        match self.attach_name(par, name_copy, d) {
            Result::Ok(_) => Result::Ok(uuid),
            Result::Err(_) => {
                proof {
                    assert(false);
                }
                Result::Err(FsError::Exists)
            },
        }
    }
}

} // verus!
