//! The filesystem tree: an arena of nodes — directories, regular files and
//! the keystore pseudo-files — with path resolution over it.
//!
//! Directories map names to child nodes; the map is kept sorted in
//! lexicographic byte order, which is also the order `readdir` reports.
//! Children are reached through entry indices; every node carries the index
//! of its parent, and the root is its own parent, so `..` at the root is a
//! fixed point.

use vstd::prelude::*;

use crate::ledger::{DeviceId, InodeId, Ledger};
use crate::path::{
    dot_seg, dotdot_seg, lex_lt, lemma_lex_asym, lemma_lex_total, seg_is_noop, seg_is_name,
    seq_views, valid_name, SegKind,
};
use crate::types::{FileType, FsError, Meta};

verus! {

use vstd::string::StrSliceExecFns;
use vstd::string::StringSliceAdditionalSpecFns;

/// The signature algorithm of a keystore node.
#[derive(PartialEq, Eq, Structural, Clone, Copy, Debug)]
pub enum Alg {
    /// RSA PKCS#1 v1.5 over SHA-256, 2048-bit keys.
    Rs256,
    /// RSA PKCS#1 v1.5 over SHA-384, 3072-bit keys.
    Rs384,
    /// RSA PKCS#1 v1.5 over SHA-512, 4096-bit keys.
    Rs512,
    /// RSA-PSS over SHA-256, 2048-bit keys.
    Ps256,
    /// RSA-PSS over SHA-384, 3072-bit keys.
    Ps384,
    /// RSA-PSS over SHA-512, 4096-bit keys.
    Ps512,
    /// ECDSA over secp256k1 with SHA-256.
    Es256K,
    /// ECDSA over P-256 with SHA-256.
    Es256,
    /// ECDSA over P-384 with SHA-384.
    Es384,
}

/// The public key held by a `verify` node.
pub enum KeyMaterial {
    /// An RSA public key as its big-endian exponent and modulus.
    Rsa { e: Vec<u8>, n: Vec<u8> },
    /// An elliptic-curve point in uncompressed SEC1 encoding.
    Ec { point: Vec<u8> },
}

/// What a tree node is.
pub enum NodeKind {
    /// A directory: a name-to-node map sorted by name, and whether opening
    /// a missing name with the create flag materialises a regular file.
    Dir { entries: Vec<(Vec<u8>, usize)>, create_file: bool },
    /// A regular file of bytes.
    File { content: Vec<u8> },
    /// The keystore factory that generates key pairs; the queue holds
    /// the names of freshly created keys awaiting readout.
    Generate { queue: Vec<Vec<u8>> },
    /// The keystore factory that registers external public keys.
    Trust { queue: Vec<Vec<u8>> },
    /// The read-only public-key export of one key.
    Share { payload: Vec<u8> },
    /// The signing socket of one key; `secret` is the signing key,
    /// PKCS#1 DER for RSA and the raw scalar for ECDSA.
    Sign { alg: Alg, secret: Vec<u8> },
    /// The verification socket of one key.
    Verify { alg: Alg, key: KeyMaterial },
}

/// One node of the tree.
pub struct Node {
    /// Index of the parent node; the root points at itself.
    pub parent: usize,
    pub inode: InodeId,
    pub meta: Meta,
    pub kind: NodeKind,
}

impl Node {
    pub open spec fn is_dir(self) -> bool {
        self.kind matches NodeKind::Dir { .. }
    }

    /// The directory entries; empty for non-directories.
    pub open spec fn entries(self) -> Seq<(Vec<u8>, usize)> {
        match self.kind {
            NodeKind::Dir { entries, .. } => entries@,
            _ => Seq::empty(),
        }
    }

    /// Whether a missing name may be materialised as a regular file.
    pub open spec fn spec_create_file(self) -> bool {
        match self.kind {
            NodeKind::Dir { create_file, .. } => create_file,
            _ => false,
        }
    }

    /// The byte content: file bytes, or a share node's payload.
    pub open spec fn content(self) -> Seq<u8> {
        match self.kind {
            NodeKind::File { content } => content@,
            NodeKind::Share { payload } => payload@,
            _ => Seq::empty(),
        }
    }

    /// The pending names of a factory node.
    pub open spec fn queue(self) -> Seq<Vec<u8>> {
        match self.kind {
            NodeKind::Generate { queue } => queue@,
            NodeKind::Trust { queue } => queue@,
            _ => Seq::empty(),
        }
    }

    pub open spec fn filetype(self) -> FileType {
        match self.kind {
            NodeKind::Dir { .. } => FileType::Directory,
            NodeKind::File { .. } => FileType::RegularFile,
            _ => FileType::SocketDgram,
        }
    }
}

/// Whether a sorted entry list holds `name`.
pub open spec fn has_name(es: Seq<(Vec<u8>, usize)>, name: Seq<u8>) -> bool {
    exists|k: int| 0 <= k < es.len() && es[k].0@ == name
}

/// The index of `name` in the entry list.
pub open spec fn name_index(es: Seq<(Vec<u8>, usize)>, name: Seq<u8>) -> int {
    choose|k: int| 0 <= k < es.len() && es[k].0@ == name
}

/// The node that `name` maps to.
pub open spec fn lookup_name(es: Seq<(Vec<u8>, usize)>, name: Seq<u8>) -> usize {
    es[name_index(es, name)].1
}

/// Entries strictly increasing in lexicographic name order.
pub open spec fn entries_sorted(es: Seq<(Vec<u8>, usize)>) -> bool {
    forall|i: int, j: int| 0 <= i < j < es.len()
        ==> lex_lt(#[trigger] es[i].0@, #[trigger] es[j].0@)
}

/// All entry names are proper, separator-free names.
pub open spec fn entries_names_valid(es: Seq<(Vec<u8>, usize)>) -> bool {
    forall|k: int| 0 <= k < es.len() ==> valid_name(#[trigger] es[k].0@)
}

/// All entry targets lie below `n`.
pub open spec fn entries_in_bounds(es: Seq<(Vec<u8>, usize)>, n: int) -> bool {
    forall|k: int| 0 <= k < es.len() ==> (#[trigger] es[k]).1 < n
}

/// In a sorted entry list a name occurs at most once.
pub proof fn lemma_name_index_unique(es: Seq<(Vec<u8>, usize)>, name: Seq<u8>, k: int)
    requires
        entries_sorted(es),
        0 <= k < es.len(),
        es[k].0@ == name,
    ensures
        name_index(es, name) == k,
        lookup_name(es, name) == es[k].1,
{
    let k2 = name_index(es, name);
    assert(0 <= k2 < es.len() && es[k2].0@ == name);
    if k2 < k {
        assert(lex_lt(es[k2].0@, es[k].0@));
        lemma_lex_asym(name, name);
    } else if k2 > k {
        assert(lex_lt(es[k].0@, es[k2].0@));
        lemma_lex_asym(name, name);
    }
}

/// What stored key material must satisfy: the PSS backend cannot take
/// moduli whose bit length is one past a byte boundary (its padding
/// routines size buffers from the bit length and abort), so no PSS node
/// ever holds one.
pub open spec fn key_kind_wf(k: NodeKind) -> bool {
    match k {
        NodeKind::Sign { alg, secret } => (crate::keyfs::rsa_alg(alg)
            ==> crate::crypto::rsa_der_ok(secret@)) && (crate::keyfs::pss_alg(alg)
            ==> crate::crypto::rsa_der_mod_bits(secret@) % 8 != 1),
        NodeKind::Verify { alg, key } => match key {
            KeyMaterial::Rsa { e, n } => crate::keyfs::pss_alg(alg)
                ==> crate::keyfs::rsa_mod_bits(n@) % 8 != 1 && crate::keyfs::rsa_mod_bits(n@)
                    >= 2,
            KeyMaterial::Ec { .. } => true,
        },
        _ => true,
    }
}

/// How many nodes of `s` live on device `dev`.
pub open spec fn count_dev(s: Seq<Node>, dev: u64) -> int
    decreases s.len(),
{
    if s.len() == 0 {
        0
    } else {
        count_dev(s.drop_last(), dev) + if s.last().inode.device == dev {
            1int
        } else {
            0
        }
    }
}

pub proof fn lemma_count_dev_push(s: Seq<Node>, node: Node, dev: u64)
    ensures
        count_dev(s.push(node), dev) == count_dev(s, dev) + if node.inode.device == dev {
            1int
        } else {
            0
        },
{
    assert(s.push(node).drop_last() =~= s);
    assert(s.push(node).last() == node);
}

/// The count reads only the inode fields.
pub proof fn lemma_count_dev_congruent(s1: Seq<Node>, s2: Seq<Node>, dev: u64)
    requires
        s1.len() == s2.len(),
        forall|i: int| 0 <= i < s1.len() ==> (#[trigger] s1[i]).inode == s2[i].inode,
    ensures
        count_dev(s1, dev) == count_dev(s2, dev),
    decreases s1.len(),
{
    if s1.len() > 0 {
        assert(s1.last().inode == s2.last().inode);
        assert forall|i: int| 0 <= i < s1.drop_last().len() implies
            (#[trigger] s1.drop_last()[i]).inode == s2.drop_last()[i].inode by {
            assert(s1[i].inode == s2[i].inode);
        }
        lemma_count_dev_congruent(s1.drop_last(), s2.drop_last(), dev);
    }
}

/// Rewrites that keep every inode in place keep the per-device counts.
pub proof fn lemma_counts_carry(prev: Tree, t: Tree)
    requires
        t.devices == prev.devices,
        t.nodes@.len() == prev.nodes@.len(),
        forall|i: int| 0 <= i < prev.nodes@.len() ==> (#[trigger] prev.nodes@[i]).inode
            == t.nodes@[i].inode,
        forall|d: int| 0 <= d < prev.devices@.len()
            ==> (#[trigger] prev.devices@[d]).inodes_of().next_of() == count_dev(
                prev.nodes@,
                prev.devices@[d].id_of(),
            ),
    ensures
        forall|d: int| 0 <= d < t.devices@.len()
            ==> (#[trigger] t.devices@[d]).inodes_of().next_of() == count_dev(
                t.nodes@,
                t.devices@[d].id_of(),
            ),
{
    assert forall|d: int| 0 <= d < t.devices@.len() implies
        (#[trigger] t.devices@[d]).inodes_of().next_of() == count_dev(
            t.nodes@,
            t.devices@[d].id_of(),
        ) by {
        lemma_count_dev_congruent(prev.nodes@, t.nodes@, t.devices@[d].id_of());
    }
}

/// A device no node sits on counts zero.
pub proof fn lemma_count_dev_absent(s: Seq<Node>, dev: u64)
    requires
        forall|i: int| 0 <= i < s.len() ==> (#[trigger] s[i]).inode.device != dev,
    ensures
        count_dev(s, dev) == 0,
    decreases s.len(),
{
    if s.len() > 0 {
        assert forall|i: int| 0 <= i < s.drop_last().len() implies
            (#[trigger] s.drop_last()[i]).inode.device != dev by {
            assert(s[i].inode.device != dev);
        }
        lemma_count_dev_absent(s.drop_last(), dev);
    }
}

/// The filesystem tree.
pub struct Tree {
    /// The ledger of device numbers.
    pub ledger: Ledger,
    /// The live devices; each owns its pool of inode numbers.
    pub devices: Vec<DeviceId>,
    /// The node arena.  Index `0` is the root.  Nodes stay in the arena
    /// for the life of the tree, so open handles never dangle; removal
    /// only detaches a node from its parent's entries.
    pub nodes: Vec<Node>,
}

impl Tree {
    /// Well-formedness: the root is its own parent; parents and entry
    /// targets are in bounds; entries are sorted under valid names;
    /// every node's inode is live on a live device of the tree, and
    /// inode identifiers are unique across the tree.
    pub open spec fn wf(self) -> bool {
        &&& self.ledger.wf()
        &&& 1 <= self.nodes@.len()
        &&& self.nodes@[0].parent == 0
        &&& forall|i: int| 0 <= i < self.nodes@.len()
            ==> (#[trigger] self.nodes@[i]).parent < self.nodes@.len()
        &&& forall|i: int| 0 <= i < self.nodes@.len()
            ==> entries_sorted((#[trigger] self.nodes@[i]).entries())
        &&& forall|i: int| 0 <= i < self.nodes@.len()
            ==> entries_names_valid((#[trigger] self.nodes@[i]).entries())
        &&& forall|i: int| 0 <= i < self.nodes@.len()
            ==> entries_in_bounds((#[trigger] self.nodes@[i]).entries(), self.nodes@.len() as int)
        &&& forall|i: int| 0 <= i < self.nodes@.len()
            ==> key_kind_wf((#[trigger] self.nodes@[i]).kind)
        &&& forall|d: int| 0 <= d < self.devices@.len()
            ==> (#[trigger] self.devices@[d]).wf()
        &&& forall|d: int| 0 <= d < self.devices@.len()
            ==> self.ledger.device_live((#[trigger] self.devices@[d]).id_of())
        &&& forall|d1: int, d2: int| 0 <= d1 < d2 < self.devices@.len()
            ==> (#[trigger] self.devices@[d1]).id_of() != (#[trigger] self.devices@[d2]).id_of()
        &&& self.ledger.pool().next_of() <= self.devices@.len()
        &&& forall|d: int| 0 <= d < self.devices@.len()
            ==> (#[trigger] self.devices@[d]).inodes_of().next_of() <= self.nodes@.len()
        &&& forall|d: int, id: u64| 0 <= d < self.devices@.len() && id < (
        #[trigger] self.devices@[d]).inodes_of().next_of()
            ==> #[trigger] self.devices@[d].inode_live(id)
        &&& forall|d: int| 0 <= d < self.devices@.len()
            ==> (#[trigger] self.devices@[d]).inodes_of().next_of() == count_dev(
                self.nodes@,
                self.devices@[d].id_of(),
            )
        &&& self.devices@.len() <= self.nodes@.len()
        &&& forall|i: int| 0 <= i < self.nodes@.len()
            ==> exists|d: int| 0 <= d < self.devices@.len()
                && (#[trigger] self.devices@[d]).id_of() == (#[trigger] self.nodes@[i]).inode.device
                && self.devices@[d].inode_live(self.nodes@[i].inode.id)
        &&& forall|i: int, j: int| 0 <= i < j < self.nodes@.len()
            ==> (#[trigger] self.nodes@[i]).inode != (#[trigger] self.nodes@[j]).inode
    }

    /// Plain resolution, as `get` walks a path: empty segments and `.`
    /// are skipped, `..` ascends from a directory along the parent link
    /// (a fixed point at the root), and a proper name demands a
    /// directory and looks the name up in it.  Walking onward from a
    /// non-directory — by name or by `..` — is "not a directory".
    pub open spec fn resolve_at(self, cur: int, segs: Seq<Seq<u8>>, i: int) -> Result<int, FsError>
        decreases segs.len() - i,
    {
        if i < 0 || i >= segs.len() {
            Result::Ok(cur)
        } else {
            let s = segs[i];
            if seg_is_noop(s) {
                self.resolve_at(cur, segs, i + 1)
            } else if s == dotdot_seg() {
                if !self.nodes@[cur].is_dir() {
                    Result::Err(FsError::NotDir)
                } else {
                    self.resolve_at(self.nodes@[cur].parent as int, segs, i + 1)
                }
            } else if !self.nodes@[cur].is_dir() {
                Result::Err(FsError::NotDir)
            } else if has_name(self.nodes@[cur].entries(), s) {
                self.resolve_at(
                    lookup_name(self.nodes@[cur].entries(), s) as int,
                    segs,
                    i + 1,
                )
            } else {
                Result::Err(FsError::NotFound)
            }
        }
    }

    /// What `get(from, p)` returns: trailing separators are trimmed, then
    /// the segments are resolved.
    pub open spec fn spec_get(self, from: int, p: Seq<u8>) -> Result<int, FsError> {
        self.resolve_at(from, crate::path::seg_split(crate::path::trim_seps(p)), 0)
    }

    /// Directory-opening descent, as every handle operation walks its
    /// path: an empty segment is rejected, and each step must land on a
    /// directory.
    pub open spec fn walk_at(self, cur: int, segs: Seq<Seq<u8>>, i: int) -> Result<int, FsError>
        decreases segs.len() - i,
    {
        if i < 0 || i >= segs.len() {
            Result::Ok(cur)
        } else {
            let s = segs[i];
            if s.len() == 0 {
                Result::Err(FsError::InvalidArgument)
            } else if s == dot_seg() {
                self.walk_at(cur, segs, i + 1)
            } else if s == dotdot_seg() {
                let p = self.nodes@[cur].parent as int;
                if !self.nodes@[p].is_dir() {
                    Result::Err(FsError::NotDir)
                } else {
                    self.walk_at(p, segs, i + 1)
                }
            } else if !has_name(self.nodes@[cur].entries(), s) {
                Result::Err(FsError::NotFound)
            } else {
                let c = lookup_name(self.nodes@[cur].entries(), s) as int;
                if !self.nodes@[c].is_dir() {
                    Result::Err(FsError::NotDir)
                } else {
                    self.walk_at(c, segs, i + 1)
                }
            }
        }
    }
}

/// Find `name` among sorted entries.
pub fn find_entry(es: &Vec<(Vec<u8>, usize)>, name: &Vec<u8>) -> (r: Option<usize>)
    requires
        entries_sorted(es@),
    ensures
        match r {
            Option::Some(k) => k < es@.len() && es@[k as int].0@ == name@
                && has_name(es@, name@) && lookup_name(es@, name@) == es@[k as int].1,
            Option::None => !has_name(es@, name@),
        },
{
    let mut i: usize = 0;
    while i < es.len()
        invariant
            entries_sorted(es@),
            i <= es@.len(),
            forall|k: int| 0 <= k < i ==> (#[trigger] es@[k]).0@ != name@,
        decreases es@.len() - i,
    {
        if crate::path::bytes_eq(&es[i].0, name) {
            proof {
                lemma_name_index_unique(es@, name@, i as int);
            }
            return Option::Some(i);
        }
        i = i + 1;
    }
    Option::None
}

/// Insert `(name, child)` into a sorted entry list, keeping it sorted.
pub fn entries_insert(es: &mut Vec<(Vec<u8>, usize)>, name: Vec<u8>, child: usize)
    requires
        entries_sorted(old(es)@),
        entries_names_valid(old(es)@),
        !has_name(old(es)@, name@),
        valid_name(name@),
    ensures
        entries_sorted(final(es)@),
        entries_names_valid(final(es)@),
        final(es)@.len() == old(es)@.len() + 1,
        forall|x: Seq<u8>| has_name(final(es)@, x) == (x == name@ || has_name(old(es)@, x)),
        has_name(final(es)@, name@),
        lookup_name(final(es)@, name@) == child,
        forall|x: Seq<u8>| x != name@ && has_name(old(es)@, x)
            ==> lookup_name(final(es)@, x) == lookup_name(old(es)@, x),
        forall|k: int| 0 <= k < final(es)@.len()
            ==> (#[trigger] final(es)@[k]).1 == child
                || exists|m: int| 0 <= m < old(es)@.len()
                    && (#[trigger] old(es)@[m]).0@ == final(es)@[k].0@
                    && old(es)@[m].1 == final(es)@[k].1,
{
    let mut i: usize = 0;
    while i < es.len() && crate::path::lex_cmp_lt(&es[i].0, &name)
        invariant
            entries_sorted(es@),
            *es == *old(es),
            i <= es@.len(),
            forall|k: int| 0 <= k < i ==> lex_lt(#[trigger] es@[k].0@, name@),
        decreases es@.len() - i,
    {
        i = i + 1;
    }
    let ghost pos = i as int;
    let ghost before = es@;
    proof {
        assert forall|k: int| pos <= k < before.len() implies
            lex_lt(name@, #[trigger] before[k].0@) by {
            if k == pos {
                lemma_lex_total(name@, before[k].0@);
                assert(before[k].0@ != name@);
            } else {
                assert(lex_lt(before[pos].0@, before[k].0@));
                lemma_lex_total(name@, before[pos].0@);
                assert(before[pos].0@ != name@);
                crate::path::lemma_lex_trans(name@, before[pos].0@, before[k].0@);
            }
        }
    }
    es.insert(i, (name, child));
    proof {
        let after = es@;
        assert(after =~= before.insert(pos, (name, child)));
        assert forall|a: int, b: int| 0 <= a < b < after.len() implies
            lex_lt(#[trigger] after[a].0@, #[trigger] after[b].0@) by {
            if a < pos && b < pos {
                assert(after[a] == before[a] && after[b] == before[b]);
            } else if a < pos && b == pos {
                assert(after[a] == before[a]);
            } else if a < pos && b > pos {
                assert(after[a] == before[a] && after[b] == before[b - 1]);
            } else if a == pos {
                assert(after[b] == before[b - 1]);
            } else {
                assert(after[a] == before[a - 1] && after[b] == before[b - 1]);
            }
        }
        assert forall|x: Seq<u8>| #[trigger] has_name(after, x) implies
            (x == name@ || has_name(before, x)) by {
            let k = choose|k: int| 0 <= k < after.len() && after[k].0@ == x;
            if k < pos {
                assert(before[k].0@ == x);
            } else if k > pos {
                assert(before[k - 1].0@ == x);
            }
        }
        assert forall|x: Seq<u8>| x == name@ || has_name(before, x) implies
            #[trigger] has_name(after, x) by {
            if x == name@ {
                assert(after[pos].0@ == x);
            } else {
                let k = choose|k: int| 0 <= k < before.len() && before[k].0@ == x;
                if k < pos {
                    assert(after[k].0@ == x);
                } else {
                    assert(after[k + 1].0@ == x);
                }
            }
        }
        assert(after[pos].0@ == name@);
        lemma_name_index_unique(after, name@, pos);
        assert forall|x: Seq<u8>| x != name@ && has_name(before, x) implies
            lookup_name(after, x) == lookup_name(before, x) by {
            let k = choose|k: int| 0 <= k < before.len() && before[k].0@ == x;
            lemma_name_index_unique(before, x, k);
            if k < pos {
                assert(after[k].0@ == x && after[k].1 == before[k].1);
                lemma_name_index_unique(after, x, k);
            } else {
                assert(after[k + 1].0@ == x && after[k + 1].1 == before[k].1);
                lemma_name_index_unique(after, x, k + 1);
            }
        }
        assert forall|k: int| 0 <= k < after.len() implies
            (#[trigger] after[k]).1 == child
                || exists|m: int| 0 <= m < before.len()
                    && (#[trigger] before[m]).0@ == after[k].0@
                    && before[m].1 == after[k].1 by {
            if k < pos {
                assert(before[k].0@ == after[k].0@ && before[k].1 == after[k].1);
            } else if k > pos {
                assert(before[k - 1].0@ == after[k].0@ && before[k - 1].1 == after[k].1);
            }
        }
        assert forall|k: int| 0 <= k < after.len() implies
            valid_name(#[trigger] after[k].0@) by {
            if k < pos {
                assert(valid_name(before[k].0@));
            } else if k > pos {
                assert(valid_name(before[k - 1].0@));
            }
        }
    }
}

/// Remove `name` from a sorted entry list.
pub fn entries_remove(es: &mut Vec<(Vec<u8>, usize)>, name: &Vec<u8>)
    requires
        entries_sorted(old(es)@),
        entries_names_valid(old(es)@),
        has_name(old(es)@, name@),
    ensures
        entries_sorted(final(es)@),
        entries_names_valid(final(es)@),
        final(es)@.len() == old(es)@.len() - 1,
        forall|x: Seq<u8>| has_name(final(es)@, x) == (x != name@ && has_name(old(es)@, x)),
        forall|x: Seq<u8>| x != name@ && has_name(old(es)@, x)
            ==> lookup_name(final(es)@, x) == lookup_name(old(es)@, x),
        forall|k: int| 0 <= k < final(es)@.len()
            ==> exists|m: int| 0 <= m < old(es)@.len()
                && (#[trigger] old(es)@[m]).0@ == (#[trigger] final(es)@[k]).0@
                && old(es)@[m].1 == final(es)@[k].1,
{
    let found = find_entry(es, name);
    let k: usize = match found {
        Option::Some(k) => k,
        Option::None => {
            proof {
                assert(false);
            }
            0
        },
    };
    let ghost pos = k as int;
    let ghost before = es@;
    proof {
        lemma_name_index_unique(before, name@, pos);
    }
    es.remove(k);
    proof {
        let after = es@;
        assert forall|a: int, b: int| 0 <= a < b < after.len() implies
            lex_lt(#[trigger] after[a].0@, #[trigger] after[b].0@) by {
            let a2: int = if a < pos { a } else { a + 1 };
            let b2: int = if b < pos { b } else { b + 1 };
            assert(after[a] == before[a2] && after[b] == before[b2]);
        }
        assert forall|x: Seq<u8>| #[trigger] has_name(after, x) implies
            (x != name@ && has_name(before, x)) by {
            let j = choose|j: int| 0 <= j < after.len() && after[j].0@ == x;
            let j2: int = if j < pos { j } else { j + 1 };
            assert(before[j2].0@ == x);
            if x == name@ {
                lemma_name_index_unique(before, name@, j2);
            }
        }
        assert forall|x: Seq<u8>| x != name@ && has_name(before, x) implies
            #[trigger] has_name(after, x) by {
            let j = choose|j: int| 0 <= j < before.len() && before[j].0@ == x;
            assert(j != pos);
            if j < pos {
                assert(after[j].0@ == x);
            } else {
                assert(after[j - 1].0@ == x);
            }
        }
        assert forall|x: Seq<u8>| x != name@ && has_name(before, x) implies
            lookup_name(after, x) == lookup_name(before, x) by {
            let j = choose|j: int| 0 <= j < before.len() && before[j].0@ == x;
            lemma_name_index_unique(before, x, j);
            assert(j != pos);
            if j < pos {
                assert(after[j].0@ == x && after[j].1 == before[j].1);
                lemma_name_index_unique(after, x, j);
            } else {
                assert(after[j - 1].0@ == x && after[j - 1].1 == before[j].1);
                lemma_name_index_unique(after, x, j - 1);
            }
        }
        assert forall|j: int| 0 <= j < after.len() implies
            exists|m: int| 0 <= m < before.len()
                && (#[trigger] before[m]).0@ == (#[trigger] after[j]).0@
                && before[m].1 == after[j].1 by {
            let m: int = if j < pos { j } else { j + 1 };
            assert(before[m].0@ == after[j].0@ && before[m].1 == after[j].1);
        }
        assert forall|j: int| 0 <= j < after.len() implies
            valid_name(#[trigger] after[j].0@) by {
            let m: int = if j < pos { j } else { j + 1 };
            assert(valid_name(before[m].0@));
        }
    }
}

impl Tree {
    /// A fresh tree: one root directory on a fresh device of a fresh
    /// ledger.
    pub fn root(create_file: bool, now: u64) -> (r: Tree)
        ensures
            r.wf(),
            r.nodes@.len() == 1,
            r.nodes@[0].parent == 0,
            r.nodes@[0].kind matches NodeKind::Dir { entries, create_file: cf }
                && entries@.len() == 0 && cf == create_file,
            r.nodes@[0].meta == Meta::now_spec(now),
            r.nodes@[0].inode.device == 0 && r.nodes@[0].inode.id == 0,
    {
        let mut ledger = Ledger::new();
        let ghost l0 = ledger;
        proof {
            assert(!ledger.device_live(0u64));
        }
        let mut device = ledger.create_device();
        proof {
            if device.id_of() != 0 {
                assert(l0.device_live(0));
            }
        }
        let ghost d0 = device;
        proof {
            assert(!device.inode_live(0u64));
        }
        let inode = device.create_inode();
        proof {
            if inode.id != 0 {
                assert(d0.inode_live(0));
            }
        }
        let node = Node {
            parent: 0,
            inode,
            meta: Meta::now(now),
            kind: NodeKind::Dir { entries: Vec::new(), create_file },
        };
        let mut devices: Vec<DeviceId> = Vec::new();
        let mut nodes: Vec<Node> = Vec::new();
        devices.push(device);
        nodes.push(node);
        let t = Tree { ledger, devices, nodes };
        proof {
            assert(t.nodes@[0].entries() =~= Seq::<(Vec<u8>, usize)>::empty());
            assert(t.devices@[0].inodes_of().next_of() == 1) by {
                assert(t.devices@[0].inode_live(0));
            }
            assert(t.nodes@.drop_last() =~= Seq::<Node>::empty());
            assert(count_dev(Seq::<Node>::empty(), t.devices@[0].id_of()) == 0);
            assert(t.nodes@.last() == t.nodes@[0]);
            assert(t.nodes@[0].inode.device == t.devices@[0].id_of());
            assert(count_dev(t.nodes@, t.devices@[0].id_of()) == 1);
            assert forall|i: int| 0 <= i < t.nodes@.len() implies
                exists|d: int| 0 <= d < t.devices@.len()
                    && (#[trigger] t.devices@[d]).id_of() == (#[trigger] t.nodes@[i]).inode.device
                    && t.devices@[d].inode_live(t.nodes@[i].inode.id) by {
                assert(t.devices@[0].id_of() == t.nodes@[0].inode.device
                    && t.devices@[0].inode_live(t.nodes@[0].inode.id));
            }
        }
        t
    }

    /// Append a node on the device numbered `dev`, under `parent`, with a
    /// freshly allocated inode.  Only the parent link is set here; the
    /// caller decides whether to list the node in a directory.
    pub(crate) fn add_node(&mut self, parent: usize, dev: u64, kind: NodeKind, now: u64) -> (r: usize)
        requires
            old(self).wf(),
            parent < old(self).nodes@.len(),
            old(self).nodes@.len() < usize::MAX,
            exists|d: int| 0 <= d < old(self).devices@.len()
                && (#[trigger] old(self).devices@[d]).id_of() == dev,
            (kind matches NodeKind::Dir { entries, .. } ==> entries@.len() == 0),
            key_kind_wf(kind),
        ensures
            final(self).wf(),
            r == old(self).nodes@.len(),
            final(self).nodes@.len() == old(self).nodes@.len() + 1,
            forall|i: int| 0 <= i < old(self).nodes@.len()
                ==> final(self).nodes@[i] == old(self).nodes@[i],
            final(self).nodes@[r as int].parent == parent,
            final(self).nodes@[r as int].meta == Meta::now_spec(now),
            final(self).nodes@[r as int].kind == kind,
            final(self).nodes@[r as int].inode.device == dev,
            final(self).nodes@[r as int].inode.id == count_dev(old(self).nodes@, dev),
            final(self).devices@.len() == old(self).devices@.len(),
            forall|d: int| 0 <= d < old(self).devices@.len()
                ==> (#[trigger] final(self).devices@[d]).id_of() == old(self).devices@[d].id_of(),
            final(self).ledger == old(self).ledger,
    {
        let ghost prev = *self;
        // Find the device that owns `dev`.
        let mut d: usize = 0;
        while d < self.devices.len() && self.devices[d].id() != dev
            invariant
                *self == prev,
                d <= self.devices@.len(),
                forall|k: int| 0 <= k < d ==> (#[trigger] self.devices@[k]).id_of() != dev,
            decreases self.devices@.len() - d,
        {
            d = d + 1;
        }
        proof {
            let w = choose|w: int| 0 <= w < self.devices@.len()
                && (#[trigger] self.devices@[w]).id_of() == dev;
            assert(d < self.devices@.len());
        }
        let ghost dcount = count_dev(prev.nodes@, dev);
        proof {
            assert(prev.devices@[d as int].inodes_of().next_of() <= prev.nodes@.len());
            assert(prev.devices@[d as int].inodes_of().next_of() == dcount);
            assert(!prev.devices@[d as int].inode_live(
                prev.devices@[d as int].inodes_of().next_of(),
            ));
        }
        let device = &mut self.devices[d];
        let inode = device.create_inode();
        proof {
            // The pool has no holes, so the least free number is its head,
            // which counts the nodes already on the device.
            if inode.id < dcount {
                assert(prev.devices@[d as int].inode_live(inode.id));
            }
            if inode.id > dcount {
                assert(prev.devices@[d as int].inode_live(dcount as u64));
            }
            assert(inode.id == dcount);
            assert(self.devices@[d as int].inodes_of().next_of() == dcount + 1) by {
                assert(self.devices@[d as int].inode_live(inode.id));
            }
        }
        let ghost mid = *self;
        let r = self.nodes.len();
        self.nodes.push(Node { parent, inode, meta: Meta::now(now), kind });
        proof {
            let t = *self;
            let n = t.nodes@.len() as int;
            assert(t.nodes@[n - 1].entries() =~= Seq::<(Vec<u8>, usize)>::empty());
            assert forall|i: int| 0 <= i < n implies
                exists|w: int| 0 <= w < t.devices@.len()
                    && (#[trigger] t.devices@[w]).id_of() == (#[trigger] t.nodes@[i]).inode.device
                    && t.devices@[w].inode_live(t.nodes@[i].inode.id) by {
                if i < n - 1 {
                    let w = choose|w: int| 0 <= w < prev.devices@.len()
                        && (#[trigger] prev.devices@[w]).id_of() == prev.nodes@[i].inode.device
                        && prev.devices@[w].inode_live(prev.nodes@[i].inode.id);
                    assert(t.devices@[w].id_of() == t.nodes@[i].inode.device
                        && t.devices@[w].inode_live(t.nodes@[i].inode.id));
                } else {
                    assert(t.devices@[d as int].id_of() == t.nodes@[i].inode.device
                        && t.devices@[d as int].inode_live(t.nodes@[i].inode.id));
                }
            }
            assert forall|i: int, j: int| 0 <= i < j < n implies
                (#[trigger] t.nodes@[i]).inode != (#[trigger] t.nodes@[j]).inode by {
                if j == n - 1 {
                    if t.nodes@[i].inode.device == dev {
                        let w = choose|w: int| 0 <= w < prev.devices@.len()
                            && (#[trigger] prev.devices@[w]).id_of() == prev.nodes@[i].inode.device
                            && prev.devices@[w].inode_live(prev.nodes@[i].inode.id);
                        assert(w == d as int);
                        assert(prev.devices@[d as int].inode_live(prev.nodes@[i].inode.id));
                    }
                }
            }
            assert forall|w: int| 0 <= w < t.devices@.len() implies
                (#[trigger] t.devices@[w]).inodes_of().next_of() == count_dev(
                    t.nodes@,
                    t.devices@[w].id_of(),
                ) by {
                lemma_count_dev_push(prev.nodes@, t.nodes@[n - 1], t.devices@[w].id_of());
                if w == d as int {
                    assert(count_dev(t.nodes@, dev) == dcount + 1);
                } else {
                    assert(prev.devices@[w].id_of() != dev);
                    assert(t.devices@[w] == prev.devices@[w]);
                }
            }
            assert forall|w: int, id: u64| 0 <= w < t.devices@.len() && id < (
            #[trigger] t.devices@[w]).inodes_of().next_of() implies
                #[trigger] t.devices@[w].inode_live(id) by {
                if w == d as int {
                    if id != inode.id {
                        assert(prev.devices@[w].inode_live(id));
                    }
                } else {
                    assert(t.devices@[w] == prev.devices@[w]);
                }
            }
        }
        r
    }

    /// A new empty directory node on the same device as `parent`, not yet
    /// listed anywhere.
    pub fn new_dir(&mut self, parent: usize, create_file: bool, now: u64) -> (r: usize)
        requires
            old(self).wf(),
            parent < old(self).nodes@.len(),
            old(self).nodes@.len() < usize::MAX,
        ensures
            final(self).wf(),
            r == old(self).nodes@.len(),
            final(self).nodes@.len() == old(self).nodes@.len() + 1,
            forall|i: int| 0 <= i < old(self).nodes@.len()
                ==> final(self).nodes@[i] == old(self).nodes@[i],
            final(self).nodes@[r as int].parent == parent,
            final(self).nodes@[r as int].meta == Meta::now_spec(now),
            final(self).nodes@[r as int].kind matches NodeKind::Dir { entries, create_file: cf }
                && entries@.len() == 0 && cf == create_file,
            final(self).nodes@[r as int].inode.device == old(self).nodes@[parent as int].inode.device,
            final(self).nodes@[r as int].inode.id == count_dev(
                old(self).nodes@,
                old(self).nodes@[parent as int].inode.device,
            ),
            final(self).devices@.len() == old(self).devices@.len(),
            final(self).ledger == old(self).ledger,
    {
        let dev = self.nodes[parent].inode.device;
        proof {
            let w = choose|w: int| 0 <= w < self.devices@.len()
                && (#[trigger] self.devices@[w]).id_of() == self.nodes@[parent as int].inode.device
                && self.devices@[w].inode_live(self.nodes@[parent as int].inode.id);
        }
        self.add_node(parent, dev, NodeKind::Dir { entries: Vec::new(), create_file }, now)
    }

    /// A new regular file node holding `content`, on the same device as
    /// `parent`, not yet listed anywhere.
    pub fn new_file(&mut self, parent: usize, content: Vec<u8>, now: u64) -> (r: usize)
        requires
            old(self).wf(),
            parent < old(self).nodes@.len(),
            old(self).nodes@.len() < usize::MAX,
        ensures
            final(self).wf(),
            r == old(self).nodes@.len(),
            final(self).nodes@.len() == old(self).nodes@.len() + 1,
            forall|i: int| 0 <= i < old(self).nodes@.len()
                ==> final(self).nodes@[i] == old(self).nodes@[i],
            final(self).nodes@[r as int].parent == parent,
            final(self).nodes@[r as int].meta == Meta::now_spec(now),
            final(self).nodes@[r as int].kind == (NodeKind::File { content }),
            final(self).nodes@[r as int].inode.device == old(self).nodes@[parent as int].inode.device,
            final(self).nodes@[r as int].inode.id == count_dev(
                old(self).nodes@,
                old(self).nodes@[parent as int].inode.device,
            ),
            final(self).devices@.len() == old(self).devices@.len(),
            final(self).ledger == old(self).ledger,
    {
        let dev = self.nodes[parent].inode.device;
        proof {
            let w = choose|w: int| 0 <= w < self.devices@.len()
                && (#[trigger] self.devices@[w]).id_of() == self.nodes@[parent as int].inode.device
                && self.devices@[w].inode_live(self.nodes@[parent as int].inode.id);
        }
        self.add_node(parent, dev, NodeKind::File { content }, now)
    }

    /// A new empty directory node rooted on a fresh device, under
    /// `parent`, not yet listed anywhere.  The keystore overlay sits on
    /// such a directory so that removing its sub-directories stays a
    /// same-device operation.
    pub fn new_device_dir(&mut self, parent: usize, create_file: bool, now: u64) -> (r: usize)
        requires
            old(self).wf(),
            parent < old(self).nodes@.len(),
            old(self).nodes@.len() < usize::MAX,
        ensures
            final(self).wf(),
            r == old(self).nodes@.len(),
            final(self).nodes@.len() == old(self).nodes@.len() + 1,
            forall|i: int| 0 <= i < old(self).nodes@.len()
                ==> final(self).nodes@[i] == old(self).nodes@[i],
            final(self).nodes@[r as int].parent == parent,
            final(self).nodes@[r as int].meta == Meta::now_spec(now),
            final(self).nodes@[r as int].kind matches NodeKind::Dir { entries, create_file: cf }
                && entries@.len() == 0 && cf == create_file,
            final(self).nodes@[r as int].inode.device != old(self).nodes@[parent as int].inode.device,
            final(self).nodes@[r as int].inode.device
                != final(self).nodes@[parent as int].inode.device,
            forall|i: int| 0 <= i < old(self).nodes@.len()
                ==> final(self).nodes@[r as int].inode.device != (
                #[trigger] old(self).nodes@[i]).inode.device,
            final(self).nodes@[r as int].inode.id == 0,
    {
        let ghost prev = *self;
        proof {
            assert(prev.ledger.pool().next_of() <= prev.devices@.len());
            assert(!prev.ledger.device_live(prev.ledger.pool().next_of()));
        }
        let mut device = self.ledger.create_device();
        let dev = device.id();
        proof {
            assert forall|k: int| 0 <= k < self.devices@.len() implies
                (#[trigger] self.devices@[k]).id_of() != dev by {
                assert(prev.ledger.device_live(prev.devices@[k].id_of()));
            }
            let wp = choose|w: int| 0 <= w < self.devices@.len()
                && (#[trigger] self.devices@[w]).id_of() == self.nodes@[parent as int].inode.device
                && self.devices@[w].inode_live(self.nodes@[parent as int].inode.id);
            assert(self.nodes@[parent as int].inode.device != dev);
        }
        proof {
            assert(!device.inode_live(0u64));
        }
        let inode = device.create_inode();
        let r = self.nodes.len();
        self.devices.push(device);
        self.nodes.push(Node {
            parent,
            inode,
            meta: Meta::now(now),
            kind: NodeKind::Dir { entries: Vec::new(), create_file },
        });
        proof {
            let t = *self;
            let n = t.nodes@.len() as int;
            let dlen = t.devices@.len() as int;
            assert(t.nodes@[n - 1].entries() =~= Seq::<(Vec<u8>, usize)>::empty());
            assert forall|i: int| 0 <= i < n implies
                exists|w: int| 0 <= w < t.devices@.len()
                    && (#[trigger] t.devices@[w]).id_of() == (#[trigger] t.nodes@[i]).inode.device
                    && t.devices@[w].inode_live(t.nodes@[i].inode.id) by {
                if i < n - 1 {
                    let w = choose|w: int| 0 <= w < prev.devices@.len()
                        && (#[trigger] prev.devices@[w]).id_of() == prev.nodes@[i].inode.device
                        && prev.devices@[w].inode_live(prev.nodes@[i].inode.id);
                    assert(t.devices@[w].id_of() == t.nodes@[i].inode.device
                        && t.devices@[w].inode_live(t.nodes@[i].inode.id));
                } else {
                    assert(t.devices@[dlen - 1].id_of() == t.nodes@[i].inode.device
                        && t.devices@[dlen - 1].inode_live(t.nodes@[i].inode.id));
                }
            }
            assert forall|i: int, j: int| 0 <= i < j < n implies
                (#[trigger] t.nodes@[i]).inode != (#[trigger] t.nodes@[j]).inode by {
                if j == n - 1 {
                    let w = choose|w: int| 0 <= w < prev.devices@.len()
                        && (#[trigger] prev.devices@[w]).id_of() == prev.nodes@[i].inode.device
                        && prev.devices@[w].inode_live(prev.nodes@[i].inode.id);
                    assert(prev.ledger.device_live(prev.devices@[w].id_of()));
                    assert(t.nodes@[i].inode.device != dev);
                }
            }
            assert forall|i: int| 0 <= i < prev.nodes@.len() implies
                (#[trigger] prev.nodes@[i]).inode.device != dev by {
                let w = choose|w: int| 0 <= w < prev.devices@.len()
                    && (#[trigger] prev.devices@[w]).id_of() == prev.nodes@[i].inode.device
                    && prev.devices@[w].inode_live(prev.nodes@[i].inode.id);
                assert(prev.ledger.device_live(prev.devices@[w].id_of()));
            }
            lemma_count_dev_absent(prev.nodes@, dev);
            assert(t.devices@[dlen - 1].inodes_of().next_of() == 1) by {
                assert(t.devices@[dlen - 1].inode_live(inode.id));
            }
            assert forall|w: int| 0 <= w < t.devices@.len() implies
                (#[trigger] t.devices@[w]).inodes_of().next_of() == count_dev(
                    t.nodes@,
                    t.devices@[w].id_of(),
                ) by {
                lemma_count_dev_push(prev.nodes@, t.nodes@[n - 1], t.devices@[w].id_of());
                if w < dlen - 1 {
                    assert(t.devices@[w] == prev.devices@[w]);
                    assert(prev.devices@[w].id_of() != dev);
                } else {
                    assert(count_dev(t.nodes@, dev) == 1);
                }
            }
            assert forall|w: int, id: u64| 0 <= w < t.devices@.len() && id < (
            #[trigger] t.devices@[w]).inodes_of().next_of() implies
                #[trigger] t.devices@[w].inode_live(id) by {
                if w < dlen - 1 {
                    assert(t.devices@[w] == prev.devices@[w]);
                } else {
                    assert(id == inode.id);
                }
            }
            assert(t.wf());
        }
        r
    }
}

/// A `Result` of node indices, seen at the specification level.
pub open spec fn res_view(r: Result<usize, FsError>) -> Result<int, FsError> {
    match r {
        Result::Ok(n) => Result::Ok(n as int),
        Result::Err(e) => Result::Err(e),
    }
}

/// Copy a byte vector.
pub fn copy_bytes(v: &Vec<u8>) -> (r: Vec<u8>)
    ensures
        r@ == v@,
{
    let mut r: Vec<u8> = Vec::new();
    let mut i: usize = 0;
    while i < v.len()
        invariant
            i <= v@.len(),
            r@ == v@.take(i as int),
        decreases v@.len() - i,
    {
        r.push(v[i]);
        proof {
            assert(r@ =~= v@.take(i + 1));
        }
        i = i + 1;
    }
    proof {
        assert(v@.take(v@.len() as int) =~= v@);
    }
    r
}

impl Tree {
    /// Resolve the first `upto` of `segs` from `from`, as `get` does.
    pub(crate) fn resolve_prefix(&self, from: usize, segs: &Vec<Vec<u8>>, upto: usize) -> (r: Result<
        usize,
        FsError,
    >)
        requires
            self.wf(),
            from < self.nodes@.len(),
            upto <= segs@.len(),
        ensures
            res_view(r) == self.resolve_at(from as int, seq_views(segs@).take(upto as int), 0),
            r matches Result::Ok(n) ==> n < self.nodes@.len(),
    {
        let ghost gs = seq_views(segs@).take(upto as int);
        let mut cur: usize = from;
        let mut i: usize = 0;
        while i < upto
            invariant
                self.wf(),
                cur < self.nodes@.len(),
                i <= upto,
                upto <= segs@.len(),
                gs == seq_views(segs@).take(upto as int),
                self.resolve_at(from as int, gs, 0) == self.resolve_at(cur as int, gs, i as int),
            decreases upto - i,
        {
            proof {
                assert(gs[i as int] == segs@[i as int]@);
            }
            match crate::path::seg_kind(&segs[i]) {
                SegKind::Empty => {
                    proof {
                        assert(self.resolve_at(cur as int, gs, i as int)
                            == self.resolve_at(cur as int, gs, i + 1));
                    }
                },
                SegKind::Dot => {
                    proof {
                        assert(self.resolve_at(cur as int, gs, i as int)
                            == self.resolve_at(cur as int, gs, i + 1));
                    }
                },
                SegKind::DotDot => {
                    let cur_dir = match &self.nodes[cur].kind {
                        NodeKind::Dir { .. } => true,
                        _ => false,
                    };
                    if !cur_dir {
                        proof {
                            assert(self.resolve_at(cur as int, gs, i as int)
                                == Result::<int, FsError>::Err(FsError::NotDir));
                        }
                        return Result::Err(FsError::NotDir);
                    }
                    let p = self.nodes[cur].parent;
                    proof {
                        assert(self.resolve_at(cur as int, gs, i as int)
                            == self.resolve_at(p as int, gs, i + 1));
                    }
                    cur = p;
                },
                SegKind::Name => {
                    match &self.nodes[cur].kind {
                        NodeKind::Dir { entries, .. } => {
                            proof {
                                assert(self.nodes@[cur as int].entries() == entries@);
                            }
                            match find_entry(entries, &segs[i]) {
                                Option::Some(k) => {
                                    let child = entries[k].1;
                                    proof {
                                        assert(entries_in_bounds(
                                            self.nodes@[cur as int].entries(),
                                            self.nodes@.len() as int,
                                        ));
                                        assert(entries@[k as int].1 < self.nodes@.len());
                                        assert(self.resolve_at(cur as int, gs, i as int)
                                            == self.resolve_at(child as int, gs, i + 1));
                                    }
                                    cur = child;
                                },
                                Option::None => {
                                    proof {
                                        assert(self.resolve_at(cur as int, gs, i as int)
                                            == Result::<int, FsError>::Err(FsError::NotFound));
                                    }
                                    return Result::Err(FsError::NotFound);
                                },
                            }
                        },
                        _ => {
                            proof {
                                assert(!self.nodes@[cur as int].is_dir());
                                assert(self.resolve_at(cur as int, gs, i as int)
                                    == Result::<int, FsError>::Err(FsError::NotDir));
                            }
                            return Result::Err(FsError::NotDir);
                        },
                    }
                },
            }
            i = i + 1;
        }
        Result::Ok(cur)
    }

    /// Walk the first `upto` of `segs` from `from` as the handle
    /// operations do: every step must land on a directory, and an empty
    /// segment is rejected.
    pub(crate) fn walk_prefix(&self, from: usize, segs: &Vec<Vec<u8>>, upto: usize) -> (r: Result<
        usize,
        FsError,
    >)
        requires
            self.wf(),
            from < self.nodes@.len(),
            self.nodes@[from as int].is_dir(),
            upto <= segs@.len(),
        ensures
            res_view(r) == self.walk_at(from as int, seq_views(segs@).take(upto as int), 0),
            r matches Result::Ok(n) ==> n < self.nodes@.len()
                && self.nodes@[n as int].is_dir(),
    {
        let ghost gs = seq_views(segs@).take(upto as int);
        let mut cur: usize = from;
        let mut i: usize = 0;
        while i < upto
            invariant
                self.wf(),
                cur < self.nodes@.len(),
                self.nodes@[cur as int].is_dir(),
                i <= upto,
                upto <= segs@.len(),
                gs == seq_views(segs@).take(upto as int),
                self.walk_at(from as int, gs, 0) == self.walk_at(cur as int, gs, i as int),
            decreases upto - i,
        {
            proof {
                assert(gs[i as int] == segs@[i as int]@);
            }
            match crate::path::seg_kind(&segs[i]) {
                SegKind::Empty => {
                    proof {
                        assert(self.walk_at(cur as int, gs, i as int)
                            == Result::<int, FsError>::Err(FsError::InvalidArgument));
                    }
                    return Result::Err(FsError::InvalidArgument);
                },
                SegKind::Dot => {
                    proof {
                        assert(self.walk_at(cur as int, gs, i as int)
                            == self.walk_at(cur as int, gs, i + 1));
                    }
                },
                SegKind::DotDot => {
                    let p = self.nodes[cur].parent;
                    let is_dir = match &self.nodes[p].kind {
                        NodeKind::Dir { .. } => true,
                        _ => false,
                    };
                    if !is_dir {
                        proof {
                            assert(self.walk_at(cur as int, gs, i as int)
                                == Result::<int, FsError>::Err(FsError::NotDir));
                        }
                        return Result::Err(FsError::NotDir);
                    }
                    proof {
                        assert(self.walk_at(cur as int, gs, i as int)
                            == self.walk_at(p as int, gs, i + 1));
                    }
                    cur = p;
                },
                SegKind::Name => {
                    match &self.nodes[cur].kind {
                        NodeKind::Dir { entries, .. } => {
                            proof {
                                assert(self.nodes@[cur as int].entries() == entries@);
                            }
                            match find_entry(entries, &segs[i]) {
                                Option::Some(k) => {
                                    let child = entries[k].1;
                                    proof {
                                        assert(entries_in_bounds(
                                            self.nodes@[cur as int].entries(),
                                            self.nodes@.len() as int,
                                        ));
                                        assert(entries@[k as int].1 < self.nodes@.len());
                                    }
                                    let child_dir = match &self.nodes[child].kind {
                                        NodeKind::Dir { .. } => true,
                                        _ => false,
                                    };
                                    if !child_dir {
                                        proof {
                                            assert(self.walk_at(cur as int, gs, i as int)
                                                == Result::<int, FsError>::Err(FsError::NotDir));
                                        }
                                        return Result::Err(FsError::NotDir);
                                    }
                                    proof {
                                        assert(self.walk_at(cur as int, gs, i as int)
                                            == self.walk_at(child as int, gs, i + 1));
                                    }
                                    cur = child;
                                },
                                Option::None => {
                                    proof {
                                        assert(self.walk_at(cur as int, gs, i as int)
                                            == Result::<int, FsError>::Err(FsError::NotFound));
                                    }
                                    return Result::Err(FsError::NotFound);
                                },
                            }
                        },
                        _ => {
                            proof {
                                assert(false);
                            }
                        },
                    }
                },
            }
            i = i + 1;
        }
        Result::Ok(cur)
    }

    /// Walk `path` from the node `from`.  Empty segments and `.` are
    /// no-ops, `..` goes to the parent (a fixed point at the root), and a
    /// trailing separator is trimmed, so `get(p)` and `get(p + "/")`
    /// agree.
    pub fn get(&self, from: usize, path: &str) -> (r: Result<usize, FsError>)
        requires
            self.wf(),
            from < self.nodes@.len(),
        ensures
            res_view(r) == self.spec_get(from as int, path.spec_bytes()),
            r matches Result::Ok(n) ==> n < self.nodes@.len(),
    {
        let pb = path.as_bytes_vec();
        let tp = crate::path::trim_path(&pb);
        let segs = crate::path::split_path(&tp);
        let n = segs.len();
        proof {
            assert(seq_views(segs@).take(n as int) =~= seq_views(segs@));
        }
        self.resolve_prefix(from, &segs, n)
    }

    /// Where `attach(from, p, _)` inserts: the parent directory resolved
    /// from all but the last segment, and the final name.
    pub open spec fn attach_plan(self, from: int, p: Seq<u8>) -> Result<(int, Seq<u8>), FsError> {
        let segs = crate::path::seg_split(crate::path::trim_seps(p));
        let name = segs[segs.len() - 1];
        match self.resolve_at(from, segs.take(segs.len() - 1), 0) {
            Result::Err(e) => Result::Err(e),
            Result::Ok(par) => if !self.nodes@[par].is_dir() {
                Result::Err(FsError::NotDir)
            } else if !seg_is_name(name) {
                Result::Err(FsError::InvalidArgument)
            } else if has_name(self.nodes@[par].entries(), name) {
                Result::Err(FsError::Exists)
            } else {
                Result::Ok((par, name))
            },
        }
    }

    /// Insert the existing node `child` under the final segment of
    /// `path`, resolved from `from`.  Reserved names are rejected, and an
    /// existing name collides.  Nothing else of the tree changes.
    pub fn attach(&mut self, from: usize, path: &str, child: usize) -> (r: Result<(), FsError>)
        requires
            old(self).wf(),
            from < old(self).nodes@.len(),
            child < old(self).nodes@.len(),
        ensures
            final(self).wf(),
            old(self).attach_plan(from as int, path.spec_bytes()) matches Result::Err(e)
                ==> r == Result::<(), FsError>::Err(e) && *final(self) == *old(self),
            old(self).attach_plan(from as int, path.spec_bytes()) matches Result::Ok((par, name))
                ==> {
                &&& r == Result::<(), FsError>::Ok(())
                &&& final(self).nodes@.len() == old(self).nodes@.len()
                &&& forall|i: int| 0 <= i < old(self).nodes@.len() && i != par
                    ==> final(self).nodes@[i] == old(self).nodes@[i]
                &&& final(self).nodes@[par].parent == old(self).nodes@[par].parent
                &&& final(self).nodes@[par].inode == old(self).nodes@[par].inode
                &&& final(self).nodes@[par].meta == old(self).nodes@[par].meta
                &&& final(self).nodes@[par].is_dir()
                &&& final(self).nodes@[par].spec_create_file()
                    == old(self).nodes@[par].spec_create_file()
                &&& final(self).nodes@[par].entries().len()
                    == old(self).nodes@[par].entries().len() + 1
                &&& forall|x: Seq<u8>| has_name(final(self).nodes@[par].entries(), x)
                    == (x == name || has_name(old(self).nodes@[par].entries(), x))
                &&& lookup_name(final(self).nodes@[par].entries(), name) == child
                &&& forall|x: Seq<u8>| x != name && has_name(old(self).nodes@[par].entries(), x)
                    ==> lookup_name(final(self).nodes@[par].entries(), x)
                        == lookup_name(old(self).nodes@[par].entries(), x)
                &&& final(self).devices == old(self).devices
                &&& final(self).ledger == old(self).ledger
            },
    {
        let ghost plan = old(self).attach_plan(from as int, path.spec_bytes());
        let pb = path.as_bytes_vec();
        let tp = crate::path::trim_path(&pb);
        let segs = crate::path::split_path(&tp);
        let n = segs.len();
        let last = n - 1;
        let ghost gsegs = seq_views(segs@);
        proof {
            assert(gsegs[last as int] == segs@[last as int]@);
        }
        let par = match self.resolve_prefix(from, &segs, last) {
            Result::Ok(par) => par,
            Result::Err(e) => {
                return Result::Err(e);
            },
        };
        let is_dir = match &self.nodes[par].kind {
            NodeKind::Dir { .. } => true,
            _ => false,
        };
        if !is_dir {
            return Result::Err(FsError::NotDir);
        }
        match crate::path::seg_kind(&segs[last]) {
            SegKind::Name => {},
            _ => {
                return Result::Err(FsError::InvalidArgument);
            },
        }
        let name = copy_bytes(&segs[last]);
        proof {
            crate::path::lemma_seg_split_no_sep(crate::path::trim_seps(path.spec_bytes()));
            assert(valid_name(name@));
        }
        let ghost prev = *self;
        let taken = match &self.nodes[par].kind {
            NodeKind::Dir { entries, .. } => match find_entry(entries, &name) {
                Option::Some(_) => true,
                Option::None => false,
            },
            _ => false,
        };
        if taken {
            return Result::Err(FsError::Exists);
        }
        let node = &mut self.nodes[par];
        match &mut node.kind {
            NodeKind::Dir { entries, .. } => {
                proof {
                    assert(prev.nodes@[par as int].entries() == entries@);
                }
                entries_insert(entries, name, child);
            },
            _ => {
                proof {
                    assert(false);
                }
            },
        }
        proof {
            let t = *self;
            assert(t.nodes@ =~= prev.nodes@.update(par as int, t.nodes@[par as int]));
            assert forall|i: int| 0 <= i < t.nodes@.len() implies
                entries_in_bounds((#[trigger] t.nodes@[i]).entries(), t.nodes@.len() as int) by {
                if i == par as int {
                    assert forall|k: int| 0 <= k < t.nodes@[i].entries().len() implies
                        (#[trigger] t.nodes@[i].entries()[k]).1 < t.nodes@.len() as int by {
                        if t.nodes@[i].entries()[k].1 != child {
                            let m = choose|m: int| 0 <= m < prev.nodes@[i].entries().len()
                                && (#[trigger] prev.nodes@[i].entries()[m]).0@
                                    == t.nodes@[i].entries()[k].0@
                                && prev.nodes@[i].entries()[m].1 == t.nodes@[i].entries()[k].1;
                            assert(entries_in_bounds(
                                prev.nodes@[i].entries(),
                                prev.nodes@.len() as int,
                            ));
                        }
                    }
                }
            }
            assert forall|i: int| 0 <= i < t.nodes@.len() implies
                exists|w: int| 0 <= w < t.devices@.len()
                    && (#[trigger] t.devices@[w]).id_of() == (#[trigger] t.nodes@[i]).inode.device
                    && t.devices@[w].inode_live(t.nodes@[i].inode.id) by {
                let w = choose|w: int| 0 <= w < prev.devices@.len()
                    && (#[trigger] prev.devices@[w]).id_of() == prev.nodes@[i].inode.device
                    && prev.devices@[w].inode_live(prev.nodes@[i].inode.id);
                assert(t.nodes@[i].inode == prev.nodes@[i].inode);
                assert(t.devices@[w].id_of() == t.nodes@[i].inode.device
                    && t.devices@[w].inode_live(t.nodes@[i].inode.id));
            }
            assert forall|i: int, j: int| 0 <= i < j < t.nodes@.len() implies
                (#[trigger] t.nodes@[i]).inode != (#[trigger] t.nodes@[j]).inode by {
                assert(t.nodes@[i].inode == prev.nodes@[i].inode);
                assert(t.nodes@[j].inode == prev.nodes@[j].inode);
            }
            assert forall|i: int| 0 <= i < prev.nodes@.len() implies
                (#[trigger] prev.nodes@[i]).inode == t.nodes@[i].inode by {}
            lemma_counts_carry(prev, t);
            assert(t.wf());
        }
        Result::Ok(())
    }
}

impl Tree {
    /// Look `name` up in the directory `d`; `None` as well when `d` is
    /// not a directory.
    pub(crate) fn dir_lookup(&self, d: usize, name: &Vec<u8>) -> (r: Option<usize>)
        requires
            self.wf(),
            d < self.nodes@.len(),
        ensures
            match r {
                Option::Some(c) => self.nodes@[d as int].is_dir() && has_name(
                    self.nodes@[d as int].entries(),
                    name@,
                ) && c == lookup_name(self.nodes@[d as int].entries(), name@)
                    && c < self.nodes@.len(),
                Option::None => !self.nodes@[d as int].is_dir() || !has_name(
                    self.nodes@[d as int].entries(),
                    name@,
                ),
            },
    {
        match &self.nodes[d].kind {
            NodeKind::Dir { entries, .. } => match find_entry(entries, name) {
                Option::Some(k) => {
                    proof {
                        assert(entries_in_bounds(
                            self.nodes@[d as int].entries(),
                            self.nodes@.len() as int,
                        ));
                        assert(entries@[k as int].1 < self.nodes@.len());
                    }
                    Option::Some(entries[k].1)
                },
                Option::None => Option::None,
            },
            _ => Option::None,
        }
    }

    /// Whether the directory `d` materialises regular files on implicit
    /// create.
    pub(crate) fn dir_create_file(&self, d: usize) -> (r: bool)
        requires
            self.wf(),
            d < self.nodes@.len(),
        ensures
            r == self.nodes@[d as int].spec_create_file(),
    {
        match &self.nodes[d].kind {
            NodeKind::Dir { create_file, .. } => *create_file,
            _ => false,
        }
    }

    /// Insert `(name, child)` into the entries of the directory `dir`.
    pub(crate) fn attach_name(&mut self, dir: usize, name: Vec<u8>, child: usize) -> (r: Result<
        (),
        FsError,
    >)
        requires
            old(self).wf(),
            dir < old(self).nodes@.len(),
            child < old(self).nodes@.len(),
            old(self).nodes@[dir as int].is_dir(),
            valid_name(name@),
        ensures
            final(self).wf(),
            has_name(old(self).nodes@[dir as int].entries(), name@) ==> r == Result::<
                (),
                FsError,
            >::Err(FsError::Exists) && *final(self) == *old(self),
            !has_name(old(self).nodes@[dir as int].entries(), name@) ==> {
                &&& r == Result::<(), FsError>::Ok(())
                &&& final(self).nodes@.len() == old(self).nodes@.len()
                &&& forall|i: int| 0 <= i < old(self).nodes@.len() && i != dir
                    ==> final(self).nodes@[i] == old(self).nodes@[i]
                &&& final(self).nodes@[dir as int].parent == old(self).nodes@[dir as int].parent
                &&& final(self).nodes@[dir as int].inode == old(self).nodes@[dir as int].inode
                &&& final(self).nodes@[dir as int].meta == old(self).nodes@[dir as int].meta
                &&& final(self).nodes@[dir as int].is_dir()
                &&& final(self).nodes@[dir as int].spec_create_file()
                    == old(self).nodes@[dir as int].spec_create_file()
                &&& final(self).nodes@[dir as int].entries().len()
                    == old(self).nodes@[dir as int].entries().len() + 1
                &&& forall|x: Seq<u8>| has_name(final(self).nodes@[dir as int].entries(), x)
                    == (x == name@ || has_name(old(self).nodes@[dir as int].entries(), x))
                &&& lookup_name(final(self).nodes@[dir as int].entries(), name@) == child
                &&& forall|x: Seq<u8>| x != name@
                    && has_name(old(self).nodes@[dir as int].entries(), x)
                    ==> lookup_name(final(self).nodes@[dir as int].entries(), x)
                        == lookup_name(old(self).nodes@[dir as int].entries(), x)
                &&& final(self).devices == old(self).devices
                &&& final(self).ledger == old(self).ledger
            },
    {
        let ghost prev = *self;
        let taken = match &self.nodes[dir].kind {
            NodeKind::Dir { entries, .. } => match find_entry(entries, &name) {
                Option::Some(_) => true,
                Option::None => false,
            },
            _ => false,
        };
        if taken {
            return Result::Err(FsError::Exists);
        }
        let node = &mut self.nodes[dir];
        match &mut node.kind {
            NodeKind::Dir { entries, .. } => {
                proof {
                    assert(prev.nodes@[dir as int].entries() == entries@);
                }
                entries_insert(entries, name, child);
            },
            _ => {
                proof {
                    assert(false);
                }
            },
        }
        proof {
            let t = *self;
            assert(t.nodes@ =~= prev.nodes@.update(dir as int, t.nodes@[dir as int]));
            assert forall|i: int| 0 <= i < t.nodes@.len() implies
                entries_in_bounds((#[trigger] t.nodes@[i]).entries(), t.nodes@.len() as int) by {
                if i == dir as int {
                    assert forall|k: int| 0 <= k < t.nodes@[i].entries().len() implies
                        (#[trigger] t.nodes@[i].entries()[k]).1 < t.nodes@.len() as int by {
                        if t.nodes@[i].entries()[k].1 != child {
                            let m = choose|m: int| 0 <= m < prev.nodes@[i].entries().len()
                                && (#[trigger] prev.nodes@[i].entries()[m]).0@
                                    == t.nodes@[i].entries()[k].0@
                                && prev.nodes@[i].entries()[m].1 == t.nodes@[i].entries()[k].1;
                            assert(entries_in_bounds(
                                prev.nodes@[i].entries(),
                                prev.nodes@.len() as int,
                            ));
                        }
                    }
                }
            }
            assert forall|i: int| 0 <= i < t.nodes@.len() implies
                exists|w: int| 0 <= w < t.devices@.len()
                    && (#[trigger] t.devices@[w]).id_of() == (#[trigger] t.nodes@[i]).inode.device
                    && t.devices@[w].inode_live(t.nodes@[i].inode.id) by {
                let w = choose|w: int| 0 <= w < prev.devices@.len()
                    && (#[trigger] prev.devices@[w]).id_of() == prev.nodes@[i].inode.device
                    && prev.devices@[w].inode_live(prev.nodes@[i].inode.id);
                assert(t.nodes@[i].inode == prev.nodes@[i].inode);
                assert(t.devices@[w].id_of() == t.nodes@[i].inode.device
                    && t.devices@[w].inode_live(t.nodes@[i].inode.id));
            }
            assert forall|i: int, j: int| 0 <= i < j < t.nodes@.len() implies
                (#[trigger] t.nodes@[i]).inode != (#[trigger] t.nodes@[j]).inode by {
                assert(t.nodes@[i].inode == prev.nodes@[i].inode);
                assert(t.nodes@[j].inode == prev.nodes@[j].inode);
            }
            assert forall|i: int| 0 <= i < prev.nodes@.len() implies
                (#[trigger] prev.nodes@[i]).inode == t.nodes@[i].inode by {}
            lemma_counts_carry(prev, t);
            assert(t.wf());
        }
        Result::Ok(())
    }
}

/// Resolution reads only the segments from the index on: equal suffixes
/// resolve alike.
proof fn lemma_resolve_suffix(t: Tree, cur: int, s1: Seq<Seq<u8>>, i1: int, s2: Seq<Seq<u8>>, i2: int)
    requires
        0 <= i1 <= s1.len(),
        0 <= i2 <= s2.len(),
        s1.skip(i1) == s2.skip(i2),
    ensures
        t.resolve_at(cur, s1, i1) == t.resolve_at(cur, s2, i2),
    decreases s1.len() - i1,
{
    assert(s1.len() - i1 == s2.len() - i2) by {
        assert(s1.skip(i1).len() == s1.len() - i1);
        assert(s2.skip(i2).len() == s2.len() - i2);
        assert(s1.skip(i1).len() == s2.skip(i2).len());
    }
    if i1 < s1.len() {
        assert(s1[i1] == s1.skip(i1)[0]);
        assert(s2[i2] == s2.skip(i2)[0]);
        assert(s1[i1] == s2[i2]);
        assert(s1.skip(i1 + 1) =~= s2.skip(i2 + 1)) by {
            assert forall|j: int| 0 <= j < s1.skip(i1 + 1).len() implies
                #[trigger] s1.skip(i1 + 1)[j] == s2.skip(i2 + 1)[j] by {
                assert(s1.skip(i1)[j + 1] == s2.skip(i2)[j + 1]);
            }
        }
        let s = s1[i1];
        if seg_is_noop(s) {
            lemma_resolve_suffix(t, cur, s1, i1 + 1, s2, i2 + 1);
        } else if s == dotdot_seg() {
            if t.nodes@[cur].is_dir() {
                lemma_resolve_suffix(t, t.nodes@[cur].parent as int, s1, i1 + 1, s2, i2 + 1);
            }
        } else if t.nodes@[cur].is_dir() && has_name(t.nodes@[cur].entries(), s) {
            lemma_resolve_suffix(
                t,
                lookup_name(t.nodes@[cur].entries(), s) as int,
                s1,
                i1 + 1,
                s2,
                i2 + 1,
            );
        }
    }
}

/// Empty and `.` segments are transparent to resolution: inserting one
/// anywhere in a segment list leaves the result unchanged.  In path
/// terms, `get("a/./b")` and `get("a//b")` agree with `get("a/b")`.
pub proof fn lemma_resolve_insert_noop(
    t: Tree,
    cur: int,
    segs: Seq<Seq<u8>>,
    at: int,
    s: Seq<u8>,
)
    requires
        crate::path::seg_is_noop(s),
        0 <= at <= segs.len(),
    ensures
        t.resolve_at(cur, segs.insert(at, s), 0) == t.resolve_at(cur, segs, 0),
{
    lemma_resolve_insert_noop_from(t, cur, segs, at, s, 0);
}

proof fn lemma_resolve_insert_noop_from(
    t: Tree,
    cur: int,
    segs: Seq<Seq<u8>>,
    at: int,
    s: Seq<u8>,
    i: int,
)
    requires
        crate::path::seg_is_noop(s),
        0 <= i <= at <= segs.len(),
    ensures
        t.resolve_at(cur, segs.insert(at, s), i) == t.resolve_at(cur, segs, i),
    decreases at - i,
{
    let ins = segs.insert(at, s);
    if i == at {
        assert(ins[i] == s);
        assert(t.resolve_at(cur, ins, i) == t.resolve_at(cur, ins, i + 1));
        assert(ins.skip(i + 1) =~= segs.skip(i)) by {
            assert forall|j: int| 0 <= j < ins.skip(i + 1).len() implies
                #[trigger] ins.skip(i + 1)[j] == segs.skip(i)[j] by {
                assert(ins[i + 1 + j] == segs[i + j]);
            }
        }
        lemma_resolve_suffix(t, cur, ins, i + 1, segs, i);
    } else {
        assert(ins[i] == segs[i]);
        let seg = segs[i];
        if seg_is_noop(seg) {
            lemma_resolve_insert_noop_from(t, cur, segs, at, s, i + 1);
        } else if seg == dotdot_seg() {
            if t.nodes@[cur].is_dir() {
                lemma_resolve_insert_noop_from(
                    t,
                    t.nodes@[cur].parent as int,
                    segs,
                    at,
                    s,
                    i + 1,
                );
            }
        } else if t.nodes@[cur].is_dir() && has_name(t.nodes@[cur].entries(), seg) {
            lemma_resolve_insert_noop_from(
                t,
                lookup_name(t.nodes@[cur].entries(), seg) as int,
                segs,
                at,
                s,
                i + 1,
            );
        }
    }
}

/// A trailing separator does not change what a path resolves to:
/// `get(p + "/")` equals `get(p)`.
pub proof fn lemma_get_trailing_sep(t: Tree, from: int, p: Seq<u8>)
    ensures
        t.spec_get(from, p.push(crate::path::SEP)) == t.spec_get(from, p),
{
    crate::path::lemma_trim_push_sep(p);
}

/// `get(".")` is the node itself.
pub proof fn lemma_get_dot(t: Tree, from: int)
    ensures
        t.spec_get(from, dot_seg()) == Result::<int, FsError>::Ok(from),
{
    let p = dot_seg();
    assert(p[p.len() - 1] != crate::path::SEP);
    assert(crate::path::trim_seps(p) == p);
    assert(!p.contains(crate::path::SEP)) by {
        if p.contains(crate::path::SEP) {
            let j = choose|j: int| 0 <= j < p.len() && p[j] == crate::path::SEP;
        }
    }
    crate::path::lemma_seg_split_whole(p);
    let segs = crate::path::seg_split(p);
    assert(segs == seq![p]);
    assert(t.resolve_at(from, segs, 0) == t.resolve_at(from, segs, 1));
}

/// At the root, `..` resolves to the root itself.
pub proof fn lemma_root_dotdot(t: Tree)
    requires
        t.wf(),
        t.nodes@[0].is_dir(),
    ensures
        t.spec_get(0, dotdot_seg()) == Result::<int, FsError>::Ok(0),
{
    let p = dotdot_seg();
    assert(p[p.len() - 1] != crate::path::SEP);
    assert(crate::path::trim_seps(p) == p);
    assert(!p.contains(crate::path::SEP)) by {
        if p.contains(crate::path::SEP) {
            let j = choose|j: int| 0 <= j < p.len() && p[j] == crate::path::SEP;
        }
    }
    crate::path::lemma_seg_split_whole(p);
    let segs = crate::path::seg_split(p);
    assert(segs == seq![p]);
    assert(!seg_is_noop(p)) by {
        assert(p.len() == 2);
    }
    assert(t.nodes@[0].parent == 0);
    assert(t.resolve_at(0, segs, 0) == t.resolve_at(0, segs, 1));
}

} // verus!
