//! Path-addressed operations on an open directory handle: creating,
//! removing and unlinking entries, listing a directory, stating and
//! time-stamping descendants, and the advertised-unsupported link
//! operations.
//!
//! Every operation walks all but the last segment of its path exactly as
//! [`Tree::walk_at`] describes, then acts on the final segment.

use vstd::prelude::*;

use crate::handle::{spec_filestat, stamped, unchanged_except_wf, Handle};
use crate::path::{dot_seg, dotdot_seg, seg_is_name, seq_views, SegKind, DOT};
use crate::tree::{entries_in_bounds, has_name, lookup_name, Node, NodeKind, Tree};
use crate::types::{DirEntry, FileType, Filestat, FsError, Meta, TimeSpec};

verus! {

use vstd::string::StrSliceExecFns;
use vstd::string::StringSliceAdditionalSpecFns;

/// The specification-level view of one `readdir` entry.
pub open spec fn entry_view(e: DirEntry) -> (Seq<u8>, u64, u64, FileType) {
    (e.name@, e.next, e.inode, e.filetype)
}

/// The views of a list of `readdir` entries.
pub open spec fn entry_views(es: Seq<DirEntry>) -> Seq<(Seq<u8>, u64, u64, FileType)> {
    es.map_values(|e: DirEntry| entry_view(e))
}

/// The full listing of directory `d`: `.` and `..` first — `..` at the
/// root names the root itself — then the children in name order, each
/// entry carrying the cursor that resumes after it.
pub open spec fn spec_readdir(t: Tree, d: int) -> Seq<(Seq<u8>, u64, u64, FileType)> {
    let parent = t.nodes@[d].parent as int;
    seq![
        (dot_seg(), 1u64, t.nodes@[d].inode.id, t.nodes@[d].filetype()),
        (dotdot_seg(), 2u64, t.nodes@[parent].inode.id, t.nodes@[parent].filetype()),
    ] + Seq::new(
        t.nodes@[d].entries().len(),
        |k: int|
            (
                t.nodes@[d].entries()[k].0@,
                (k + 3) as u64,
                t.nodes@[t.nodes@[d].entries()[k].1 as int].inode.id,
                t.nodes@[t.nodes@[d].entries()[k].1 as int].filetype(),
            ),
    )
}

/// Listing is stable: the listing is a function of the tree alone, so
/// two listings with no mutation between them are equal, and resuming
/// at cursor `k` yields exactly the full listing with its first `k`
/// entries dropped.
pub proof fn lemma_readdir_resume(t: Tree, d: int, k: int)
    requires
        0 <= k,
    ensures
        spec_readdir(t, d).skip(0) == spec_readdir(t, d),
        k <= spec_readdir(t, d).len() ==> spec_readdir(t, d).skip(0).skip(k) == spec_readdir(
            t,
            d,
        ).skip(k),
{
    assert(spec_readdir(t, d).skip(0) =~= spec_readdir(t, d));
}

impl Tree {
    /// Create an empty child directory under the final segment, on the
    /// same device as its parent, inheriting the implicit-file policy.
    pub fn create_dir(&mut self, h: &Handle, path: &str, now: u64) -> (r: Result<(), FsError>)
        requires
            old(self).wf(),
            h.wf(*old(self)),
            old(self).nodes@[h.node as int].is_dir(),
            old(self).nodes@.len() < usize::MAX,
        ensures
            final(self).wf(),
            ({
                let segs = crate::path::seg_split(path.spec_bytes());
                let pre = old(self).walk_at(h.node as int, segs.take(segs.len() - 1), 0);
                let s = segs[segs.len() - 1];
                match pre {
                    Result::Err(e) => r == Result::<(), FsError>::Err(e) && *final(self) == *old(self),
                    Result::Ok(par) => {
                        if !seg_is_name(s) {
                            r == Result::<(), FsError>::Err(FsError::InvalidArgument) && *final(self) == *old(self)
                        } else if has_name(old(self).nodes@[par].entries(), s) {
                            r == Result::<(), FsError>::Err(FsError::Exists) && *final(self)
                                == *old(self)
                        } else {
                            &&& r == Result::<(), FsError>::Ok(())
                            &&& final(self).nodes@.len() == old(self).nodes@.len() + 1
                            &&& forall|i: int| 0 <= i < old(self).nodes@.len() && i != par
                                ==> final(self).nodes@[i] == old(self).nodes@[i]
                            &&& forall|x: Seq<u8>| has_name(final(self).nodes@[par].entries(), x)
                                == (x == s || has_name(old(self).nodes@[par].entries(), x))
                            &&& ({
                                let c = lookup_name(
                                    final(self).nodes@[par].entries(),
                                    s,
                                ) as int;
                                &&& c == old(self).nodes@.len()
                                &&& final(self).nodes@[c].is_dir()
                                &&& final(self).nodes@[c].entries().len() == 0
                                &&& final(self).nodes@[c].parent == par
                                &&& final(self).nodes@[c].inode.device
                                    == old(self).nodes@[par].inode.device
                                &&& final(self).nodes@[c].inode.id == crate::tree::count_dev(
                                    old(self).nodes@,
                                    old(self).nodes@[par].inode.device,
                                )
                                &&& final(self).nodes@[c].spec_create_file() == old(self).nodes@[par].spec_create_file()
                                &&& final(self).nodes@[c].meta == Meta::now_spec(now)
                            })
                            &&& forall|x: Seq<u8>| x != s && has_name(
                                old(self).nodes@[par].entries(),
                                x,
                            ) ==> lookup_name(final(self).nodes@[par].entries(), x) == lookup_name(
                                old(self).nodes@[par].entries(),
                                x,
                            )
                        }
                    },
                }
            }),
    {
        let pb = path.as_bytes_vec();
        let segs = crate::path::split_path(&pb);
        let n = segs.len();
        let last = n - 1;
        proof {
            assert(seq_views(segs@)[last as int] == segs@[last as int]@);
        }
        let par = match self.walk_prefix(h.node, &segs, last) {
            Result::Ok(p) => p,
            Result::Err(e) => {
                return Result::Err(e);
            },
        };
        match crate::path::seg_kind(&segs[last]) {
            SegKind::Name => {},
            _ => {
                return Result::Err(FsError::InvalidArgument);
            },
        }
        let name = crate::tree::copy_bytes(&segs[last]);
        proof {
            crate::path::lemma_seg_split_no_sep(path.spec_bytes());
            assert(crate::path::valid_name(name@));
        }
        let taken = match self.dir_lookup(par, &name) {
            Option::Some(_) => true,
            Option::None => false,
        };
        if taken {
            return Result::Err(FsError::Exists);
        }
        let cf = self.dir_create_file(par);
        let c = self.new_dir(par, cf, now);
        match self.attach_name(par, name, c) {
            Result::Ok(_) => Result::Ok(()),
            Result::Err(_) => {
                proof {
                    assert(false);
                }
                Result::Err(FsError::Io)
            },
        }
    }

    /// Remove a same-device, empty child directory named by the final
    /// segment.  A cross-device child and a non-empty child are refused
    /// with the coarse I/O error the boundary affords.
    pub fn remove_dir(&mut self, h: &Handle, path: &str) -> (r: Result<(), FsError>)
        requires
            old(self).wf(),
            h.wf(*old(self)),
            old(self).nodes@[h.node as int].is_dir(),
        ensures
            final(self).wf(),
            ({
                let segs = crate::path::seg_split(path.spec_bytes());
                let pre = old(self).walk_at(h.node as int, segs.take(segs.len() - 1), 0);
                let s = segs[segs.len() - 1];
                match pre {
                    Result::Err(e) => r == Result::<(), FsError>::Err(e) && *final(self) == *old(self),
                    Result::Ok(par) => {
                        if !seg_is_name(s) {
                            r == Result::<(), FsError>::Err(FsError::InvalidArgument) && *final(self) == *old(self)
                        } else if !has_name(old(self).nodes@[par].entries(), s) {
                            r == Result::<(), FsError>::Err(FsError::NotFound) && *final(self)
                                == *old(self)
                        } else {
                            let c = lookup_name(old(self).nodes@[par].entries(), s) as int;
                            if old(self).nodes@[c].inode.device
                                != old(self).nodes@[par].inode.device {
                                r == Result::<(), FsError>::Err(FsError::Io) && *final(self)
                                    == *old(self)
                            } else if !old(self).nodes@[c].is_dir() {
                                r == Result::<(), FsError>::Err(FsError::NotDir) && *final(self)
                                    == *old(self)
                            } else if old(self).nodes@[c].entries().len() > 0 {
                                r == Result::<(), FsError>::Err(FsError::Io) && *final(self)
                                    == *old(self)
                            } else {
                                &&& r == Result::<(), FsError>::Ok(())
                                &&& final(self).nodes@.len() == old(self).nodes@.len()
                                &&& forall|i: int| 0 <= i < old(self).nodes@.len() && i != par
                                    ==> final(self).nodes@[i] == old(self).nodes@[i]
                                &&& forall|x: Seq<u8>| has_name(
                                    final(self).nodes@[par].entries(),
                                    x,
                                ) == (x != s && has_name(old(self).nodes@[par].entries(), x))
                                &&& forall|x: Seq<u8>| x != s && has_name(
                                    old(self).nodes@[par].entries(),
                                    x,
                                ) ==> lookup_name(final(self).nodes@[par].entries(), x)
                                    == lookup_name(old(self).nodes@[par].entries(), x)
                            }
                        }
                    },
                }
            }),
    {
        let ghost prev = *self;
        let pb = path.as_bytes_vec();
        let segs = crate::path::split_path(&pb);
        let n = segs.len();
        let last = n - 1;
        proof {
            assert(seq_views(segs@)[last as int] == segs@[last as int]@);
        }
        let par = match self.walk_prefix(h.node, &segs, last) {
            Result::Ok(p) => p,
            Result::Err(e) => {
                return Result::Err(e);
            },
        };
        match crate::path::seg_kind(&segs[last]) {
            SegKind::Name => {},
            _ => {
                return Result::Err(FsError::InvalidArgument);
            },
        }
        let name = crate::tree::copy_bytes(&segs[last]);
        let c = match self.dir_lookup(par, &name) {
            Option::Some(c) => c,
            Option::None => {
                return Result::Err(FsError::NotFound);
            },
        };
        if self.nodes[c].inode.device != self.nodes[par].inode.device {
            return Result::Err(FsError::Io);
        }
        let child_empty_dir: u8 = match &self.nodes[c].kind {
            NodeKind::Dir { entries, .. } => if entries.len() == 0 {
                0
            } else {
                1
            },
            _ => 2,
        };
        if child_empty_dir == 2 {
            return Result::Err(FsError::NotDir);
        }
        if child_empty_dir == 1 {
            return Result::Err(FsError::Io);
        }
        let node = &mut self.nodes[par];
        match &mut node.kind {
            NodeKind::Dir { entries, .. } => {
                proof {
                    assert(prev.nodes@[par as int].entries() == entries@);
                }
                crate::tree::entries_remove(entries, &name);
            },
            _ => {
                proof {
                    assert(false);
                }
            },
        }
        proof {
            let t = *self;
            assert(t.nodes@ =~= prev.nodes@.update(par as int, t.nodes@[par as int]));
            assert forall|i: int| 0 <= i < t.nodes@.len() implies
                entries_in_bounds((#[trigger] t.nodes@[i]).entries(), t.nodes@.len() as int) by {
                if i == par as int {
                    assert forall|k: int| 0 <= k < t.nodes@[i].entries().len() implies
                        (#[trigger] t.nodes@[i].entries()[k]).1 < t.nodes@.len() as int by {
                        let m = choose|m: int| 0 <= m < prev.nodes@[i].entries().len()
                            && (#[trigger] prev.nodes@[i].entries()[m]).0@
                                == t.nodes@[i].entries()[k].0@
                            && prev.nodes@[i].entries()[m].1 == t.nodes@[i].entries()[k].1;
                        assert(entries_in_bounds(
                            prev.nodes@[i].entries(),
                            prev.nodes@.len() as int,
                        ));
                    }
                }
            }
            assert forall|i: int| 0 <= i < t.nodes@.len() implies
                exists|w: int| 0 <= w < t.devices@.len()
                    && (#[trigger] t.devices@[w]).id_of() == (#[trigger] t.nodes@[i]).inode.device
                    && t.devices@[w].inode_live(t.nodes@[i].inode.id) by {
                let w = choose|w: int| 0 <= w < prev.devices@.len()
                    && (#[trigger] prev.devices@[w]).id_of() == prev.nodes@[i].inode.device
                    && prev.devices@[w].inode_live(prev.nodes@[i].inode.id);
                assert(t.nodes@[i].inode == prev.nodes@[i].inode);
                assert(t.devices@[w].id_of() == t.nodes@[i].inode.device
                    && t.devices@[w].inode_live(t.nodes@[i].inode.id));
            }
            assert forall|i: int, j: int| 0 <= i < j < t.nodes@.len() implies
                (#[trigger] t.nodes@[i]).inode != (#[trigger] t.nodes@[j]).inode by {
                assert(t.nodes@[i].inode == prev.nodes@[i].inode);
                assert(t.nodes@[j].inode == prev.nodes@[j].inode);
            }
            assert forall|i: int| 0 <= i < prev.nodes@.len() implies
                (#[trigger] prev.nodes@[i]).inode == t.nodes@[i].inode by {}
            crate::tree::lemma_counts_carry(prev, t);
            assert(t.wf());
        }
        Result::Ok(())
    }

    /// Unlink a same-device non-directory child named by the final
    /// segment.
    pub fn unlink_file(&mut self, h: &Handle, path: &str) -> (r: Result<(), FsError>)
        requires
            old(self).wf(),
            h.wf(*old(self)),
            old(self).nodes@[h.node as int].is_dir(),
        ensures
            final(self).wf(),
            ({
                let segs = crate::path::seg_split(path.spec_bytes());
                let pre = old(self).walk_at(h.node as int, segs.take(segs.len() - 1), 0);
                let s = segs[segs.len() - 1];
                match pre {
                    Result::Err(e) => r == Result::<(), FsError>::Err(e) && *final(self) == *old(self),
                    Result::Ok(par) => {
                        if !seg_is_name(s) {
                            r == Result::<(), FsError>::Err(FsError::InvalidArgument) && *final(self) == *old(self)
                        } else if !has_name(old(self).nodes@[par].entries(), s) {
                            r == Result::<(), FsError>::Err(FsError::NotFound) && *final(self)
                                == *old(self)
                        } else {
                            let c = lookup_name(old(self).nodes@[par].entries(), s) as int;
                            if old(self).nodes@[c].is_dir() {
                                r == Result::<(), FsError>::Err(FsError::Io) && *final(self)
                                    == *old(self)
                            } else if old(self).nodes@[c].inode.device
                                != old(self).nodes@[par].inode.device {
                                r == Result::<(), FsError>::Err(FsError::Io) && *final(self)
                                    == *old(self)
                            } else {
                                &&& r == Result::<(), FsError>::Ok(())
                                &&& final(self).nodes@.len() == old(self).nodes@.len()
                                &&& forall|i: int| 0 <= i < old(self).nodes@.len() && i != par
                                    ==> final(self).nodes@[i] == old(self).nodes@[i]
                                &&& forall|x: Seq<u8>| has_name(
                                    final(self).nodes@[par].entries(),
                                    x,
                                ) == (x != s && has_name(old(self).nodes@[par].entries(), x))
                                &&& forall|x: Seq<u8>| x != s && has_name(
                                    old(self).nodes@[par].entries(),
                                    x,
                                ) ==> lookup_name(final(self).nodes@[par].entries(), x)
                                    == lookup_name(old(self).nodes@[par].entries(), x)
                            }
                        }
                    },
                }
            }),
    {
        let ghost prev = *self;
        let pb = path.as_bytes_vec();
        let segs = crate::path::split_path(&pb);
        let n = segs.len();
        let last = n - 1;
        proof {
            assert(seq_views(segs@)[last as int] == segs@[last as int]@);
        }
        let par = match self.walk_prefix(h.node, &segs, last) {
            Result::Ok(p) => p,
            Result::Err(e) => {
                return Result::Err(e);
            },
        };
        match crate::path::seg_kind(&segs[last]) {
            SegKind::Name => {},
            _ => {
                return Result::Err(FsError::InvalidArgument);
            },
        }
        let name = crate::tree::copy_bytes(&segs[last]);
        let c = match self.dir_lookup(par, &name) {
            Option::Some(c) => c,
            Option::None => {
                return Result::Err(FsError::NotFound);
            },
        };
        let is_dir = match &self.nodes[c].kind {
            NodeKind::Dir { .. } => true,
            _ => false,
        };
        if is_dir {
            return Result::Err(FsError::Io);
        }
        if self.nodes[c].inode.device != self.nodes[par].inode.device {
            return Result::Err(FsError::Io);
        }
        let node = &mut self.nodes[par];
        match &mut node.kind {
            NodeKind::Dir { entries, .. } => {
                proof {
                    assert(prev.nodes@[par as int].entries() == entries@);
                }
                crate::tree::entries_remove(entries, &name);
            },
            _ => {
                proof {
                    assert(false);
                }
            },
        }
        proof {
            let t = *self;
            assert(t.nodes@ =~= prev.nodes@.update(par as int, t.nodes@[par as int]));
            assert forall|i: int| 0 <= i < t.nodes@.len() implies
                entries_in_bounds((#[trigger] t.nodes@[i]).entries(), t.nodes@.len() as int) by {
                if i == par as int {
                    assert forall|k: int| 0 <= k < t.nodes@[i].entries().len() implies
                        (#[trigger] t.nodes@[i].entries()[k]).1 < t.nodes@.len() as int by {
                        let m = choose|m: int| 0 <= m < prev.nodes@[i].entries().len()
                            && (#[trigger] prev.nodes@[i].entries()[m]).0@
                                == t.nodes@[i].entries()[k].0@
                            && prev.nodes@[i].entries()[m].1 == t.nodes@[i].entries()[k].1;
                        assert(entries_in_bounds(
                            prev.nodes@[i].entries(),
                            prev.nodes@.len() as int,
                        ));
                    }
                }
            }
            assert forall|i: int| 0 <= i < t.nodes@.len() implies
                exists|w: int| 0 <= w < t.devices@.len()
                    && (#[trigger] t.devices@[w]).id_of() == (#[trigger] t.nodes@[i]).inode.device
                    && t.devices@[w].inode_live(t.nodes@[i].inode.id) by {
                let w = choose|w: int| 0 <= w < prev.devices@.len()
                    && (#[trigger] prev.devices@[w]).id_of() == prev.nodes@[i].inode.device
                    && prev.devices@[w].inode_live(prev.nodes@[i].inode.id);
                assert(t.nodes@[i].inode == prev.nodes@[i].inode);
                assert(t.devices@[w].id_of() == t.nodes@[i].inode.device
                    && t.devices@[w].inode_live(t.nodes@[i].inode.id));
            }
            assert forall|i: int, j: int| 0 <= i < j < t.nodes@.len() implies
                (#[trigger] t.nodes@[i]).inode != (#[trigger] t.nodes@[j]).inode by {
                assert(t.nodes@[i].inode == prev.nodes@[i].inode);
                assert(t.nodes@[j].inode == prev.nodes@[j].inode);
            }
            assert forall|i: int| 0 <= i < prev.nodes@.len() implies
                (#[trigger] prev.nodes@[i]).inode == t.nodes@[i].inode by {}
            crate::tree::lemma_counts_carry(prev, t);
            assert(t.wf());
        }
        Result::Ok(())
    }
}

impl Tree {
    /// List the directory behind `h`, skipping the first `cursor`
    /// entries.  Entries come in a fixed order — `.`, `..`, then the
    /// children by ascending name — so successive readers resuming at a
    /// remembered cursor see no duplicates and no gaps while nothing
    /// mutates the directory.
    pub fn readdir(&self, h: &Handle, cursor: u64) -> (r: Result<Vec<DirEntry>, FsError>)
        requires
            self.wf(),
            h.wf(*self),
            self.nodes@[h.node as int].is_dir(),
            self.nodes@[h.node as int].entries().len() + 3 <= u64::MAX,
        ensures
            ({
                let full = spec_readdir(*self, h.node as int);
                if cursor > usize::MAX {
                    r == Result::<Vec<DirEntry>, FsError>::Err(FsError::InvalidArgument)
                } else {
                    let m: int = if cursor <= full.len() {
                        cursor as int
                    } else {
                        full.len() as int
                    };
                    r matches Result::Ok(v) && entry_views(v@) == full.skip(m)
                }
            }),
    {
        if cursor > usize::MAX as u64 {
            return Result::Err(FsError::InvalidArgument);
        }
        let cur = cursor as usize;
        let ghost full = spec_readdir(*self, h.node as int);
        let mut out: Vec<DirEntry> = Vec::new();
        let d = h.node;
        let parent = self.nodes[d].parent;
        if cur < 1 {
            let mut name: Vec<u8> = Vec::new();
            name.push(DOT);
            let ft = match &self.nodes[d].kind {
                NodeKind::Dir { .. } => FileType::Directory,
                NodeKind::File { .. } => FileType::RegularFile,
                _ => FileType::SocketDgram,
            };
            out.push(DirEntry { name, next: 1, inode: self.nodes[d].inode.id, filetype: ft });
            proof {
                assert(entry_views(out@) =~~= full.subrange(0, 1));
            }
        }
        if cur < 2 {
            let mut name: Vec<u8> = Vec::new();
            name.push(DOT);
            name.push(DOT);
            let ft = match &self.nodes[parent].kind {
                NodeKind::Dir { .. } => FileType::Directory,
                NodeKind::File { .. } => FileType::RegularFile,
                _ => FileType::SocketDgram,
            };
            out.push(DirEntry {
                name,
                next: 2,
                inode: self.nodes[parent].inode.id,
                filetype: ft,
            });
            proof {
                let lo: int = if cur < 1 {
                    0
                } else {
                    1
                };
                assert(entry_views(out@) =~~= full.subrange(lo, 2));
            }
        }
        let elen = match &self.nodes[d].kind {
            NodeKind::Dir { entries, .. } => entries.len(),
            _ => 0,
        };
        let ghost m: int = if cur <= full.len() {
            cur as int
        } else {
            full.len() as int
        };
        let mut k: usize = 0;
        proof {
            if cur == 0 {
                assert(entry_views(out@) =~~= full.subrange(0, 2));
            } else if cur == 1 {
                assert(entry_views(out@) =~~= full.subrange(1, 2));
            } else {
                assert(m >= 2);
                assert(entry_views(out@) =~~= full.subrange(2, 2));
            }
        }
        while k < elen
            invariant
                self.wf(),
                h.wf(*self),
                self.nodes@[h.node as int].is_dir(),
                d == h.node,
                full == spec_readdir(*self, h.node as int),
                elen == self.nodes@[d as int].entries().len(),
                full.len() == elen + 2,
                elen + 3 <= u64::MAX,
                m == if cur <= full.len() {
                    cur as int
                } else {
                    full.len() as int
                },
                k <= elen,
                entry_views(out@) =~~= full.subrange(
                    if m < k + 2 {
                        m
                    } else {
                        k + 2
                    },
                    k + 2,
                ),
            decreases elen - k,
        {
            let taking = if cur <= 2 {
                true
            } else {
                k >= cur - 2
            };
            if taking {
                let (name, c) = match &self.nodes[d].kind {
                    NodeKind::Dir { entries, .. } => (
                        crate::tree::copy_bytes(&entries[k].0),
                        entries[k].1,
                    ),
                    _ => (Vec::new(), 0),
                };
                proof {
                    assert(entries_in_bounds(
                        self.nodes@[d as int].entries(),
                        self.nodes@.len() as int,
                    ));
                    assert(self.nodes@[d as int].entries()[k as int].1 < self.nodes@.len());
                }
                let ft = match &self.nodes[c].kind {
                    NodeKind::Dir { .. } => FileType::Directory,
                    NodeKind::File { .. } => FileType::RegularFile,
                    _ => FileType::SocketDgram,
                };
                let ghost before = out@;
                out.push(DirEntry {
                    name,
                    next: (k as u64) + 3,
                    inode: self.nodes[c].inode.id,
                    filetype: ft,
                });
                proof {
                    assert(entry_views(out@) =~~= entry_views(before).push(full[k + 2]));
                    assert(entry_views(out@) =~~= full.subrange(
                        if m < k + 3 {
                            m
                        } else {
                            (k + 3) as int
                        },
                        k + 3,
                    ));
                }
            } else {
                proof {
                    assert(entry_views(out@) =~~= full.subrange(
                        if m < k + 3 {
                            m
                        } else {
                            (k + 3) as int
                        },
                        k + 3,
                    ));
                }
            }
            k = k + 1;
        }
        proof {
            assert(entry_views(out@) =~~= full.skip(m));
        }
        Result::Ok(out)
    }

    /// The metadata of the node the path resolves to: the handle's own
    /// node for an empty or `.` final segment, the parent for `..`
    /// (which must be a directory), else the named child.
    pub fn get_path_filestat(&self, h: &Handle, path: &str, follow: bool) -> (r: Result<
        Filestat,
        FsError,
    >)
        requires
            self.wf(),
            h.wf(*self),
            self.nodes@[h.node as int].is_dir(),
        ensures
            ({
                let segs = crate::path::seg_split(path.spec_bytes());
                let pre = self.walk_at(h.node as int, segs.take(segs.len() - 1), 0);
                let s = segs[segs.len() - 1];
                match pre {
                    Result::Err(e) => r == Result::<Filestat, FsError>::Err(e),
                    Result::Ok(par) => {
                        if crate::path::seg_is_noop(s) {
                            r == Result::<Filestat, FsError>::Ok(spec_filestat(*self, par))
                        } else if s == dotdot_seg() {
                            let p = self.nodes@[par].parent as int;
                            if !self.nodes@[p].is_dir() {
                                r == Result::<Filestat, FsError>::Err(FsError::NotDir)
                            } else {
                                r == Result::<Filestat, FsError>::Ok(spec_filestat(*self, p))
                            }
                        } else if !has_name(self.nodes@[par].entries(), s) {
                            r == Result::<Filestat, FsError>::Err(FsError::NotFound)
                        } else {
                            r == Result::<Filestat, FsError>::Ok(
                                spec_filestat(
                                    *self,
                                    lookup_name(self.nodes@[par].entries(), s) as int,
                                ),
                            )
                        }
                    },
                }
            }),
    {
        let pb = path.as_bytes_vec();
        let segs = crate::path::split_path(&pb);
        let n = segs.len();
        let last = n - 1;
        proof {
            assert(seq_views(segs@)[last as int] == segs@[last as int]@);
        }
        let par = match self.walk_prefix(h.node, &segs, last) {
            Result::Ok(p) => p,
            Result::Err(e) => {
                return Result::Err(e);
            },
        };
        let target: usize = match crate::path::seg_kind(&segs[last]) {
            SegKind::Empty => par,
            SegKind::Dot => par,
            SegKind::DotDot => {
                let p = self.nodes[par].parent;
                let pd = match &self.nodes[p].kind {
                    NodeKind::Dir { .. } => true,
                    _ => false,
                };
                if !pd {
                    return Result::Err(FsError::NotDir);
                }
                p
            },
            SegKind::Name => {
                let name = crate::tree::copy_bytes(&segs[last]);
                match self.dir_lookup(par, &name) {
                    Option::Some(c) => c,
                    Option::None => {
                        return Result::Err(FsError::NotFound);
                    },
                }
            },
        };
        let node = &self.nodes[target];
        let size: u64 = match &node.kind {
            NodeKind::File { content } => content.len() as u64,
            _ => 0,
        };
        let filetype = match &node.kind {
            NodeKind::Dir { .. } => FileType::Directory,
            NodeKind::File { .. } => FileType::RegularFile,
            _ => FileType::SocketDgram,
        };
        Result::Ok(Filestat {
            device_id: node.inode.device,
            inode: node.inode.id,
            filetype,
            nlink: 1,
            size,
            atim: node.meta.atime,
            mtim: node.meta.mtime,
            ctim: node.meta.ctime,
        })
    }

    /// Update timestamps on the entry the path resolves to; `Now`
    /// requests share the single wall time `now`.
    pub fn set_times(
        &mut self,
        h: &Handle,
        path: &str,
        atime: Option<TimeSpec>,
        mtime: Option<TimeSpec>,
        follow: bool,
        now: u64,
    ) -> (r: Result<(), FsError>)
        requires
            old(self).wf(),
            h.wf(*old(self)),
            old(self).nodes@[h.node as int].is_dir(),
        ensures
            final(self).wf(),
            ({
                let segs = crate::path::seg_split(path.spec_bytes());
                let pre = old(self).walk_at(h.node as int, segs.take(segs.len() - 1), 0);
                let s = segs[segs.len() - 1];
                match pre {
                    Result::Err(e) => r == Result::<(), FsError>::Err(e) && *final(self) == *old(self),
                    Result::Ok(par) => {
                        let target: int = if crate::path::seg_is_noop(s) {
                            par
                        } else if s == dotdot_seg() {
                            old(self).nodes@[par].parent as int
                        } else if has_name(old(self).nodes@[par].entries(), s) {
                            lookup_name(old(self).nodes@[par].entries(), s) as int
                        } else {
                            -1
                        };
                        if s == dotdot_seg()
                            && !old(self).nodes@[old(self).nodes@[par].parent as int].is_dir() {
                            r == Result::<(), FsError>::Err(FsError::NotDir) && *final(self)
                                == *old(self)
                        } else if target < 0 {
                            r == Result::<(), FsError>::Err(FsError::NotFound) && *final(self)
                                == *old(self)
                        } else {
                            &&& r == Result::<(), FsError>::Ok(())
                            &&& final(self).nodes@.len() == old(self).nodes@.len()
                            &&& forall|i: int| 0 <= i < old(self).nodes@.len() && i != target
                                ==> final(self).nodes@[i] == old(self).nodes@[i]
                            &&& final(self).nodes@[target] == (Node {
                                meta: stamped(old(self).nodes@[target].meta, atime, mtime, now),
                                ..old(self).nodes@[target]
                            })
                        }
                    },
                }
            }),
    {
        let ghost prev = *self;
        let pb = path.as_bytes_vec();
        let segs = crate::path::split_path(&pb);
        let n = segs.len();
        let last = n - 1;
        proof {
            assert(seq_views(segs@)[last as int] == segs@[last as int]@);
        }
        let par = match self.walk_prefix(h.node, &segs, last) {
            Result::Ok(p) => p,
            Result::Err(e) => {
                return Result::Err(e);
            },
        };
        let target: usize = match crate::path::seg_kind(&segs[last]) {
            SegKind::Empty => par,
            SegKind::Dot => par,
            SegKind::DotDot => {
                let p = self.nodes[par].parent;
                let pd = match &self.nodes[p].kind {
                    NodeKind::Dir { .. } => true,
                    _ => false,
                };
                if !pd {
                    return Result::Err(FsError::NotDir);
                }
                p
            },
            SegKind::Name => {
                let name = crate::tree::copy_bytes(&segs[last]);
                match self.dir_lookup(par, &name) {
                    Option::Some(c) => c,
                    Option::None => {
                        return Result::Err(FsError::NotFound);
                    },
                }
            },
        };
        let node = &mut self.nodes[target];
        node.meta.set_times(atime, mtime, now);
        proof {
            unchanged_except_wf(prev, *self, target as int);
        }
        Result::Ok(())
    }

    /// Symbolic links are not supported; the descent still reports its
    /// own errors first.
    pub fn symlink(&self, h: &Handle, old_path: &str, new_path: &str) -> (r: Result<(), FsError>)
        requires
            self.wf(),
            h.wf(*self),
            self.nodes@[h.node as int].is_dir(),
        ensures
            ({
                let segs = crate::path::seg_split(new_path.spec_bytes());
                match self.walk_at(h.node as int, segs.take(segs.len() - 1), 0) {
                    Result::Err(e) => r == Result::<(), FsError>::Err(e),
                    Result::Ok(_) => r == Result::<(), FsError>::Err(FsError::NotSupported),
                }
            }),
    {
        let pb = new_path.as_bytes_vec();
        let segs = crate::path::split_path(&pb);
        let last = segs.len() - 1;
        match self.walk_prefix(h.node, &segs, last) {
            Result::Ok(_) => Result::Err(FsError::NotSupported),
            Result::Err(e) => Result::Err(e),
        }
    }

    /// Renaming is not supported.
    pub fn rename(&self, h: &Handle, path: &str, dest_path: &str) -> (r: Result<(), FsError>)
        requires
            self.wf(),
            h.wf(*self),
            self.nodes@[h.node as int].is_dir(),
        ensures
            ({
                let segs = crate::path::seg_split(path.spec_bytes());
                match self.walk_at(h.node as int, segs.take(segs.len() - 1), 0) {
                    Result::Err(e) => r == Result::<(), FsError>::Err(e),
                    Result::Ok(_) => r == Result::<(), FsError>::Err(FsError::NotSupported),
                }
            }),
    {
        let pb = path.as_bytes_vec();
        let segs = crate::path::split_path(&pb);
        let last = segs.len() - 1;
        match self.walk_prefix(h.node, &segs, last) {
            Result::Ok(_) => Result::Err(FsError::NotSupported),
            Result::Err(e) => Result::Err(e),
        }
    }

    /// Hard links are not supported.
    pub fn hard_link(&self, h: &Handle, path: &str, target_path: &str) -> (r: Result<(), FsError>)
        requires
            self.wf(),
            h.wf(*self),
            self.nodes@[h.node as int].is_dir(),
        ensures
            ({
                let segs = crate::path::seg_split(path.spec_bytes());
                match self.walk_at(h.node as int, segs.take(segs.len() - 1), 0) {
                    Result::Err(e) => r == Result::<(), FsError>::Err(e),
                    Result::Ok(_) => r == Result::<(), FsError>::Err(FsError::NotSupported),
                }
            }),
    {
        let pb = path.as_bytes_vec();
        let segs = crate::path::split_path(&pb);
        let last = segs.len() - 1;
        match self.walk_prefix(h.node, &segs, last) {
            Result::Ok(_) => Result::Err(FsError::NotSupported),
            Result::Err(e) => Result::Err(e),
        }
    }

    /// Reading links is not supported.
    pub fn read_link(&self, h: &Handle, path: &str) -> (r: Result<Vec<u8>, FsError>)
        requires
            self.wf(),
            h.wf(*self),
            self.nodes@[h.node as int].is_dir(),
        ensures
            ({
                let segs = crate::path::seg_split(path.spec_bytes());
                match self.walk_at(h.node as int, segs.take(segs.len() - 1), 0) {
                    Result::Err(e) => r == Result::<Vec<u8>, FsError>::Err(e),
                    Result::Ok(_) => r matches Result::Err(e2) && e2 == FsError::NotSupported,
                }
            }),
    {
        let pb = path.as_bytes_vec();
        let segs = crate::path::split_path(&pb);
        let last = segs.len() - 1;
        match self.walk_prefix(h.node, &segs, last) {
            Result::Ok(_) => Result::Err(FsError::NotSupported),
            Result::Err(e) => Result::Err(e),
        }
    }

    /// Open the final segment file-style.  Exactly the eight open-flag
    /// combinations of [`crate::types::OFlags::valid`] are accepted, and
    /// truncation demands write permission; an empty, `.` or `..` final
    /// segment opens the resolved directory itself or its parent; a
    /// missing name is created under the create flag — a directory under
    /// the directory flag, else a regular file where the parent's policy
    /// allows — and an existing name collides with the exclusive flag,
    /// is truncated under the truncate flag, and is opened plainly
    /// otherwise.
    #[verifier::rlimit(100)]
    pub fn open_file(
        &mut self,
        h: &Handle,
        follow: bool,
        path: &str,
        oflags: crate::types::OFlags,
        read: bool,
        write: bool,
        flags: crate::types::FdFlags,
        now: u64,
    ) -> (r: Result<Handle, FsError>)
        requires
            old(self).wf(),
            h.wf(*old(self)),
            old(self).nodes@[h.node as int].is_dir(),
            old(self).nodes@.len() < usize::MAX,
        ensures
            final(self).wf(),
            ({
                let segs = crate::path::seg_split(path.spec_bytes());
                let pre = old(self).walk_at(h.node as int, segs.take(segs.len() - 1), 0);
                let s = segs[segs.len() - 1];
                let flags_ok = oflags.valid() && !(oflags.truncate && !write);
                match pre {
                    Result::Err(e) => r == Result::<Handle, FsError>::Err(e) && *final(self)
                        == *old(self),
                    Result::Ok(cur) => {
                        if !flags_ok {
                            r == Result::<Handle, FsError>::Err(FsError::InvalidArgument)
                                && *final(self) == *old(self)
                        } else if crate::path::seg_is_noop(s) || s == dotdot_seg() {
                            let target: int = if s == dotdot_seg() {
                                old(self).nodes@[cur].parent as int
                            } else {
                                cur
                            };
                            if oflags.exclusive {
                                r == Result::<Handle, FsError>::Err(FsError::Exists) && *final(self)
                                    == *old(self)
                            } else if oflags.truncate {
                                r == Result::<Handle, FsError>::Err(FsError::Io) && *final(self)
                                    == *old(self)
                            } else {
                                *final(self) == *old(self) && match crate::handle::open_err(
                                    *old(self),
                                    target,
                                    oflags.directory,
                                    read,
                                    write,
                                    flags,
                                ) {
                                    Option::Some(e) => r == Result::<Handle, FsError>::Err(e),
                                    Option::None => r matches Result::Ok(h2) && h2.fresh(
                                        target,
                                        read,
                                        write,
                                        flags,
                                    ),
                                }
                            }
                        } else if has_name(old(self).nodes@[cur].entries(), s) {
                            let c = lookup_name(old(self).nodes@[cur].entries(), s) as int;
                            if oflags.create && oflags.exclusive {
                                r == Result::<Handle, FsError>::Err(FsError::Exists) && *final(self)
                                    == *old(self)
                            } else if oflags.truncate {
                                match crate::handle::open_err(
                                    *old(self),
                                    c,
                                    oflags.directory,
                                    false,
                                    true,
                                    crate::types::FdFlags { append: false },
                                ) {
                                    Option::Some(e) => r == Result::<Handle, FsError>::Err(e)
                                        && *final(self) == *old(self),
                                    Option::None => {
                                        if old(self).nodes@[c].kind matches NodeKind::File { .. } {
                                            &&& r matches Result::Ok(h2) && h2.fresh(
                                                c,
                                                false,
                                                true,
                                                crate::types::FdFlags { append: false },
                                            )
                                            &&& final(self).nodes@.len() == old(self).nodes@.len()
                                            &&& forall|i: int| 0 <= i < old(self).nodes@.len() && i
                                                != c ==> final(self).nodes@[i] == old(self).nodes@[i]
                                            &&& final(self).nodes@[c].content().len() == 0
                                            &&& final(self).nodes@[c].kind matches NodeKind::File { .. }
                                            &&& final(self).nodes@[c].parent == old(self).nodes@[c].parent
                                            &&& final(self).nodes@[c].inode == old(self).nodes@[c].inode
                                            &&& final(self).nodes@[c].meta == old(self).nodes@[c].meta
                                        } else {
                                            r == Result::<Handle, FsError>::Err(
                                                FsError::NotSupported,
                                            ) && *final(self) == *old(self)
                                        }
                                    },
                                }
                            } else {
                                *final(self) == *old(self) && match crate::handle::open_err(
                                    *old(self),
                                    c,
                                    oflags.directory,
                                    read,
                                    write,
                                    flags,
                                ) {
                                    Option::Some(e) => r == Result::<Handle, FsError>::Err(e),
                                    Option::None => r matches Result::Ok(h2) && h2.fresh(
                                        c,
                                        read,
                                        write,
                                        flags,
                                    ),
                                }
                            }
                        } else {
                            if !oflags.create {
                                r == Result::<Handle, FsError>::Err(FsError::NotFound) && *final(self) == *old(self)
                            } else if !oflags.directory && !old(self).nodes@[cur].spec_create_file() {
                                r == Result::<Handle, FsError>::Err(FsError::NotSupported)
                                    && *final(self) == *old(self)
                            } else {
                                let c = old(self).nodes@.len() as int;
                                &&& r matches Result::Ok(h2) && h2.fresh(c, read, write, flags)
                                &&& final(self).nodes@.len() == old(self).nodes@.len() + 1
                                &&& forall|i: int| 0 <= i < old(self).nodes@.len() && i != cur
                                    ==> final(self).nodes@[i] == old(self).nodes@[i]
                                &&& forall|x: Seq<u8>| has_name(
                                    final(self).nodes@[cur].entries(),
                                    x,
                                ) == (x == s || has_name(old(self).nodes@[cur].entries(), x))
                                &&& lookup_name(final(self).nodes@[cur].entries(), s) == c
                                &&& forall|x: Seq<u8>| x != s && has_name(
                                    old(self).nodes@[cur].entries(),
                                    x,
                                ) ==> lookup_name(final(self).nodes@[cur].entries(), x)
                                    == lookup_name(old(self).nodes@[cur].entries(), x)
                                &&& final(self).nodes@[c].parent == cur
                                &&& final(self).nodes@[c].inode.device == old(self).nodes@[cur].inode.device
                                &&& final(self).nodes@[c].inode.id == crate::tree::count_dev(
                                    old(self).nodes@,
                                    old(self).nodes@[cur].inode.device,
                                )
                                &&& final(self).nodes@[c].meta == Meta::now_spec(now)
                                &&& (oflags.directory ==> final(self).nodes@[c].is_dir()
                                    && final(self).nodes@[c].entries().len() == 0
                                    && final(self).nodes@[c].spec_create_file() == old(self).nodes@[cur].spec_create_file())
                                &&& (!oflags.directory ==> (final(self).nodes@[c].kind
                                    matches NodeKind::File { content } && content@.len() == 0))
                            }
                        }
                    },
                }
            }),
    {
        let pb = path.as_bytes_vec();
        let segs = crate::path::split_path(&pb);
        let n = segs.len();
        let last = n - 1;
        proof {
            assert(seq_views(segs@)[last as int] == segs@[last as int]@);
        }
        let cur = match self.walk_prefix(h.node, &segs, last) {
            Result::Ok(p) => p,
            Result::Err(e) => {
                return Result::Err(e);
            },
        };
        // Check the flag combination, and that truncation may write.
        let valid = (!oflags.exclusive || oflags.create) && (!oflags.truncate
            || (!oflags.directory && !oflags.exclusive));
        if !valid {
            return Result::Err(FsError::InvalidArgument);
        }
        if oflags.truncate && !write {
            return Result::Err(FsError::InvalidArgument);
        }
        match crate::path::seg_kind(&segs[last]) {
            SegKind::Empty | SegKind::Dot | SegKind::DotDot => {
                let is_dotdot = match crate::path::seg_kind(&segs[last]) {
                    SegKind::DotDot => true,
                    _ => false,
                };
                let target = if is_dotdot {
                    self.nodes[cur].parent
                } else {
                    cur
                };
                if oflags.exclusive {
                    return Result::Err(FsError::Exists);
                }
                if oflags.truncate {
                    return Result::Err(FsError::Io);
                }
                self.open_node(target, oflags.directory, read, write, flags)
            },
            SegKind::Name => {
                let name = crate::tree::copy_bytes(&segs[last]);
                proof {
                    crate::path::lemma_seg_split_no_sep(path.spec_bytes());
                    assert(crate::path::valid_name(name@));
                }
                match self.dir_lookup(cur, &name) {
                    Option::Some(c) => {
                        if oflags.create && oflags.exclusive {
                            return Result::Err(FsError::Exists);
                        }
                        if oflags.truncate {
                            let opened = self.open_node(
                                c,
                                oflags.directory,
                                false,
                                true,
                                crate::types::FdFlags::empty(),
                            );
                            let h2 = match opened {
                                Result::Ok(h2) => h2,
                                Result::Err(e) => {
                                    return Result::Err(e);
                                },
                            };
                            let ghost prev = *self;
                            let is_file = match &self.nodes[c].kind {
                                NodeKind::File { .. } => true,
                                _ => false,
                            };
                            if !is_file {
                                return Result::Err(FsError::NotSupported);
                            }
                            let node = &mut self.nodes[c];
                            match &mut node.kind {
                                NodeKind::File { content } => {
                                    content.clear();
                                },
                                _ => {
                                    proof {
                                        assert(false);
                                    }
                                },
                            }
                            proof {
                                unchanged_except_wf(prev, *self, c as int);
                            }
                            return Result::Ok(h2);
                        }
                        self.open_node(c, oflags.directory, read, write, flags)
                    },
                    Option::None => {
                        if !oflags.create {
                            return Result::Err(FsError::NotFound);
                        }
                        if oflags.directory {
                            let cf = self.dir_create_file(cur);
                            let c = self.new_dir(cur, cf, now);
                            match self.attach_name(cur, name, c) {
                                Result::Ok(_) => {},
                                Result::Err(_) => {
                                    proof {
                                        assert(false);
                                    }
                                },
                            }
                            return Result::Ok(Handle {
                                node: c,
                                read,
                                write,
                                flags,
                                pos: 0,
                                buf: Vec::new(),
                            });
                        }
                        if !self.dir_create_file(cur) {
                            return Result::Err(FsError::NotSupported);
                        }
                        let c = self.new_file(cur, Vec::new(), now);
                        match self.attach_name(cur, name, c) {
                            Result::Ok(_) => {},
                            Result::Err(_) => {
                                proof {
                                    assert(false);
                                }
                            },
                        }
                        Result::Ok(Handle { node: c, read, write, flags, pos: 0, buf: Vec::new() })
                    },
                }
            },
        }
    }

    /// Open a descendant directory: the whole path walks dir-to-dir, and
    /// the handle carries no byte-I/O permissions.
    pub fn open_dir(&self, h: &Handle, follow: bool, path: &str) -> (r: Result<Handle, FsError>)
        requires
            self.wf(),
            h.wf(*self),
            self.nodes@[h.node as int].is_dir(),
        ensures
            ({
                let segs = crate::path::seg_split(path.spec_bytes());
                match self.walk_at(h.node as int, segs, 0) {
                    Result::Err(e) => r == Result::<Handle, FsError>::Err(e),
                    Result::Ok(d) => r matches Result::Ok(h2) && h2.fresh(
                        d,
                        false,
                        false,
                        crate::types::FdFlags { append: false },
                    ) && d < self.nodes@.len() && self.nodes@[d].is_dir(),
                }
            }),
    {
        let pb = path.as_bytes_vec();
        let segs = crate::path::split_path(&pb);
        let n = segs.len();
        proof {
            assert(seq_views(segs@).take(n as int) =~= seq_views(segs@));
        }
        let d = match self.walk_prefix(h.node, &segs, n) {
            Result::Ok(d) => d,
            Result::Err(e) => {
                return Result::Err(e);
            },
        };
        Result::Ok(Handle {
            node: d,
            read: false,
            write: false,
            flags: crate::types::FdFlags::empty(),
            pos: 0,
            buf: Vec::new(),
        })
    }
}

} // verus!
