//! Open handles and their per-handle operations.
//!
//! A handle records the node it refers to, its read/write permissions,
//! its descriptor flags, a cursor, and — for `sign` and `verify`
//! sockets — the running message written so far.  Handles stay valid for
//! the life of the tree: nodes are never deleted from the arena, only
//! detached, which mirrors a removed file staying readable through open
//! descriptors.

use vstd::prelude::*;

use crate::path::seq_views;
use crate::tree::{Alg, Node, NodeKind, Tree};
use crate::types::{FdFlags, FileType, Filestat, FsError, SeekFrom, TimeSpec};

verus! {

/// An open handle onto a node of a [`Tree`].
#[derive(Debug)]
pub struct Handle {
    /// Index of the node in the tree's arena.
    pub node: usize,
    pub read: bool,
    pub write: bool,
    pub flags: FdFlags,
    /// The cursor for plain byte I/O.
    pub pos: usize,
    /// The running message of a `sign` or `verify` socket.
    pub buf: Vec<u8>,
}

impl Handle {
    pub open spec fn wf(self, t: Tree) -> bool {
        self.node < t.nodes@.len()
    }

    /// A handle freshly opened on `n` with the given permissions.
    pub open spec fn fresh(self, n: int, read: bool, write: bool, flags: FdFlags) -> bool {
        &&& self.node == n
        &&& self.read == read
        &&& self.write == write
        &&& self.flags == flags
        &&& self.pos == 0
        &&& self.buf@.len() == 0
    }
}

/// What opening node `n` file-style rejects, if anything: keystore
/// pseudo-files demand their role's exact permissions, a regular file
/// refuses directory-opening, and a directory accepts any open.
pub open spec fn open_err(
    t: Tree,
    n: int,
    as_dir: bool,
    read: bool,
    write: bool,
    flags: FdFlags,
) -> Option<FsError> {
    match t.nodes@[n].kind {
        NodeKind::Dir { .. } => Option::None,
        NodeKind::File { .. } => if as_dir {
            Option::Some(FsError::NotDir)
        } else {
            Option::None
        },
        NodeKind::Generate { .. } => rw_socket_err(as_dir, read, write, flags),
        NodeKind::Trust { .. } => rw_socket_err(as_dir, read, write, flags),
        NodeKind::Sign { .. } => rw_socket_err(as_dir, read, write, flags),
        NodeKind::Share { .. } => if as_dir {
            Option::Some(FsError::NotDir)
        } else if !read || write || !flags.is_empty() {
            Option::Some(FsError::PermissionDenied)
        } else {
            Option::None
        },
        NodeKind::Verify { .. } => if as_dir {
            Option::Some(FsError::NotDir)
        } else if read || !write {
            Option::Some(FsError::PermissionDenied)
        } else if !flags.is_empty() {
            Option::Some(FsError::InvalidArgument)
        } else {
            Option::None
        },
    }
}

/// The check shared by `generate`, `trust` and `sign`: read and write
/// together, no extra flags.
pub open spec fn rw_socket_err(as_dir: bool, read: bool, write: bool, flags: FdFlags) -> Option<
    FsError,
> {
    if as_dir {
        Option::Some(FsError::NotDir)
    } else if !read || !write {
        Option::Some(FsError::PermissionDenied)
    } else if !flags.is_empty() {
        Option::Some(FsError::InvalidArgument)
    } else {
        Option::None
    }
}

impl Tree {
    /// Open node `n` file-style with the given permissions.
    pub fn open_node(&self, n: usize, as_dir: bool, read: bool, write: bool, flags: FdFlags) -> (r:
        Result<Handle, FsError>)
        requires
            self.wf(),
            n < self.nodes@.len(),
        ensures
            match open_err(*self, n as int, as_dir, read, write, flags) {
                Option::Some(e) => r == Result::<Handle, FsError>::Err(e),
                Option::None => r matches Result::Ok(h) && h.fresh(n as int, read, write, flags),
            },
    {
        let flags_empty = !flags.append;
        proof {
            assert(flags.is_empty() == flags_empty);
        }
        match &self.nodes[n].kind {
            NodeKind::Dir { .. } => {},
            NodeKind::File { .. } => {
                if as_dir {
                    return Result::Err(FsError::NotDir);
                }
            },
            NodeKind::Generate { .. } => {
                if as_dir {
                    return Result::Err(FsError::NotDir);
                }
                if !read || !write {
                    return Result::Err(FsError::PermissionDenied);
                }
                if !flags_empty {
                    return Result::Err(FsError::InvalidArgument);
                }
            },
            NodeKind::Trust { .. } => {
                if as_dir {
                    return Result::Err(FsError::NotDir);
                }
                if !read || !write {
                    return Result::Err(FsError::PermissionDenied);
                }
                if !flags_empty {
                    return Result::Err(FsError::InvalidArgument);
                }
            },
            NodeKind::Sign { .. } => {
                if as_dir {
                    return Result::Err(FsError::NotDir);
                }
                if !read || !write {
                    return Result::Err(FsError::PermissionDenied);
                }
                if !flags_empty {
                    return Result::Err(FsError::InvalidArgument);
                }
            },
            NodeKind::Share { .. } => {
                if as_dir {
                    return Result::Err(FsError::NotDir);
                }
                if !read || write || !flags_empty {
                    return Result::Err(FsError::PermissionDenied);
                }
            },
            NodeKind::Verify { .. } => {
                if as_dir {
                    return Result::Err(FsError::NotDir);
                }
                if read || !write {
                    return Result::Err(FsError::PermissionDenied);
                }
                if !flags_empty {
                    return Result::Err(FsError::InvalidArgument);
                }
            },
        }
        Result::Ok(Handle { node: n, read, write, flags, pos: 0, buf: Vec::new() })
    }

    /// The file type seen through a handle.
    pub fn get_filetype(&self, h: &Handle) -> (r: Result<FileType, FsError>)
        requires
            self.wf(),
            h.wf(*self),
        ensures
            r == Result::<FileType, FsError>::Ok(self.nodes@[h.node as int].filetype()),
    {
        match &self.nodes[h.node].kind {
            NodeKind::Dir { .. } => Result::Ok(FileType::Directory),
            NodeKind::File { .. } => Result::Ok(FileType::RegularFile),
            _ => Result::Ok(FileType::SocketDgram),
        }
    }

    /// Flush: nothing is buffered, so directories and files succeed
    /// trivially; the sockets do not offer the operation.
    pub fn datasync(&self, h: &Handle) -> (r: Result<(), FsError>)
        requires
            self.wf(),
            h.wf(*self),
        ensures
            r == if self.nodes@[h.node as int].filetype() == FileType::SocketDgram {
                Result::<(), FsError>::Err(FsError::NotSupported)
            } else {
                Result::<(), FsError>::Ok(())
            },
    {
        match &self.nodes[h.node].kind {
            NodeKind::Dir { .. } => Result::Ok(()),
            NodeKind::File { .. } => Result::Ok(()),
            _ => Result::Err(FsError::NotSupported),
        }
    }

    /// Like [`Tree::datasync`].
    pub fn sync(&self, h: &Handle) -> (r: Result<(), FsError>)
        requires
            self.wf(),
            h.wf(*self),
        ensures
            r == if self.nodes@[h.node as int].filetype() == FileType::SocketDgram {
                Result::<(), FsError>::Err(FsError::NotSupported)
            } else {
                Result::<(), FsError>::Ok(())
            },
    {
        match &self.nodes[h.node].kind {
            NodeKind::Dir { .. } => Result::Ok(()),
            NodeKind::File { .. } => Result::Ok(()),
            _ => Result::Err(FsError::NotSupported),
        }
    }

    /// The descriptor flags; only regular files carry them.
    pub fn get_fdflags(&self, h: &Handle) -> (r: Result<FdFlags, FsError>)
        requires
            self.wf(),
            h.wf(*self),
        ensures
            r == if self.nodes@[h.node as int].filetype() == FileType::RegularFile {
                Result::<FdFlags, FsError>::Ok(h.flags)
            } else {
                Result::<FdFlags, FsError>::Err(FsError::NotSupported)
            },
    {
        match &self.nodes[h.node].kind {
            NodeKind::File { .. } => Result::Ok(h.flags),
            _ => Result::Err(FsError::NotSupported),
        }
    }

    /// Replace the descriptor flags of a writable regular-file handle.
    pub fn set_fdflags(&self, h: &mut Handle, flags: FdFlags) -> (r: Result<(), FsError>)
        requires
            self.wf(),
            old(h).wf(*self),
        ensures
            final(h).wf(*self),
            self.nodes@[old(h).node as int].filetype() != FileType::RegularFile ==> r
                == Result::<(), FsError>::Err(FsError::NotSupported) && *final(h) == *old(h),
            self.nodes@[old(h).node as int].filetype() == FileType::RegularFile && !old(h).write
                ==> r == Result::<(), FsError>::Err(FsError::Io) && *final(h) == *old(h),
            self.nodes@[old(h).node as int].filetype() == FileType::RegularFile && old(h).write
                ==> r == Result::<(), FsError>::Ok(()) && *final(h) == (Handle {
                flags,
                ..*old(h)
            }),
    {
        let is_file = match &self.nodes[h.node].kind {
            NodeKind::File { .. } => true,
            _ => false,
        };
        if !is_file {
            return Result::Err(FsError::NotSupported);
        }
        if !h.write {
            return Result::Err(FsError::Io);
        }
        h.flags = flags;
        Result::Ok(())
    }

    /// The metadata of the node behind a handle.  Sizes follow the
    /// boundary contract: byte length for regular files, zero for
    /// directories and pseudo-files.
    pub fn get_filestat(&self, h: &Handle) -> (r: Result<Filestat, FsError>)
        requires
            self.wf(),
            h.wf(*self),
        ensures
            r matches Result::Ok(st) && st == spec_filestat(*self, h.node as int),
    {
        let node = &self.nodes[h.node];
        let size: u64 = match &node.kind {
            NodeKind::File { content } => content.len() as u64,
            _ => 0,
        };
        let filetype = match &node.kind {
            NodeKind::Dir { .. } => FileType::Directory,
            NodeKind::File { .. } => FileType::RegularFile,
            _ => FileType::SocketDgram,
        };
        Result::Ok(Filestat {
            device_id: node.inode.device,
            inode: node.inode.id,
            filetype,
            nlink: 1,
            size,
            atim: node.meta.atime,
            mtim: node.meta.mtime,
            ctim: node.meta.ctime,
        })
    }

    /// Resize a regular file, zero-filling on growth.
    pub fn set_filestat_size(&mut self, h: &Handle, size: u64) -> (r: Result<(), FsError>)
        requires
            old(self).wf(),
            h.wf(*old(self)),
        ensures
            final(self).wf(),
            !(old(self).nodes@[h.node as int].kind matches NodeKind::File { .. }) ==> r
                == Result::<(), FsError>::Err(FsError::NotSupported) && *final(self) == *old(self),
            old(self).nodes@[h.node as int].kind matches NodeKind::File { .. } && !h.write ==> r
                == Result::<(), FsError>::Err(FsError::Io) && *final(self) == *old(self),
            old(self).nodes@[h.node as int].kind matches NodeKind::File { .. } && h.write && size
                > usize::MAX ==> r == Result::<(), FsError>::Err(FsError::InvalidArgument)
                && *final(self) == *old(self),
            old(self).nodes@[h.node as int].kind matches NodeKind::File { .. } && h.write && size
                <= usize::MAX ==> {
                &&& r == Result::<(), FsError>::Ok(())
                &&& final(self).nodes@.len() == old(self).nodes@.len()
                &&& forall|i: int| 0 <= i < old(self).nodes@.len() && i != h.node as int
                    ==> final(self).nodes@[i] == old(self).nodes@[i]
                &&& final(self).nodes@[h.node as int].content() == resize_spec(
                    old(self).nodes@[h.node as int].content(),
                    size as int,
                )
                &&& final(self).nodes@[h.node as int].parent
                    == old(self).nodes@[h.node as int].parent
                &&& final(self).nodes@[h.node as int].inode == old(self).nodes@[h.node as int].inode
                &&& final(self).nodes@[h.node as int].meta == old(self).nodes@[h.node as int].meta
                &&& final(self).nodes@[h.node as int].kind matches NodeKind::File { .. }
            },
    {
        let ghost prev = *self;
        let is_file = match &self.nodes[h.node].kind {
            NodeKind::File { .. } => true,
            _ => false,
        };
        if !is_file {
            return Result::Err(FsError::NotSupported);
        }
        if !h.write {
            return Result::Err(FsError::Io);
        }
        if size > usize::MAX as u64 {
            return Result::Err(FsError::InvalidArgument);
        }
        let sz = size as usize;
        let node = &mut self.nodes[h.node];
        match &mut node.kind {
            NodeKind::File { content } => {
                content.resize(sz, 0);
            },
            _ => {
                proof {
                    assert(false);
                }
            },
        }
        proof {
            unchanged_except_wf(prev, *self, h.node as int);
        }
        Result::Ok(())
    }

    /// Advice about access patterns: accepted and ignored on files.
    pub fn advise(&self, h: &Handle, offset: u64, len: u64) -> (r: Result<(), FsError>)
        requires
            self.wf(),
            h.wf(*self),
        ensures
            r == if self.nodes@[h.node as int].kind matches NodeKind::File { .. } {
                Result::<(), FsError>::Ok(())
            } else {
                Result::<(), FsError>::Err(FsError::NotSupported)
            },
    {
        match &self.nodes[h.node].kind {
            NodeKind::File { .. } => Result::Ok(()),
            _ => Result::Err(FsError::NotSupported),
        }
    }

    /// A non-failing reservation advisory: only bounds-checks the range.
    pub fn allocate(&self, h: &Handle, offset: u64, len: u64) -> (r: Result<(), FsError>)
        requires
            self.wf(),
            h.wf(*self),
        ensures
            !(self.nodes@[h.node as int].kind matches NodeKind::File { .. }) ==> r
                == Result::<(), FsError>::Err(FsError::NotSupported),
            self.nodes@[h.node as int].kind matches NodeKind::File { .. } && !h.write ==> r
                == Result::<(), FsError>::Err(FsError::Io),
            self.nodes@[h.node as int].kind matches NodeKind::File { .. } && h.write ==> r == if
                offset > usize::MAX || len > usize::MAX || offset + len > usize::MAX {
                Result::<(), FsError>::Err(FsError::InvalidArgument)
            } else {
                Result::<(), FsError>::Ok(())
            },
    {
        let is_file = match &self.nodes[h.node].kind {
            NodeKind::File { .. } => true,
            _ => false,
        };
        if !is_file {
            return Result::Err(FsError::NotSupported);
        }
        if !h.write {
            return Result::Err(FsError::Io);
        }
        if offset > usize::MAX as u64 || len > usize::MAX as u64 {
            return Result::Err(FsError::InvalidArgument);
        }
        if offset > (usize::MAX as u64) - len {
            return Result::Err(FsError::InvalidArgument);
        }
        Result::Ok(())
    }

    /// Update the timestamps through a handle; a file demands write
    /// permission, a directory does not, and the sockets do not offer
    /// the operation.
    pub fn set_times_handle(
        &mut self,
        h: &Handle,
        atime: Option<TimeSpec>,
        mtime: Option<TimeSpec>,
        now: u64,
    ) -> (r: Result<(), FsError>)
        requires
            old(self).wf(),
            h.wf(*old(self)),
        ensures
            final(self).wf(),
            old(self).nodes@[h.node as int].filetype() == FileType::SocketDgram ==> r
                == Result::<(), FsError>::Err(FsError::NotSupported) && *final(self) == *old(self),
            old(self).nodes@[h.node as int].kind matches NodeKind::File { .. } && !h.write ==> r
                == Result::<(), FsError>::Err(FsError::Io) && *final(self) == *old(self),
            (old(self).nodes@[h.node as int].is_dir() || (old(self).nodes@[h.node as int].kind
                matches NodeKind::File { .. } && h.write)) ==> {
                &&& r == Result::<(), FsError>::Ok(())
                &&& final(self).nodes@.len() == old(self).nodes@.len()
                &&& forall|i: int| 0 <= i < old(self).nodes@.len() && i != h.node as int
                    ==> final(self).nodes@[i] == old(self).nodes@[i]
                &&& final(self).nodes@[h.node as int] == (Node {
                    meta: stamped(old(self).nodes@[h.node as int].meta, atime, mtime, now),
                    ..old(self).nodes@[h.node as int]
                })
            },
    {
        let ghost prev = *self;
        let kindsel: u8 = match &self.nodes[h.node].kind {
            NodeKind::Dir { .. } => 0,
            NodeKind::File { .. } => 1,
            _ => 2,
        };
        if kindsel == 2 {
            return Result::Err(FsError::NotSupported);
        }
        if kindsel == 1 && !h.write {
            return Result::Err(FsError::Io);
        }
        let node = &mut self.nodes[h.node];
        node.meta.set_times(atime, mtime, now);
        proof {
            unchanged_except_wf(prev, *self, h.node as int);
        }
        Result::Ok(())
    }

    /// Move the cursor of a regular-file handle.
    pub fn seek(&self, h: &mut Handle, pos: SeekFrom) -> (r: Result<u64, FsError>)
        requires
            self.wf(),
            old(h).wf(*self),
        ensures
            final(h).wf(*self),
            final(h).node == old(h).node && final(h).read == old(h).read && final(h).write == old(h).write && final(h).flags == old(h).flags && final(h).buf == old(h).buf,
            !(self.nodes@[old(h).node as int].kind matches NodeKind::File { .. }) ==> r
                == Result::<u64, FsError>::Err(FsError::NotSupported) && final(h).pos == old(h).pos,
            (self.nodes@[old(h).node as int].kind matches NodeKind::File { .. }) ==> {
                let base: int = match pos {
                    SeekFrom::Start(_) => 0,
                    SeekFrom::Current(_) => old(h).pos as int,
                    SeekFrom::End(_) => self.nodes@[old(h).node as int].content().len() as int,
                };
                let off: int = match pos {
                    SeekFrom::Start(o) => o as int,
                    SeekFrom::Current(o) => o as int,
                    SeekFrom::End(o) => o as int,
                };
                if base + off < 0 || base + off > usize::MAX {
                    r == Result::<u64, FsError>::Err(FsError::InvalidArgument) && final(h).pos
                        == old(h).pos
                } else {
                    r == Result::<u64, FsError>::Ok((base + off) as u64) && final(h).pos == base
                        + off
                }
            },
    {
        let is_file = match &self.nodes[h.node].kind {
            NodeKind::File { .. } => true,
            _ => false,
        };
        if !is_file {
            return Result::Err(FsError::NotSupported);
        }
        let clen = match &self.nodes[h.node].kind {
            NodeKind::File { content } => content.len(),
            _ => 0,
        };
        match pos {
            SeekFrom::Start(o) => {
                if o > usize::MAX as u64 {
                    return Result::Err(FsError::InvalidArgument);
                }
                h.pos = o as usize;
                Result::Ok(o)
            },
            SeekFrom::Current(o) => {
                let cur = h.pos;
                if o >= 0 {
                    let ou = o as u64;
                    if ou > (usize::MAX as u64) - (cur as u64) {
                        return Result::Err(FsError::InvalidArgument);
                    }
                    h.pos = cur + (ou as usize);
                    Result::Ok(h.pos as u64)
                } else {
                    let mag: u64 = if o == i64::MIN {
                        9223372036854775808
                    } else {
                        (-o) as u64
                    };
                    if mag > cur as u64 {
                        return Result::Err(FsError::InvalidArgument);
                    }
                    h.pos = cur - (mag as usize);
                    Result::Ok(h.pos as u64)
                }
            },
            SeekFrom::End(o) => {
                if o >= 0 {
                    let ou = o as u64;
                    if ou > (usize::MAX as u64) - (clen as u64) {
                        return Result::Err(FsError::InvalidArgument);
                    }
                    h.pos = clen + (ou as usize);
                    Result::Ok(h.pos as u64)
                } else {
                    let mag: u64 = if o == i64::MIN {
                        9223372036854775808
                    } else {
                        (-o) as u64
                    };
                    if mag > clen as u64 {
                        return Result::Err(FsError::InvalidArgument);
                    }
                    h.pos = clen - (mag as usize);
                    Result::Ok(h.pos as u64)
                }
            },
        }
    }

    /// Read at the cursor without advancing it.
    pub fn peek(&self, h: &Handle, buf: &mut Vec<u8>) -> (r: Result<u64, FsError>)
        requires
            self.wf(),
            h.wf(*self),
        ensures
            !(self.nodes@[h.node as int].kind matches NodeKind::File { .. }) ==> r
                == Result::<u64, FsError>::Err(FsError::NotSupported) && *final(buf) == *old(buf),
            self.nodes@[h.node as int].kind matches NodeKind::File { .. } && !h.read ==> r
                == Result::<u64, FsError>::Err(FsError::Io) && *final(buf) == *old(buf),
            self.nodes@[h.node as int].kind matches NodeKind::File { .. } && h.read ==> {
                let ch = crate::bytes::chunk(
                    self.nodes@[h.node as int].content(),
                    h.pos as int,
                    old(buf)@.len() as int,
                );
                &&& r == Result::<u64, FsError>::Ok(ch.len() as u64)
                &&& final(buf)@ == ch + old(buf)@.skip(ch.len() as int)
            },
    {
        match &self.nodes[h.node].kind {
            NodeKind::File { content } => {
                if !h.read {
                    return Result::Err(FsError::Io);
                }
                let blen = buf.len();
                let avail: usize = if h.pos < content.len() {
                    content.len() - h.pos
                } else {
                    0
                };
                let cnt: usize = if blen < avail {
                    blen
                } else {
                    avail
                };
                let ghost ch = crate::bytes::chunk(content@, h.pos as int, blen as int);
                proof {
                    assert(ch.len() == cnt);
                }
                let mut j: usize = 0;
                while j < cnt
                    invariant
                        j <= cnt,
                        cnt == ch.len(),
                        cnt <= buf@.len(),
                        buf@.len() == old(buf)@.len(),
                        ch == crate::bytes::chunk(
                            self.nodes@[h.node as int].content(),
                            h.pos as int,
                            old(buf)@.len() as int,
                        ),
                        self.nodes@[h.node as int].kind matches NodeKind::File { content }
                            && (cnt == 0 || h.pos + cnt <= content@.len()),
                        cnt == 0 || h.pos + cnt <= usize::MAX,
                        h.wf(*self),
                        forall|i: int| 0 <= i < j ==> buf@[i] == ch[i],
                        forall|i: int| j <= i < buf@.len() ==> buf@[i] == old(buf)@[i],
                    decreases cnt - j,
                {
                    let b = match &self.nodes[h.node].kind {
                        NodeKind::File { content } => content[h.pos + j],
                        _ => 0,
                    };
                    buf.set(j, b);
                    j = j + 1;
                }
                proof {
                    assert(buf@ =~= ch + old(buf)@.skip(ch.len() as int));
                }
                Result::Ok(cnt as u64)
            },
            _ => Result::Err(FsError::NotSupported),
        }
    }

    /// The bytes still readable at the cursor of a file, or the whole
    /// payload of a `share` socket.
    pub fn num_ready_bytes(&self, h: &Handle) -> (r: Result<u64, FsError>)
        requires
            self.wf(),
            h.wf(*self),
        ensures
            self.nodes@[h.node as int].kind matches NodeKind::File { .. } && !h.read ==> r
                == Result::<u64, FsError>::Err(FsError::Io),
            self.nodes@[h.node as int].kind matches NodeKind::File { .. } && h.read ==> {
                let len = self.nodes@[h.node as int].content().len() as int;
                let p: int = if h.pos as int <= len {
                    h.pos as int
                } else {
                    len
                };
                r == Result::<u64, FsError>::Ok((len - p) as u64)
            },
            self.nodes@[h.node as int].kind matches NodeKind::Share { .. } ==> r
                == Result::<u64, FsError>::Ok(self.nodes@[h.node as int].content().len() as u64),
            !(self.nodes@[h.node as int].kind matches NodeKind::File { .. })
                && !(self.nodes@[h.node as int].kind matches NodeKind::Share { .. }) ==> r
                == Result::<u64, FsError>::Err(FsError::NotSupported),
    {
        match &self.nodes[h.node].kind {
            NodeKind::File { content } => {
                if !h.read {
                    return Result::Err(FsError::Io);
                }
                let len = content.len();
                let p = if h.pos < len {
                    h.pos
                } else {
                    len
                };
                Result::Ok((len - p) as u64)
            },
            NodeKind::Share { payload } => Result::Ok(payload.len() as u64),
            _ => Result::Err(FsError::NotSupported),
        }
    }

    /// Whether reads may proceed.
    pub fn readable(&self, h: &Handle) -> (r: Result<(), FsError>)
        requires
            self.wf(),
            h.wf(*self),
        ensures
            r == match self.nodes@[h.node as int].kind {
                NodeKind::File { .. } => Result::<(), FsError>::Ok(()),
                NodeKind::Generate { .. } => Result::<(), FsError>::Ok(()),
                NodeKind::Trust { .. } => Result::<(), FsError>::Ok(()),
                NodeKind::Share { .. } => Result::<(), FsError>::Ok(()),
                NodeKind::Sign { .. } => Result::<(), FsError>::Ok(()),
                _ => Result::<(), FsError>::Err(FsError::NotSupported),
            },
    {
        match &self.nodes[h.node].kind {
            NodeKind::File { .. } => Result::Ok(()),
            NodeKind::Generate { .. } => Result::Ok(()),
            NodeKind::Trust { .. } => Result::Ok(()),
            NodeKind::Share { .. } => Result::Ok(()),
            NodeKind::Sign { .. } => Result::Ok(()),
            _ => Result::Err(FsError::NotSupported),
        }
    }

    /// Whether writes may proceed.
    pub fn writable(&self, h: &Handle) -> (r: Result<(), FsError>)
        requires
            self.wf(),
            h.wf(*self),
        ensures
            r == match self.nodes@[h.node as int].kind {
                NodeKind::File { .. } => Result::<(), FsError>::Ok(()),
                NodeKind::Generate { .. } => Result::<(), FsError>::Ok(()),
                NodeKind::Trust { .. } => Result::<(), FsError>::Ok(()),
                NodeKind::Sign { .. } => Result::<(), FsError>::Ok(()),
                NodeKind::Verify { .. } => Result::<(), FsError>::Ok(()),
                _ => Result::<(), FsError>::Err(FsError::NotSupported),
            },
    {
        match &self.nodes[h.node].kind {
            NodeKind::File { .. } => Result::Ok(()),
            NodeKind::Generate { .. } => Result::Ok(()),
            NodeKind::Trust { .. } => Result::Ok(()),
            NodeKind::Sign { .. } => Result::Ok(()),
            NodeKind::Verify { .. } => Result::Ok(()),
            _ => Result::Err(FsError::NotSupported),
        }
    }
}

/// The metadata record of node `n`.
pub open spec fn spec_filestat(t: Tree, n: int) -> Filestat {
    Filestat {
        device_id: t.nodes@[n].inode.device,
        inode: t.nodes@[n].inode.id,
        filetype: t.nodes@[n].filetype(),
        nlink: 1,
        size: if t.nodes@[n].kind matches NodeKind::File { .. } {
            t.nodes@[n].content().len() as u64
        } else {
            0
        },
        atim: t.nodes@[n].meta.atime,
        mtim: t.nodes@[n].meta.mtime,
        ctim: t.nodes@[n].meta.ctime,
    }
}

/// A content vector resized to `n`, zero-filling on growth.
pub open spec fn resize_spec(c: Seq<u8>, n: int) -> Seq<u8> {
    if n <= c.len() {
        c.take(n)
    } else {
        c + Seq::new((n - c.len()) as nat, |k: int| 0u8)
    }
}

/// Timestamps after a `set_times` request resolved against `now`.
pub open spec fn stamped(
    m: crate::types::Meta,
    atime: Option<TimeSpec>,
    mtime: Option<TimeSpec>,
    now: u64,
) -> crate::types::Meta {
    crate::types::Meta {
        ctime: m.ctime,
        atime: crate::types::resolve_time(atime, m.atime, now),
        mtime: crate::types::resolve_time(mtime, m.mtime, now),
    }
}

/// Replacing one node, without touching entries, inodes or devices,
/// keeps the tree well-formed as long as the node's entries stayed put.
pub proof fn unchanged_except_wf(prev: Tree, t: Tree, at: int)
    requires
        prev.wf(),
        t.nodes@.len() == prev.nodes@.len(),
        t.devices == prev.devices,
        t.ledger == prev.ledger,
        forall|i: int| 0 <= i < prev.nodes@.len() && i != at ==> t.nodes@[i] == prev.nodes@[i],
        0 <= at < prev.nodes@.len(),
        t.nodes@[at].parent == prev.nodes@[at].parent,
        t.nodes@[at].inode == prev.nodes@[at].inode,
        t.nodes@[at].entries() == prev.nodes@[at].entries(),
        crate::tree::key_kind_wf(t.nodes@[at].kind),
    ensures
        t.wf(),
{
    assert forall|i: int| 0 <= i < t.nodes@.len() implies
        exists|w: int| 0 <= w < t.devices@.len()
            && (#[trigger] t.devices@[w]).id_of() == (#[trigger] t.nodes@[i]).inode.device
            && t.devices@[w].inode_live(t.nodes@[i].inode.id) by {
        let w = choose|w: int| 0 <= w < prev.devices@.len()
            && (#[trigger] prev.devices@[w]).id_of() == prev.nodes@[i].inode.device
            && prev.devices@[w].inode_live(prev.nodes@[i].inode.id);
        assert(t.nodes@[i].inode == prev.nodes@[i].inode);
        assert(t.devices@[w].id_of() == t.nodes@[i].inode.device
            && t.devices@[w].inode_live(t.nodes@[i].inode.id));
    }
    assert forall|i: int, j: int| 0 <= i < j < t.nodes@.len() implies
        (#[trigger] t.nodes@[i]).inode != (#[trigger] t.nodes@[j]).inode by {
        assert(t.nodes@[i].inode == prev.nodes@[i].inode);
        assert(t.nodes@[j].inode == prev.nodes@[j].inode);
    }
    assert forall|i: int| 0 <= i < prev.nodes@.len() implies
        (#[trigger] prev.nodes@[i]).inode == t.nodes@[i].inode by {}
    crate::tree::lemma_counts_carry(prev, t);
    assert forall|i: int| 0 <= i < t.nodes@.len() implies
        entries_wf_at(t, i) by {
        if i != at {
            assert(t.nodes@[i] == prev.nodes@[i]);
        }
        assert(t.nodes@[i].entries() == prev.nodes@[i].entries());
    }
}

/// The per-node entry conditions of [`Tree::wf`].
pub open spec fn entries_wf_at(t: Tree, i: int) -> bool {
    &&& crate::tree::entries_sorted(t.nodes@[i].entries())
    &&& crate::tree::entries_names_valid(t.nodes@[i].entries())
    &&& crate::tree::entries_in_bounds(t.nodes@[i].entries(), t.nodes@.len() as int)
}

impl Tree {
    /// Read at the cursor.  A file hands out its bytes and advances the
    /// cursor; a factory socket emits one queued UUID as a whole message,
    /// leaving it queued when the buffers are too small; a `share` socket
    /// delivers its whole payload or nothing.
    pub fn read_vectored(&mut self, h: &mut Handle, bufs: &mut Vec<Vec<u8>>) -> (r: Result<
        u64,
        FsError,
    >)
        requires
            old(self).wf(),
            old(h).wf(*old(self)),
        ensures
            final(self).wf(),
            final(h).wf(*final(self)),
            final(self).nodes@.len() == old(self).nodes@.len(),
            final(h).node == old(h).node && final(h).read == old(h).read && final(h).write == old(h).write && final(h).flags == old(h).flags && final(h).buf == old(h).buf,
            ({
                let node = old(self).nodes@[old(h).node as int];
                let views = seq_views(old(bufs)@);
                match node.kind {
                    NodeKind::File { content } => {
                        if !old(h).read {
                            r == Result::<u64, FsError>::Err(FsError::Io) && *final(self) == *old(self) && *final(bufs) == *old(bufs) && final(h).pos == old(h).pos
                        } else {
                            &&& r == Result::<u64, FsError>::Ok(
                                crate::bytes::fill_total(views, content@, old(h).pos as int) as u64,
                            )
                            &&& seq_views(final(bufs)@) == crate::bytes::fill_bufs(
                                views,
                                content@,
                                old(h).pos as int,
                            )
                            &&& final(h).pos == old(h).pos + crate::bytes::fill_total(
                                views,
                                content@,
                                old(h).pos as int,
                            )
                            &&& *final(self) == *old(self)
                        }
                    },
                    NodeKind::Share { payload } => {
                        if crate::bytes::caps(views) < payload@.len() {
                            r == Result::<u64, FsError>::Err(FsError::TooBig) && *final(self)
                                == *old(self) && *final(bufs) == *old(bufs) && final(h).pos == old(h).pos
                        } else {
                            &&& r == Result::<u64, FsError>::Ok(payload@.len() as u64)
                            &&& seq_views(final(bufs)@) == crate::bytes::fill_bufs(
                                views,
                                payload@,
                                0,
                            )
                            &&& *final(self) == *old(self)
                            &&& final(h).pos == old(h).pos
                        }
                    },
                    NodeKind::Generate { queue } => factory_read_post(
                        *old(self),
                        *final(self),
                        old(h).node as int,
                        queue@,
                        views,
                        final(bufs)@,
                        old(bufs)@,
                        r,
                    ) && final(h).pos == old(h).pos,
                    NodeKind::Trust { queue } => factory_read_post(
                        *old(self),
                        *final(self),
                        old(h).node as int,
                        queue@,
                        views,
                        final(bufs)@,
                        old(bufs)@,
                        r,
                    ) && final(h).pos == old(h).pos,
                    _ => r == Result::<u64, FsError>::Err(FsError::NotSupported) && *final(self)
                        == *old(self) && *final(bufs) == *old(bufs) && final(h).pos == old(h).pos,
                }
            }),
    {
        let ghost prev = *self;
        let kindsel: u8 = match &self.nodes[h.node].kind {
            NodeKind::File { .. } => 0,
            NodeKind::Share { .. } => 1,
            NodeKind::Generate { .. } => 2,
            NodeKind::Trust { .. } => 2,
            _ => 3,
        };
        if kindsel == 3 {
            return Result::Err(FsError::NotSupported);
        }
        if kindsel == 0 {
            if !h.read {
                return Result::Err(FsError::Io);
            }
            let total = match &self.nodes[h.node].kind {
                NodeKind::File { content } => {
                    let clen = content.len();
                    proof {
                        assert(content@.len() <= usize::MAX);
                    }
                    crate::bytes::fill_from(bufs, content, h.pos)
                },
                _ => 0,
            };
            proof {
                crate::bytes::lemma_fill_total_bounds(
                    seq_views(old(bufs)@),
                    prev.nodes@[h.node as int].content(),
                    h.pos as int,
                );
            }
            h.pos = h.pos + total;
            return Result::Ok(total as u64);
        }
        if kindsel == 1 {
            match &self.nodes[h.node].kind {
                NodeKind::Share { payload } => {
                    if !crate::bytes::has_capacity(bufs, payload.len()) {
                        return Result::Err(FsError::TooBig);
                    }
                    let total = crate::bytes::fill_from(bufs, payload, 0);
                    proof {
                        crate::bytes::lemma_fill_total_value(seq_views(old(bufs)@), payload@, 0);
                    }
                    return Result::Ok(total as u64);
                },
                _ => {
                    proof {
                        assert(false);
                    }
                    return Result::Err(FsError::TooBig);
                },
            }
        }
        // A factory socket: emit the most recently queued name.
        let qlen = match &self.nodes[h.node].kind {
            NodeKind::Generate { queue } => queue.len(),
            NodeKind::Trust { queue } => queue.len(),
            _ => 0,
        };
        if qlen == 0 {
            return Result::Err(FsError::WouldBlock);
        }
        let name: Vec<u8> = match &self.nodes[h.node].kind {
            NodeKind::Generate { queue } => crate::tree::copy_bytes(&queue[qlen - 1]),
            NodeKind::Trust { queue } => crate::tree::copy_bytes(&queue[qlen - 1]),
            _ => Vec::new(),
        };
        if !crate::bytes::has_capacity(bufs, name.len()) {
            return Result::Err(FsError::TooBig);
        }
        let node = &mut self.nodes[h.node];
        match &mut node.kind {
            NodeKind::Generate { queue } => {
                queue.pop();
            },
            NodeKind::Trust { queue } => {
                queue.pop();
            },
            _ => {
                proof {
                    assert(false);
                }
            },
        }
        proof {
            unchanged_except_wf(prev, *self, h.node as int);
            assert(self.nodes@[h.node as int].queue()
                =~= prev.nodes@[h.node as int].queue().drop_last());
        }
        let total = crate::bytes::fill_from(bufs, &name, 0);
        proof {
            crate::bytes::lemma_fill_total_value(seq_views(old(bufs)@), name@, 0);
        }
        Result::Ok(total as u64)
    }
}

impl Tree {
    /// Read at an explicit offset.  A file reads without moving the
    /// cursor; a `sign` socket treats the sentinel offset `u64::MAX` as
    /// the request to sign the message written so far, emitting the raw
    /// signature as one atomic message.
    pub fn read_vectored_at(&self, h: &Handle, bufs: &mut Vec<Vec<u8>>, offset: u64) -> (r: Result<
        u64,
        FsError,
    >)
        requires
            self.wf(),
            h.wf(*self),
        ensures
            ({
                let node = self.nodes@[h.node as int];
                let views = seq_views(old(bufs)@);
                match node.kind {
                    NodeKind::File { content } => {
                        if !h.read {
                            r == Result::<u64, FsError>::Err(FsError::Io)
                                && *final(bufs) == *old(bufs)
                        } else if offset > usize::MAX {
                            r == Result::<u64, FsError>::Err(FsError::InvalidArgument)
                                && *final(bufs) == *old(bufs)
                        } else {
                            &&& r == Result::<u64, FsError>::Ok(
                                crate::bytes::fill_total(views, content@, offset as int) as u64,
                            )
                            &&& seq_views(final(bufs)@) == crate::bytes::fill_bufs(
                                views,
                                content@,
                                offset as int,
                            )
                        }
                    },
                    NodeKind::Sign { alg, secret } => {
                        if offset != u64::MAX {
                            r == Result::<u64, FsError>::Err(FsError::InvalidArgument)
                                && *final(bufs) == *old(bufs)
                        } else {
                            match r {
                                Result::Ok(n) => exists|sig: Seq<u8>|
                                    {
                                        &&& sig.len() == n
                                        &&& crate::keyfs::sig_len_ok(alg, sig.len() as int)
                                        &&& crate::keyfs::signed_ok(alg, secret@, h.buf@, sig)
                                        &&& crate::bytes::caps(views) >= sig.len()
                                        &&& seq_views(final(bufs)@) == crate::bytes::fill_bufs(
                                            views,
                                            sig,
                                            0,
                                        )
                                    },
                                Result::Err(e) => (e == FsError::TooBig || e == FsError::Io)
                                    && *final(bufs) == *old(bufs) && (e == FsError::TooBig
                                    ==> exists|sig: Seq<u8>|
                                        #![trigger sig.len()]
                                        crate::keyfs::sig_len_ok(alg, sig.len() as int)
                                            && crate::bytes::caps(views) < sig.len()),
                            }
                        }
                    },
                    _ => r == Result::<u64, FsError>::Err(FsError::NotSupported) && *final(bufs)
                        == *old(bufs),
                }
            }),
    {
        match &self.nodes[h.node].kind {
            NodeKind::File { content } => {
                if !h.read {
                    return Result::Err(FsError::Io);
                }
                if offset > usize::MAX as u64 {
                    return Result::Err(FsError::InvalidArgument);
                }
                let total = crate::bytes::fill_from(bufs, content, offset as usize);
                proof {
                    crate::bytes::lemma_fill_total_bounds(
                        seq_views(old(bufs)@),
                        content@,
                        offset as int,
                    );
                }
                Result::Ok(total as u64)
            },
            NodeKind::Sign { alg, secret } => {
                if offset != u64::MAX {
                    return Result::Err(FsError::InvalidArgument);
                }
                let made: Option<Vec<u8>> = match alg {
                    Alg::Rs256 => crate::crypto::rsa_v15_sha256_sign(secret, &h.buf),
                    Alg::Rs384 => crate::crypto::rsa_v15_sha384_sign(secret, &h.buf),
                    Alg::Rs512 => crate::crypto::rsa_v15_sha512_sign(secret, &h.buf),
                    Alg::Ps256 => crate::crypto::rsa_pss_sha256_sign(secret, &h.buf),
                    Alg::Ps384 => crate::crypto::rsa_pss_sha384_sign(secret, &h.buf),
                    Alg::Ps512 => crate::crypto::rsa_pss_sha512_sign(secret, &h.buf),
                    Alg::Es256 => crate::crypto::p256_sign(secret, &h.buf),
                    Alg::Es384 => crate::crypto::p384_sign(secret, &h.buf),
                    Alg::Es256K => crate::crypto::k256_sign(secret, &h.buf),
                };
                let sig = match made {
                    Option::Some(s) => s,
                    Option::None => {
                        return Result::Err(FsError::Io);
                    },
                };
                if !crate::bytes::has_capacity(bufs, sig.len()) {
                    return Result::Err(FsError::TooBig);
                }
                let total = crate::bytes::fill_from(bufs, &sig, 0);
                proof {
                    crate::bytes::lemma_fill_total_value(seq_views(old(bufs)@), sig@, 0);
                }
                Result::Ok(total as u64)
            },
            _ => Result::Err(FsError::NotSupported),
        }
    }
}

/// What a trust write produces once the shape and tag are recognized:
/// the stages of validation — key decoding, RSA well-formedness, the
/// RSA minimum size in exact bits, the PSS byte-alignment restriction —
/// each with their error, then a key registered from exactly the
/// written bytes.
pub open spec fn trust_write_post(
    told: Tree,
    tnew: Tree,
    fac: int,
    alg: Alg,
    data: Seq<u8>,
    r: Result<u64, FsError>,
) -> bool {
    let rest = data.skip(4);
    match alg {
        Alg::Es256 | Alg::Es384 | Alg::Es256K => if !crate::keyfs::curve_point_ok(alg, rest) {
            r == Result::<u64, FsError>::Err(FsError::IllegalByteSequence) && tnew == told
        } else {
            trust_registered(told, tnew, fac, alg, data, r)
        },
        _ => match crate::keyfs::rsa_parse(rest) {
            Option::None => r == Result::<u64, FsError>::Err(FsError::IllegalByteSequence) && tnew
                == told,
            Option::Some((e, n)) => if !crate::crypto::rsa_key_ok(e, n) {
                r == Result::<u64, FsError>::Err(FsError::IllegalByteSequence) && tnew == told
            } else if crate::keyfs::rsa_mod_bits(n) < 2048 {
                r == Result::<u64, FsError>::Err(FsError::PermissionDenied) && tnew == told
            } else if crate::keyfs::pss_alg(alg) && crate::keyfs::rsa_mod_bits(n) % 8 == 1 {
                r == Result::<u64, FsError>::Err(FsError::IllegalByteSequence) && tnew == told
            } else {
                trust_registered(told, tnew, fac, alg, data, r)
            },
        },
    }
}

/// A validated trust request either registers the written key — the
/// share payload is the written bytes, the verify key is what they
/// parsed to — or fails with a name collision, or with the coarse I/O
/// error only when the factory's parent is not a directory; every
/// failure leaves the tree exactly as it was.
pub open spec fn trust_registered(
    told: Tree,
    tnew: Tree,
    fac: int,
    alg: Alg,
    data: Seq<u8>,
    r: Result<u64, FsError>,
) -> bool {
    match r {
        Result::Err(e) => tnew == told && (e == FsError::Exists || (e == FsError::Io
            && !told.nodes@[told.nodes@[fac].parent as int].is_dir())),
        Result::Ok(n) => n == data.len() && exists|name: Seq<u8>, key: crate::tree::KeyMaterial|
            #[trigger] factory_added(told, tnew, fac, alg, false, name, key, data)
                && crate::keyfs::trust_key_matches(alg, key, data.skip(4)),
    }
}

/// One key added by a factory write: `name` is the fresh UUID, queued
/// for readout; a key directory under the overlay maps it to `share`,
/// `verify` and — for generated keys — `sign` nodes whose payload and
/// key correspond.
pub open spec fn factory_added(
    told: Tree,
    tnew: Tree,
    fac: int,
    alg: Alg,
    with_sign: bool,
    name: Seq<u8>,
    key: crate::tree::KeyMaterial,
    payload: Seq<u8>,
) -> bool {
    let par = told.nodes@[fac].parent as int;
    &&& name.len() == 36
    &&& crate::path::valid_name(name)
    &&& tnew.nodes@.len() >= told.nodes@.len()
    &&& forall|i: int| 0 <= i < told.nodes@.len() && i != par && i != fac ==> tnew.nodes@[i]
        == told.nodes@[i]
    &&& seq_views(tnew.nodes@[fac].queue()) == seq_views(told.nodes@[fac].queue()).push(name)
    &&& tnew.nodes@[fac].entries() == told.nodes@[fac].entries()
    &&& tnew.nodes@[fac].inode == told.nodes@[fac].inode
    &&& tnew.nodes@[fac].parent == told.nodes@[fac].parent
    &&& tnew.nodes@[fac].filetype() == told.nodes@[fac].filetype()
    &&& forall|x: Seq<u8>| crate::tree::has_name(tnew.nodes@[par].entries(), x) == (x == name
        || crate::tree::has_name(told.nodes@[par].entries(), x))
    &&& !crate::tree::has_name(told.nodes@[par].entries(), name)
    &&& forall|x: Seq<u8>| x != name && crate::tree::has_name(told.nodes@[par].entries(), x)
        ==> crate::tree::lookup_name(tnew.nodes@[par].entries(), x) == crate::tree::lookup_name(
        told.nodes@[par].entries(),
        x,
    )
    &&& crate::keyfs::material_matches(alg, key, payload)
    &&& (with_sign ==> crate::keyfs::material_sized(alg, key))
    &&& crate::keyfs::key_dir_ok(
        tnew,
        crate::tree::lookup_name(tnew.nodes@[par].entries(), name) as int,
        alg,
        key,
        payload,
        with_sign,
        told.nodes@[par].inode.device,
    )
}

/// What a key-generation request produces: a fresh key directory of the
/// mandated size, or a name collision, or the coarse I/O error — the
/// latter only when the generator itself can fail (the RSA algorithms)
/// or the factory's parent is not a directory; every failure leaves the
/// tree exactly as it was.
pub open spec fn factory_write_post(
    told: Tree,
    tnew: Tree,
    fac: int,
    alg: Alg,
    with_sign: bool,
    ok_len: int,
    r: Result<u64, FsError>,
) -> bool {
    match r {
        Result::Err(e) => tnew == told && (e == FsError::Exists || (e == FsError::Io
            && (crate::keyfs::rsa_alg(alg)
                || !told.nodes@[told.nodes@[fac].parent as int].is_dir()))),
        Result::Ok(n) => n == ok_len && exists|
            name: Seq<u8>,
            key: crate::tree::KeyMaterial,
            payload: Seq<u8>,
        | #[trigger] factory_added(told, tnew, fac, alg, with_sign, name, key, payload),
    }
}

impl Tree {
    /// Write at the cursor.  A file splices the concatenated buffers in
    /// at the cursor — or at the end when the handle has `append` set,
    /// leaving the cursor alone.  A `sign` or `verify` socket appends to
    /// the running message.  A factory socket takes the write as a key
    /// request: `generate` wants exactly one four-byte tag, `trust` a
    /// tagged public key of 4 to 4096 bytes in all.
    #[verifier::rlimit(100)]
    pub fn write_vectored(&mut self, h: &mut Handle, bufs: &Vec<Vec<u8>>, now: u64) -> (r: Result<
        u64,
        FsError,
    >)
        requires
            old(self).wf(),
            old(h).wf(*old(self)),
            crate::bytes::flat(seq_views(bufs@)).len() <= usize::MAX,
            old(h).pos + crate::bytes::flat(seq_views(bufs@)).len() <= usize::MAX,
            old(self).nodes@[old(h).node as int].content().len() + crate::bytes::flat(
                seq_views(bufs@),
            ).len() <= usize::MAX,
            old(self).nodes@.len() + 4 <= usize::MAX,
        ensures
            final(self).wf(),
            final(h).wf(*final(self)),
            final(h).node == old(h).node && final(h).read == old(h).read && final(h).write == old(h).write && final(h).flags == old(h).flags,
            ({
                let node = old(self).nodes@[old(h).node as int];
                let views = seq_views(bufs@);
                let data = crate::bytes::flat(views);
                match node.kind {
                    NodeKind::File { content } => {
                        if !old(h).write {
                            r == Result::<u64, FsError>::Err(FsError::Io) && *final(self) == *old(self) && *final(h) == *old(h)
                        } else {
                            let base: int = if old(h).flags.append {
                                content@.len() as int
                            } else {
                                old(h).pos as int
                            };
                            &&& r == Result::<u64, FsError>::Ok(data.len() as u64)
                            &&& final(self).nodes@.len() == old(self).nodes@.len()
                            &&& forall|i: int| 0 <= i < old(self).nodes@.len() && i != old(h).node as int ==> final(self).nodes@[i] == old(self).nodes@[i]
                            &&& final(self).nodes@[old(h).node as int].content()
                                == crate::bytes::splice(content@, base, data)
                            &&& final(self).nodes@[old(h).node as int].kind matches NodeKind::File { .. }
                            &&& final(self).nodes@[old(h).node as int].parent == node.parent
                            &&& final(self).nodes@[old(h).node as int].inode == node.inode
                            &&& final(self).nodes@[old(h).node as int].meta == node.meta
                            &&& final(h).buf == old(h).buf
                            &&& final(h).pos == if old(h).flags.append {
                                old(h).pos as int
                            } else {
                                old(h).pos + data.len()
                            }
                        }
                    },
                    NodeKind::Sign { .. } => {
                        &&& r == Result::<u64, FsError>::Ok(data.len() as u64)
                        &&& *final(self) == *old(self)
                        &&& final(h).buf@ == old(h).buf@ + data
                        &&& final(h).pos == old(h).pos
                    },
                    NodeKind::Verify { .. } => {
                        &&& r == Result::<u64, FsError>::Ok(data.len() as u64)
                        &&& *final(self) == *old(self)
                        &&& final(h).buf@ == old(h).buf@ + data
                        &&& final(h).pos == old(h).pos
                    },
                    NodeKind::Generate { .. } => final(h).buf == old(h).buf && final(h).pos == old(
                        h,
                    ).pos && {
                        if views.len() != 1 || views[0].len() != 4 {
                            r == Result::<u64, FsError>::Err(FsError::InvalidArgument) && *final(self) == *old(self)
                        } else {
                            match crate::keyfs::tag_to_alg(views[0]) {
                                Option::None => r == Result::<u64, FsError>::Err(
                                    FsError::IllegalByteSequence,
                                ) && *final(self) == *old(self),
                                Option::Some(alg) => factory_write_post(
                                    *old(self),
                                    *final(self),
                                    old(h).node as int,
                                    alg,
                                    true,
                                    4,
                                    r,
                                ),
                            }
                        }
                    },
                    NodeKind::Trust { .. } => final(h).buf == old(h).buf && final(h).pos == old(
                        h,
                    ).pos && {
                        if crate::bytes::caps(views) < 4 || crate::bytes::caps(views) > 4096 {
                            r == Result::<u64, FsError>::Err(FsError::InvalidArgument) && *final(self) == *old(self)
                        } else {
                            match crate::keyfs::tag_to_alg(data.take(4)) {
                                Option::None => r == Result::<u64, FsError>::Err(
                                    FsError::IllegalByteSequence,
                                ) && *final(self) == *old(self),
                                Option::Some(alg) => trust_write_post(
                                    *old(self),
                                    *final(self),
                                    old(h).node as int,
                                    alg,
                                    data,
                                    r,
                                ),
                            }
                        }
                    },
                    _ => r == Result::<u64, FsError>::Err(FsError::NotSupported) && *final(self)
                        == *old(self) && *final(h) == *old(h),
                }
            }),
    {
        let ghost prev = *self;
        let ghost views = seq_views(bufs@);
        let kindsel: u8 = match &self.nodes[h.node].kind {
            NodeKind::File { .. } => 0,
            NodeKind::Sign { .. } => 1,
            NodeKind::Verify { .. } => 1,
            NodeKind::Generate { .. } => 2,
            NodeKind::Trust { .. } => 3,
            _ => 4,
        };
        if kindsel == 4 {
            return Result::Err(FsError::NotSupported);
        }
        if kindsel == 0 {
            if !h.write {
                return Result::Err(FsError::Io);
            }
            let data = crate::bytes::concat_bufs(bufs);
            let total = data.len();
            let append = h.flags.append;
            let node = &mut self.nodes[h.node];
            match &mut node.kind {
                NodeKind::File { content } => {
                    let base: usize = if append {
                        content.len()
                    } else {
                        h.pos
                    };
                    crate::bytes::splice_into(content, base, &data);
                },
                _ => {
                    proof {
                        assert(false);
                    }
                },
            }
            if !append {
                h.pos = h.pos + total;
            }
            proof {
                unchanged_except_wf(prev, *self, h.node as int);
            }
            return Result::Ok(total as u64);
        }
        if kindsel == 1 {
            let mut data = crate::bytes::concat_bufs(bufs);
            let total = data.len();
            h.buf.append(&mut data);
            return Result::Ok(total as u64);
        }
        if kindsel == 2 {
            // A key-generation request: one four-byte tag.
            if bufs.len() != 1 {
                return Result::Err(FsError::InvalidArgument);
            }
            if bufs[0].len() != 4 {
                return Result::Err(FsError::InvalidArgument);
            }
            let tag = crate::tree::copy_bytes(&bufs[0]);
            let alg = match crate::keyfs::parse_tag(&tag) {
                Option::None => {
                    return Result::Err(FsError::IllegalByteSequence);
                },
                Option::Some(a) => a,
            };
            let made: Option<(Vec<u8>, crate::tree::KeyMaterial, Vec<u8>)> = match alg {
                Alg::Rs256 => crate::keyfs::rsa_material(alg, 2048),
                Alg::Ps256 => crate::keyfs::rsa_material(alg, 2048),
                Alg::Rs384 => crate::keyfs::rsa_material(alg, 3072),
                Alg::Ps384 => crate::keyfs::rsa_material(alg, 3072),
                Alg::Rs512 => crate::keyfs::rsa_material(alg, 4096),
                Alg::Ps512 => crate::keyfs::rsa_material(alg, 4096),
                Alg::Es256 => {
                    let (sk, pk) = crate::crypto::p256_generate();
                    Option::Some(crate::keyfs::ec_material(alg, sk, pk))
                },
                Alg::Es384 => {
                    let (sk, pk) = crate::crypto::p384_generate();
                    Option::Some(crate::keyfs::ec_material(alg, sk, pk))
                },
                Alg::Es256K => {
                    let (sk, pk) = crate::crypto::k256_generate();
                    Option::Some(crate::keyfs::ec_material(alg, sk, pk))
                },
            };
            let (secret, key, payload) = match made {
                Option::None => {
                    return Result::Err(FsError::Io);
                },
                Option::Some(m) => m,
            };
            let ghost gkey = key;
            let ghost gpayload = payload@;
            let uuid = match self.key_add(h.node, true, alg, secret, key, payload, now) {
                Result::Err(e) => {
                    return Result::Err(e);
                },
                Result::Ok(u) => u,
            };
            let ghost mid = *self;
            let ghost uname = uuid@;
            let node = &mut self.nodes[h.node];
            match &mut node.kind {
                NodeKind::Generate { queue } => {
                    queue.push(uuid);
                },
                _ => {
                    proof {
                        assert(false);
                    }
                },
            }
            proof {
                unchanged_except_wf(mid, *self, h.node as int);
                assert(seq_views(self.nodes@[h.node as int].queue())
                    =~~= seq_views(prev.nodes@[h.node as int].queue()).push(uname));
                transfer_key_dir(mid, *self, h.node as int, prev, alg, true, uname, gkey,
                    gpayload);
                assert(factory_added(prev, *self, h.node as int, alg, true, uname, gkey,
                    gpayload));
            }
            return Result::Ok(4);
        }
        // A trust request: a tag followed by a public-key encoding.
        let total = match crate::bytes::total_capped(bufs, 4096) {
            Option::None => {
                return Result::Err(FsError::InvalidArgument);
            },
            Option::Some(t) => t,
        };
        if total < 4 {
            proof {
                crate::bytes::lemma_caps_nonneg(views);
            }
            return Result::Err(FsError::InvalidArgument);
        }
        proof {
            crate::bytes::lemma_flat_len(views);
        }
        let all = crate::bytes::concat_bufs(bufs);
        let mut tagv: Vec<u8> = Vec::new();
        crate::keyfs::push_range(&mut tagv, &all, 0, 4);
        proof {
            assert(tagv@ =~= all@.take(4));
        }
        let alg = match crate::keyfs::parse_tag(&tagv) {
            Option::None => {
                return Result::Err(FsError::IllegalByteSequence);
            },
            Option::Some(a) => a,
        };
        let mut rest: Vec<u8> = Vec::new();
        crate::keyfs::push_range(&mut rest, &all, 4, all.len());
        proof {
            assert(rest@ =~= all@.skip(4));
        }
        let key: crate::tree::KeyMaterial = match alg {
            Alg::Es256 => {
                if !crate::crypto::p256_point_check(&rest) {
                    return Result::Err(FsError::IllegalByteSequence);
                }
                crate::tree::KeyMaterial::Ec { point: rest }
            },
            Alg::Es384 => {
                if !crate::crypto::p384_point_check(&rest) {
                    return Result::Err(FsError::IllegalByteSequence);
                }
                crate::tree::KeyMaterial::Ec { point: rest }
            },
            Alg::Es256K => {
                if !crate::crypto::k256_point_check(&rest) {
                    return Result::Err(FsError::IllegalByteSequence);
                }
                crate::tree::KeyMaterial::Ec { point: rest }
            },
            _ => {
                let (e, n) = match crate::keyfs::parse_rsa_wire(&rest) {
                    Option::None => {
                        return Result::Err(FsError::IllegalByteSequence);
                    },
                    Option::Some(p) => p,
                };
                if !crate::crypto::rsa_key_check(&e, &n) {
                    return Result::Err(FsError::IllegalByteSequence);
                }
                proof {
                    assert(8 * n@.len() <= u64::MAX) by {
                        assert(n@.len() <= rest@.len());
                    }
                }
                let bits = crate::keyfs::mod_bits(&n);
                if bits < 2048 {
                    return Result::Err(FsError::PermissionDenied);
                }
                let is_pss = match alg {
                    Alg::Ps256 => true,
                    Alg::Ps384 => true,
                    Alg::Ps512 => true,
                    _ => false,
                };
                if is_pss && bits % 8 == 1 {
                    return Result::Err(FsError::IllegalByteSequence);
                }
                crate::tree::KeyMaterial::Rsa { e, n }
            },
        };
        let ghost gkey = key;
        proof {
            trust_material_ok(all@, alg, gkey);
        }
        let ghost gpayload = all@;
        let uuid = match self.key_add(h.node, false, alg, Vec::new(), key, all, now) {
            Result::Err(e) => {
                return Result::Err(e);
            },
            Result::Ok(u) => u,
        };
        let ghost mid = *self;
        let ghost uname = uuid@;
        let node = &mut self.nodes[h.node];
        match &mut node.kind {
            NodeKind::Trust { queue } => {
                queue.push(uuid);
            },
            _ => {
                proof {
                    assert(false);
                }
            },
        }
        proof {
            unchanged_except_wf(mid, *self, h.node as int);
            assert(seq_views(self.nodes@[h.node as int].queue())
                =~~= seq_views(prev.nodes@[h.node as int].queue()).push(uname));
            transfer_key_dir(mid, *self, h.node as int, prev, alg, false, uname, gkey, gpayload);
            assert(factory_added(prev, *self, h.node as int, alg, false, uname, gkey, gpayload));
        }
        Result::Ok(total as u64)
    }

    /// Write at an explicit offset.  A file splices at the offset and
    /// leaves the cursor alone — `append` is ignored on positional
    /// writes.  A `verify` socket treats the sentinel offset `u64::MAX`
    /// with exactly one buffer as a candidate signature over the running
    /// message: success consumes the message; a rejected or unparseable
    /// signature reports an illegal byte sequence.
    pub fn write_vectored_at(&mut self, h: &mut Handle, bufs: &Vec<Vec<u8>>, offset: u64) -> (r:
        Result<u64, FsError>)
        requires
            old(self).wf(),
            old(h).wf(*old(self)),
            crate::bytes::flat(seq_views(bufs@)).len() <= usize::MAX,
            (old(self).nodes@[old(h).node as int].kind matches NodeKind::File { .. } && offset
                <= usize::MAX) ==> offset + crate::bytes::flat(seq_views(bufs@)).len()
                <= usize::MAX,
        ensures
            final(self).wf(),
            final(h).wf(*final(self)),
            final(h).node == old(h).node && final(h).read == old(h).read && final(h).write == old(h).write && final(h).flags == old(h).flags && final(h).pos == old(h).pos,
            ({
                let node = old(self).nodes@[old(h).node as int];
                let views = seq_views(bufs@);
                let data = crate::bytes::flat(views);
                match node.kind {
                    NodeKind::File { content } => {
                        if !old(h).write {
                            r == Result::<u64, FsError>::Err(FsError::Io) && *final(self) == *old(self) && *final(h) == *old(h)
                        } else if offset > usize::MAX {
                            r == Result::<u64, FsError>::Err(FsError::InvalidArgument) && *final(self) == *old(self) && *final(h) == *old(h)
                        } else {
                            &&& r == Result::<u64, FsError>::Ok(data.len() as u64)
                            &&& final(self).nodes@.len() == old(self).nodes@.len()
                            &&& forall|i: int| 0 <= i < old(self).nodes@.len() && i != old(h).node as int ==> final(self).nodes@[i] == old(self).nodes@[i]
                            &&& final(self).nodes@[old(h).node as int].content()
                                == crate::bytes::splice(content@, offset as int, data)
                            &&& final(self).nodes@[old(h).node as int].kind matches NodeKind::File { .. }
                            &&& final(self).nodes@[old(h).node as int].parent == node.parent
                            &&& final(self).nodes@[old(h).node as int].inode == node.inode
                            &&& final(self).nodes@[old(h).node as int].meta == node.meta
                            &&& final(h).buf == old(h).buf
                        }
                    },
                    NodeKind::Verify { alg, key } => *final(self) == *old(self) && {
                        if offset != u64::MAX {
                            r == Result::<u64, FsError>::Err(FsError::InvalidArgument) && *final(h) == *old(h)
                        } else if views.len() != 1 {
                            r == Result::<u64, FsError>::Err(FsError::InvalidArgument) && *final(h) == *old(h)
                        } else if !crate::keyfs::key_fits(alg, key) {
                            r == Result::<u64, FsError>::Err(FsError::Io) && *final(h) == *old(h)
                        } else if !crate::keyfs::sig_parses(alg, views[0]) {
                            r == Result::<u64, FsError>::Err(FsError::IllegalByteSequence)
                                && *final(h) == *old(h)
                        } else if crate::keyfs::accepts(alg, key, old(h).buf@, views[0]) {
                            r == Result::<u64, FsError>::Ok(views[0].len() as u64) && final(h).buf@.len() == 0
                        } else {
                            r == Result::<u64, FsError>::Err(FsError::IllegalByteSequence)
                                && *final(h) == *old(h)
                        }
                    },
                    _ => r == Result::<u64, FsError>::Err(FsError::NotSupported) && *final(self)
                        == *old(self) && *final(h) == *old(h),
                }
            }),
    {
        let ghost prev = *self;
        let kindsel: u8 = match &self.nodes[h.node].kind {
            NodeKind::File { .. } => 0,
            NodeKind::Verify { .. } => 1,
            _ => 2,
        };
        if kindsel == 2 {
            return Result::Err(FsError::NotSupported);
        }
        if kindsel == 0 {
            if !h.write {
                return Result::Err(FsError::Io);
            }
            if offset > usize::MAX as u64 {
                return Result::Err(FsError::InvalidArgument);
            }
            let data = crate::bytes::concat_bufs(bufs);
            let total = data.len();
            let node = &mut self.nodes[h.node];
            match &mut node.kind {
                NodeKind::File { content } => {
                    crate::bytes::splice_into(content, offset as usize, &data);
                },
                _ => {
                    proof {
                        assert(false);
                    }
                },
            }
            proof {
                unchanged_except_wf(prev, *self, h.node as int);
            }
            return Result::Ok(total as u64);
        }
        if offset != u64::MAX {
            return Result::Err(FsError::InvalidArgument);
        }
        if bufs.len() != 1 {
            return Result::Err(FsError::InvalidArgument);
        }
        let sig = &bufs[0];
        let verdict: Option<bool> = match &self.nodes[h.node].kind {
            NodeKind::Verify { alg, key } => match (alg, key) {
                (Alg::Es256, crate::tree::KeyMaterial::Ec { point }) => crate::crypto::p256_verify(
                    point,
                    &h.buf,
                    sig,
                ),
                (Alg::Es384, crate::tree::KeyMaterial::Ec { point }) => crate::crypto::p384_verify(
                    point,
                    &h.buf,
                    sig,
                ),
                (Alg::Es256K, crate::tree::KeyMaterial::Ec { point }) => crate::crypto::k256_verify(
                    point,
                    &h.buf,
                    sig,
                ),
                (Alg::Rs256, crate::tree::KeyMaterial::Rsa { e, n }) => Option::Some(
                    crate::crypto::rsa_v15_sha256_verify(e, n, &h.buf, sig),
                ),
                (Alg::Rs384, crate::tree::KeyMaterial::Rsa { e, n }) => Option::Some(
                    crate::crypto::rsa_v15_sha384_verify(e, n, &h.buf, sig),
                ),
                (Alg::Rs512, crate::tree::KeyMaterial::Rsa { e, n }) => Option::Some(
                    crate::crypto::rsa_v15_sha512_verify(e, n, &h.buf, sig),
                ),
                (Alg::Ps256, crate::tree::KeyMaterial::Rsa { e, n }) => Option::Some(
                    crate::crypto::rsa_pss_sha256_verify(e, n, &h.buf, sig),
                ),
                (Alg::Ps384, crate::tree::KeyMaterial::Rsa { e, n }) => Option::Some(
                    crate::crypto::rsa_pss_sha384_verify(e, n, &h.buf, sig),
                ),
                (Alg::Ps512, crate::tree::KeyMaterial::Rsa { e, n }) => Option::Some(
                    crate::crypto::rsa_pss_sha512_verify(e, n, &h.buf, sig),
                ),
                _ => {
                    return Result::Err(FsError::Io);
                },
            },
            _ => {
                proof {
                    assert(false);
                }
                Option::None
            },
        };
        match verdict {
            Option::None => Result::Err(FsError::IllegalByteSequence),
            Option::Some(true) => {
                let n = sig.len();
                h.buf = Vec::new();
                Result::Ok(n as u64)
            },
            Option::Some(false) => Result::Err(FsError::IllegalByteSequence),
        }
    }
}

/// For a trusted payload, the stored key corresponds to the payload: the
/// tag parsed back to the algorithm, and the remainder is the key's wire
/// encoding.
proof fn trust_material_ok(all: Seq<u8>, alg: Alg, key: crate::tree::KeyMaterial)
    requires
        all.len() >= 4,
        crate::keyfs::tag_to_alg(all.take(4)) == Option::Some(alg),
        match key {
            crate::tree::KeyMaterial::Ec { point } => point@ == all.skip(4),
            crate::tree::KeyMaterial::Rsa { e, n } => crate::keyfs::rsa_parse(all.skip(4))
                == Option::Some((e@, n@)),
        },
    ensures
        crate::keyfs::material_matches(alg, key, all),
{
    assert(all.take(4) =~= crate::keyfs::tag_of(alg));
    match key {
        crate::tree::KeyMaterial::Ec { point } => {
            assert(all =~= crate::keyfs::tag_of(alg) + point@);
        },
        crate::tree::KeyMaterial::Rsa { e, n } => {
            let rest = all.skip(4);
            crate::keyfs::lemma_rsa_parse_shape(rest, e@, n@);
            assert(all =~= crate::keyfs::tag_of(alg) + crate::keyfs::rsa_wire(e@, n@));
        },
    }
}

/// The key-directory facts survive a queue push on the factory node.
proof fn transfer_key_dir(
    mid: Tree,
    t: Tree,
    fac: int,
    prev: Tree,
    alg: Alg,
    with_sign: bool,
    name: Seq<u8>,
    key: crate::tree::KeyMaterial,
    payload: Seq<u8>,
)
    requires
        0 <= fac < prev.nodes@.len(),
        prev.nodes@[fac].parent < prev.nodes@.len(),
        prev.nodes@.len() <= mid.nodes@.len(),
        (mid.nodes@[fac].kind matches NodeKind::Generate { .. }) || (mid.nodes@[fac].kind
            matches NodeKind::Trust { .. }),
        t.nodes@.len() == mid.nodes@.len(),
        forall|i: int| 0 <= i < mid.nodes@.len() && i != fac ==> t.nodes@[i] == mid.nodes@[i],
        t.nodes@[fac].entries() == mid.nodes@[fac].entries(),
        prev.nodes@[fac].parent != fac,
        crate::keyfs::key_dir_ok(
            mid,
            crate::tree::lookup_name(
                mid.nodes@[prev.nodes@[fac].parent as int].entries(),
                name,
            ) as int,
            alg,
            key,
            payload,
            with_sign,
            prev.nodes@[prev.nodes@[fac].parent as int].inode.device,
        ),
    ensures
        crate::keyfs::key_dir_ok(
            t,
            crate::tree::lookup_name(
                t.nodes@[prev.nodes@[fac].parent as int].entries(),
                name,
            ) as int,
            alg,
            key,
            payload,
            with_sign,
            prev.nodes@[prev.nodes@[fac].parent as int].inode.device,
        ),
{
    let par = prev.nodes@[fac].parent as int;
    assert(par != fac);
    assert(t.nodes@[par] == mid.nodes@[par]);
    let kdir = crate::tree::lookup_name(mid.nodes@[par].entries(), name) as int;
    assert(mid.nodes@[kdir].is_dir());
    assert(kdir != fac);
    assert(t.nodes@[kdir] == mid.nodes@[kdir]);
    let s = crate::tree::lookup_name(mid.nodes@[kdir].entries(),
        crate::keyfs::share_name()) as int;
    let v = crate::tree::lookup_name(mid.nodes@[kdir].entries(),
        crate::keyfs::verify_name()) as int;
    assert(s != fac);
    assert(t.nodes@[s] == mid.nodes@[s]);
    assert(v != fac);
    assert(t.nodes@[v] == mid.nodes@[v]);
    if with_sign {
        let g = crate::tree::lookup_name(mid.nodes@[kdir].entries(),
            crate::keyfs::sign_name()) as int;
        assert(g != fac);
        assert(t.nodes@[g] == mid.nodes@[g]);
    }
}

/// What a factory read does: nothing on an empty queue but report
/// `WouldBlock`; with a queued name, deliver it whole and dequeue it, or
/// report `TooBig` leaving the queue as it was.
pub open spec fn factory_read_post(
    told: Tree,
    tnew: Tree,
    n: int,
    queue: Seq<Vec<u8>>,
    views: Seq<Seq<u8>>,
    bufs_new: Seq<Vec<u8>>,
    bufs_old: Seq<Vec<u8>>,
    r: Result<u64, FsError>,
) -> bool {
    if queue.len() == 0 {
        r == Result::<u64, FsError>::Err(FsError::WouldBlock) && tnew == told && bufs_new
            == bufs_old
    } else {
        let name = queue.last()@;
        if crate::bytes::caps(views) < name.len() {
            r == Result::<u64, FsError>::Err(FsError::TooBig) && tnew == told && bufs_new
                == bufs_old
        } else {
            &&& r == Result::<u64, FsError>::Ok(name.len() as u64)
            &&& seq_views(bufs_new) == crate::bytes::fill_bufs(views, name, 0)
            &&& tnew.nodes@.len() == told.nodes@.len()
            &&& forall|i: int| 0 <= i < told.nodes@.len() && i != n ==> tnew.nodes@[i]
                == told.nodes@[i]
            &&& tnew.nodes@[n].queue() == queue.drop_last()
            &&& tnew.nodes@[n].entries() == told.nodes@[n].entries()
            &&& tnew.nodes@[n].parent == told.nodes@[n].parent
            &&& tnew.nodes@[n].inode == told.nodes@[n].inode
            &&& tnew.nodes@[n].filetype() == told.nodes@[n].filetype()
        }
    }
}

} // verus!
