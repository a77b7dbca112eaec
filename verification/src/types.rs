//! Error kinds, file types, open flags and metadata records shared by the
//! filesystem tree and its open handles.

use vstd::prelude::*;

verus! {

/// The error taxonomy surfaced at the filesystem boundary.
#[derive(PartialEq, Eq, Structural, Clone, Copy, Debug)]
pub enum FsError {
    /// A lookup failed on a final segment.
    NotFound,
    /// A name collision on create or an exclusive open.
    Exists,
    /// A directory-style operation on a non-directory.
    NotDir,
    /// An advertised unsupported operation.
    NotSupported,
    /// A malformed path, reserved name, bad flag combination or
    /// wrong-shaped keystore write.
    InvalidArgument,
    /// A role-inappropriate open of a keystore pseudo-file, or an RSA key
    /// below the minimum size.
    PermissionDenied,
    /// An empty factory read queue.
    WouldBlock,
    /// An atomic message does not fit the offered buffers.
    TooBig,
    /// A malformed public-key encoding, or a failed signature check.
    IllegalByteSequence,
    /// The coarse fallback for cross-device and non-empty-directory
    /// rejections.
    Io,
}

/// The file-type tag of a tree node.
#[derive(PartialEq, Eq, Structural, Clone, Copy, Debug)]
pub enum FileType {
    Directory,
    RegularFile,
    /// A datagram-like pseudo-file: reads and writes carry whole messages.
    SocketDgram,
}

/// Open flags accepted by `open_file`.
#[derive(PartialEq, Eq, Structural, Clone, Copy, Debug)]
pub struct OFlags {
    pub create: bool,
    pub directory: bool,
    pub exclusive: bool,
    pub truncate: bool,
}

impl OFlags {
    /// Exactly the eight accepted flag combinations: `exclusive` only
    /// together with `create`, and `truncate` with neither `directory`
    /// nor `exclusive`.
    pub open spec fn valid(self) -> bool {
        (self.exclusive ==> self.create) && (self.truncate ==> !self.directory
            && !self.exclusive)
    }

    pub fn empty() -> (r: OFlags)
        ensures
            r == (OFlags { create: false, directory: false, exclusive: false, truncate: false }),
    {
        OFlags { create: false, directory: false, exclusive: false, truncate: false }
    }
}

/// Per-open file descriptor flags; only `append` is interpreted.
#[derive(PartialEq, Eq, Structural, Clone, Copy, Debug)]
pub struct FdFlags {
    pub append: bool,
}

impl FdFlags {
    pub open spec fn is_empty(self) -> bool {
        self == (FdFlags { append: false })
    }

    pub fn empty() -> (r: FdFlags)
        ensures
            r == (FdFlags { append: false }),
    {
        FdFlags { append: false }
    }
}

/// A timestamp request: the current wall time, or an absolute time.
#[derive(PartialEq, Eq, Structural, Clone, Copy, Debug)]
pub enum TimeSpec {
    /// Resolved to the wall time the caller passes alongside the request,
    /// shared between the access and modification stamps.
    Now,
    Absolute(u64),
}

/// What a timestamp request resolves to against the wall time `now`.
pub open spec fn resolve_time(t: Option<TimeSpec>, prev: u64, now: u64) -> u64 {
    match t {
        Option::None => prev,
        Option::Some(TimeSpec::Now) => now,
        Option::Some(TimeSpec::Absolute(v)) => v,
    }
}

/// Creation, access and modification timestamps of a tree node.
#[derive(PartialEq, Eq, Structural, Clone, Copy, Debug)]
pub struct Meta {
    pub ctime: u64,
    pub atime: u64,
    pub mtime: u64,
}

impl Meta {
    /// All three stamps equal to `now`.
    pub open spec fn now_spec(now: u64) -> Meta {
        Meta { ctime: now, atime: now, mtime: now }
    }

    /// All three stamps set to the same instant.
    pub fn now(now: u64) -> (r: Meta)
        ensures
            r == Meta::now_spec(now),
    {
        Meta { ctime: now, atime: now, mtime: now }
    }

    /// Update the access and modification stamps as requested; `Now`
    /// resolves to `now` for both.
    pub fn set_times(&mut self, atime: Option<TimeSpec>, mtime: Option<TimeSpec>, now: u64)
        ensures
            final(self).ctime == old(self).ctime,
            final(self).atime == resolve_time(atime, old(self).atime, now),
            final(self).mtime == resolve_time(mtime, old(self).mtime, now),
    {
        match atime {
            Option::None => {},
            Option::Some(TimeSpec::Now) => {
                self.atime = now;
            },
            Option::Some(TimeSpec::Absolute(v)) => {
                self.atime = v;
            },
        }
        match mtime {
            Option::None => {},
            Option::Some(TimeSpec::Now) => {
                self.mtime = now;
            },
            Option::Some(TimeSpec::Absolute(v)) => {
                self.mtime = v;
            },
        }
    }
}

/// The observable metadata of a node.
#[derive(PartialEq, Eq, Structural, Clone, Copy, Debug)]
pub struct Filestat {
    pub device_id: u64,
    pub inode: u64,
    pub filetype: FileType,
    /// An opaque nonzero proxy for the number of references.
    pub nlink: u64,
    pub size: u64,
    pub atim: u64,
    pub mtim: u64,
    pub ctim: u64,
}

/// One entry yielded by `readdir`, with the cursor that resumes after it.
#[derive(Debug)]
pub struct DirEntry {
    pub name: Vec<u8>,
    pub next: u64,
    pub inode: u64,
    pub filetype: FileType,
}

/// The origin of a seek request.
#[derive(PartialEq, Eq, Structural, Clone, Copy, Debug)]
pub enum SeekFrom {
    Start(u64),
    Current(i64),
    End(i64),
}

} // verus!
