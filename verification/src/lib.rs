//! An in-process virtual filesystem with a POSIX-ish directory/file
//! interface: a ledger of device and inode identifiers, a tree of
//! directories, regular files and datagram-like pseudo-files, path
//! resolution, vectored byte I/O, and a cryptographic keystore overlay
//! that exposes key generation, signing and verification as files.

pub mod bytes;
pub mod crypto;
pub mod dirops;
pub mod handle;
pub mod keyfs;
pub mod ledger;
pub mod path;
pub mod tree;
pub mod types;
