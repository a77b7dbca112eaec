//! Regular-file byte I/O: round trips, positional access, append,
//! truncation and the cursor.

use memfs::handle::Handle;
use memfs::tree::Tree;
use memfs::types::{FdFlags, FsError, OFlags, SeekFrom};

fn no_flags() -> FdFlags {
    FdFlags { append: false }
}

fn plain() -> OFlags {
    OFlags { create: false, directory: false, exclusive: false, truncate: false }
}

fn root_handle(t: &Tree) -> Handle {
    t.open_node(0, false, false, false, no_flags()).unwrap()
}

/// A tree with one empty file `f` under the root.
fn tree_with_file() -> Tree {
    let mut t = Tree::root(false, 0);
    let f = t.new_file(0, Vec::new(), 0);
    t.attach(0, "f", f).unwrap();
    t
}

fn open_rw(t: &mut Tree, path: &str) -> Handle {
    let rh = root_handle(t);
    t.open_file(&rh, false, path, plain(), true, true, no_flags(), 0).unwrap()
}

#[test]
fn file_round_trip() {
    // Writing B and reading it back through matching buffers yields B
    // and leaves the cursor at its length, for several splits.
    let b: Vec<u8> = (0u8..23).collect();
    let splits: [&[usize]; 4] = [&[23], &[1, 22], &[10, 10, 3], &[5, 0, 18]];
    for split in splits.iter() {
        let mut t = tree_with_file();
        let mut h = open_rw(&mut t, "f");
        let n = t.write_vectored(&mut h, &vec![b.clone()], 0).unwrap();
        assert_eq!(n, 23);
        assert_eq!(h.pos, 23);
        // Reopen to reset the cursor.
        let mut h = open_rw(&mut t, "f");
        let mut bufs: Vec<Vec<u8>> = split.iter().map(|s| vec![0u8; *s]).collect();
        let n = t.read_vectored(&mut h, &mut bufs).unwrap();
        assert_eq!(n, 23);
        assert_eq!(h.pos, 23);
        let flat: Vec<u8> = bufs.concat();
        assert_eq!(flat, b);
    }
}

#[test]
fn read_at_ignores_cursor() {
    let b: Vec<u8> = (0u8..16).collect();
    let mut t = tree_with_file();
    let mut h = open_rw(&mut t, "f");
    t.write_vectored(&mut h, &vec![b.clone()], 0).unwrap();
    for k in 0..=16usize {
        let mut bufs = vec![vec![0u8; 16 - k]];
        let n = t.read_vectored_at(&h, &mut bufs, k as u64).unwrap();
        assert_eq!(n as usize, 16 - k);
        assert_eq!(&bufs[0][..], &b[k..]);
        // The cursor did not move.
        assert_eq!(h.pos, 16);
    }
    // Reading past the end yields nothing.
    let mut bufs = vec![vec![9u8; 4]];
    let n = t.read_vectored_at(&h, &mut bufs, 99).unwrap();
    assert_eq!(n, 0);
    assert_eq!(bufs[0], vec![9u8; 4]);
}

#[test]
fn append_concatenates() {
    // Writes with APPEND set land at the end regardless of the cursor.
    let mut t = tree_with_file();
    let rh = root_handle(&t);
    let mut h = t
        .open_file(&rh, false, "f", plain(), true, true, FdFlags { append: true }, 0)
        .unwrap();
    t.write_vectored(&mut h, &vec![b"one".to_vec()], 0).unwrap();
    // Move the cursor somewhere else; append must ignore it.
    t.seek(&mut h, SeekFrom::Start(1)).unwrap();
    t.write_vectored(&mut h, &vec![b"two".to_vec(), b"three".to_vec()], 0).unwrap();
    let mut check = open_rw(&mut t, "f");
    let mut bufs = vec![vec![0u8; 16]];
    let n = t.read_vectored(&mut check, &mut bufs).unwrap();
    assert_eq!(n, 11);
    assert_eq!(&bufs[0][..11], b"onetwothree");
    // The appending cursor itself did not move.
    assert_eq!(h.pos, 1);
}

#[test]
fn write_at_and_zero_fill() {
    let mut t = tree_with_file();
    let mut h = open_rw(&mut t, "f");
    // A positional write past the end zero-fills the gap.
    let n = t.write_vectored_at(&mut h, &vec![b"xy".to_vec()], 4).unwrap();
    assert_eq!(n, 2);
    assert_eq!(h.pos, 0);
    let mut bufs = vec![vec![7u8; 6]];
    let n = t.read_vectored_at(&h, &mut bufs, 0).unwrap();
    assert_eq!(n, 6);
    assert_eq!(bufs[0], vec![0, 0, 0, 0, b'x', b'y']);
}

#[test]
fn truncate_without_write() {
    let mut t = tree_with_file();
    let mut h = open_rw(&mut t, "f");
    t.write_vectored(&mut h, &vec![b"abc".to_vec()], 0).unwrap();
    let rh = root_handle(&t);
    let r = t.open_file(
        &rh,
        false,
        "f",
        OFlags { create: false, directory: false, exclusive: false, truncate: true },
        true,
        false,
        no_flags(),
        0,
    );
    assert_eq!(r.unwrap_err(), FsError::InvalidArgument);
    // The content is untouched.
    let mut bufs = vec![vec![0u8; 8]];
    let check = open_rw(&mut t, "f");
    let n = t.read_vectored_at(&check, &mut bufs, 0).unwrap();
    assert_eq!(n, 3);
}

#[test]
fn truncate_open_empties() {
    let mut t = tree_with_file();
    let mut h = open_rw(&mut t, "f");
    t.write_vectored(&mut h, &vec![b"abcdef".to_vec()], 0).unwrap();
    let rh = root_handle(&t);
    let h2 = t
        .open_file(
            &rh,
            false,
            "f",
            OFlags { create: false, directory: false, exclusive: false, truncate: true },
            true,
            true,
            no_flags(),
            0,
        )
        .unwrap();
    // The returned handle is write-only.
    assert!(!h2.read);
    assert!(h2.write);
    let st = t.get_filestat(&h2).unwrap();
    assert_eq!(st.size, 0);
}

#[test]
fn seek_semantics() {
    let mut t = tree_with_file();
    let mut h = open_rw(&mut t, "f");
    t.write_vectored(&mut h, &vec![vec![1u8; 10]], 0).unwrap();
    assert_eq!(t.seek(&mut h, SeekFrom::Start(4)).unwrap(), 4);
    assert_eq!(t.seek(&mut h, SeekFrom::Current(3)).unwrap(), 7);
    assert_eq!(t.seek(&mut h, SeekFrom::Current(-6)).unwrap(), 1);
    assert_eq!(t.seek(&mut h, SeekFrom::End(-2)).unwrap(), 8);
    assert_eq!(t.seek(&mut h, SeekFrom::End(5)).unwrap(), 15);
    // A negative resulting position is invalid.
    assert_eq!(t.seek(&mut h, SeekFrom::Current(-100)).unwrap_err(), FsError::InvalidArgument);
}

#[test]
fn cursor_and_ready_bytes() {
    let mut t = tree_with_file();
    let mut h = open_rw(&mut t, "f");
    t.write_vectored(&mut h, &vec![vec![5u8; 8]], 0).unwrap();
    t.seek(&mut h, SeekFrom::Start(3)).unwrap();
    assert_eq!(t.num_ready_bytes(&h).unwrap(), 5);
    let mut peeked = vec![0u8; 2];
    // Reads advance the cursor; peeking through a positional read does
    // not.
    let mut bufs = vec![vec![0u8; 2]];
    t.read_vectored(&mut h, &mut bufs).unwrap();
    assert_eq!(h.pos, 5);
    let n = t.read_vectored_at(&h, &mut vec![std::mem::take(&mut peeked)], 5).unwrap();
    assert_eq!(n, 2);
    assert_eq!(h.pos, 5);
}

#[test]
fn peek_leaves_cursor() {
    let mut t = tree_with_file();
    let mut h = open_rw(&mut t, "f");
    t.write_vectored(&mut h, &vec![b"abcdef".to_vec()], 0).unwrap();
    t.seek(&mut h, SeekFrom::Start(2)).unwrap();
    let mut buf = vec![0u8; 3];
    let n = t.peek(&h, &mut buf).unwrap();
    assert_eq!(n, 3);
    assert_eq!(buf, b"cde");
    assert_eq!(h.pos, 2);
    // A short tail peeks only what is there, leaving the rest alone.
    t.seek(&mut h, SeekFrom::Start(5)).unwrap();
    let mut buf = vec![9u8; 3];
    let n = t.peek(&h, &mut buf).unwrap();
    assert_eq!(n, 1);
    assert_eq!(buf, vec![b'f', 9, 9]);
}

#[test]
fn permissions_and_resize() {
    let mut t = tree_with_file();
    let rh = root_handle(&t);
    // A read-only handle cannot write; a write-only one cannot read.
    let mut ro = t.open_file(&rh, false, "f", plain(), true, false, no_flags(), 0).unwrap();
    assert_eq!(
        t.write_vectored(&mut ro, &vec![b"x".to_vec()], 0).unwrap_err(),
        FsError::Io
    );
    let mut wo = t.open_file(&rh, false, "f", plain(), false, true, no_flags(), 0).unwrap();
    let mut bufs = vec![vec![0u8; 1]];
    assert_eq!(t.read_vectored(&mut wo, &mut bufs).unwrap_err(), FsError::Io);
    // Resizing zero-fills growth and truncates shrinkage.
    t.set_filestat_size(&wo, 5).unwrap();
    let st = t.get_filestat(&wo).unwrap();
    assert_eq!(st.size, 5);
    assert_eq!(t.set_filestat_size(&ro, 1).unwrap_err(), FsError::Io);
    // Flag access needs a file handle; the advisory calls succeed.
    assert_eq!(t.get_fdflags(&ro).unwrap(), no_flags());
    t.advise(&wo, 0, 5).unwrap();
    t.allocate(&wo, 0, 5).unwrap();
    t.datasync(&wo).unwrap();
    t.sync(&wo).unwrap();
    t.readable(&ro).unwrap();
    t.writable(&wo).unwrap();
}
