//! The directory tree: building, listing, path resolution, removal and
//! the open-flag state machine.

use memfs::handle::Handle;
use memfs::tree::Tree;
use memfs::types::{FdFlags, FileType, FsError, OFlags, TimeSpec};

fn no_flags() -> FdFlags {
    FdFlags { append: false }
}

fn of(create: bool, directory: bool, exclusive: bool, truncate: bool) -> OFlags {
    OFlags { create, directory, exclusive, truncate }
}

fn root_handle(t: &Tree) -> Handle {
    t.open_node(0, false, false, false, no_flags()).unwrap()
}

/// The tree of the end-to-end scenario: directories under the root, byte
/// files below them.
fn build_tree() -> Tree {
    let files: [(&str, Option<&[u8]>); 8] = [
        ("/foo", None),
        ("/foo/bar", Some(b"abc")),
        ("/foo/baz", Some(b"abc")),
        ("/foo/bat", None),
        ("/foo/bat/qux", Some(b"abc")),
        ("/ack", None),
        ("/ack/act", Some(b"abc")),
        ("/zip", Some(b"abc")),
    ];
    let mut t = Tree::root(false, 0);
    for (path, data) in files.iter() {
        let (dir, _) = path.rsplit_once('/').unwrap();
        let parent = t.get(0, dir).unwrap();
        let child = match data {
            Some(data) => t.new_file(parent, data.to_vec(), 0),
            None => t.new_dir(parent, true, 0),
        };
        t.attach(0, path, child).unwrap();
    }
    t
}

#[test]
fn lib_test() {
    let mut t = build_tree();
    let rh = root_handle(&t);

    let top = t.readdir(&rh, 0).unwrap();
    assert_eq!(top[0].name, b".");
    assert_eq!(top[0].filetype, FileType::Directory);
    assert_eq!(top[0].inode, 0);

    assert_eq!(top[1].name, b"..");
    assert_eq!(top[1].filetype, FileType::Directory);
    assert_eq!(top[1].inode, 0);

    assert_eq!(top[2].name, b"ack");
    assert_eq!(top[2].filetype, FileType::Directory);
    assert_eq!(top[2].inode, 6);

    assert_eq!(top[3].name, b"foo");
    assert_eq!(top[3].filetype, FileType::Directory);
    assert_eq!(top[3].inode, 1);

    assert_eq!(top[4].name, b"zip");
    assert_eq!(top[4].filetype, FileType::RegularFile);
    assert_eq!(top[4].inode, 8);

    let fh = t.open_dir(&rh, false, "foo").unwrap();
    let foo = t.readdir(&fh, 0).unwrap();

    assert_eq!(foo[0].name, b".");
    assert_eq!(foo[0].filetype, FileType::Directory);
    assert_eq!(foo[0].inode, 1);

    assert_eq!(foo[1].name, b"..");
    assert_eq!(foo[1].filetype, FileType::Directory);
    assert_eq!(foo[1].inode, 0);

    assert_eq!(foo[2].name, b"bar");
    assert_eq!(foo[2].filetype, FileType::RegularFile);
    assert_eq!(foo[2].inode, 2);

    assert_eq!(foo[3].name, b"bat");
    assert_eq!(foo[3].filetype, FileType::Directory);
    assert_eq!(foo[3].inode, 4);

    assert_eq!(foo[4].name, b"baz");
    assert_eq!(foo[4].filetype, FileType::RegularFile);
    assert_eq!(foo[4].inode, 3);

    let mut qux = t
        .open_file(&rh, false, "foo/bat/qux", of(false, false, false, false), true, false,
            no_flags(), 0)
        .unwrap();
    let mut bufs = vec![vec![0u8; 3]];
    let len = t.read_vectored(&mut qux, &mut bufs).unwrap();
    assert_eq!(len, 3);
    assert_eq!(&bufs[0], b"abc");
}

#[test]
fn path_normalization() {
    let t = build_tree();
    // A trailing separator changes nothing.
    assert_eq!(t.get(0, "foo/bat"), t.get(0, "foo/bat/"));
    assert_eq!(t.get(0, "foo/bar"), t.get(0, "foo/bar/"));
    // `.` is the node itself; `.` segments are skipped.
    assert_eq!(t.get(0, "."), Ok(0));
    assert_eq!(t.get(0, "foo/./bat"), t.get(0, "foo/bat"));
    assert_eq!(t.get(0, "foo//bat"), t.get(0, "foo/bat"));
    // `a/..` comes back to the start when `a` is a child.
    assert_eq!(t.get(0, "foo/.."), Ok(0));
    let foo = t.get(0, "foo").unwrap();
    assert_eq!(t.get(foo, "bat/.."), Ok(foo));
    // A missing segment is reported, and ascending out of a file is
    // not a directory operation.
    assert_eq!(t.get(0, "quux/.."), Err(FsError::NotFound));
    assert_eq!(t.get(0, "zip/.."), Err(FsError::NotDir));
}

#[test]
fn root_parent_is_itself() {
    let t = build_tree();
    assert_eq!(t.get(0, ".."), Ok(0));
    assert_eq!(t.get(0, "../.."), Ok(0));
    assert_eq!(t.get(0, "../foo"), t.get(0, "foo"));
}

#[test]
fn readdir_stability() {
    let t = build_tree();
    let rh = root_handle(&t);
    let a = t.readdir(&rh, 0).unwrap();
    let b = t.readdir(&rh, 0).unwrap();
    assert_eq!(a.len(), b.len());
    for i in 0..a.len() {
        assert_eq!(a[i].name, b[i].name);
        assert_eq!(a[i].next, b[i].next);
        assert_eq!(a[i].inode, b[i].inode);
    }
    // readdir(k) equals readdir(0) with the first k entries dropped.
    for k in 0..=a.len() {
        let c = t.readdir(&rh, k as u64).unwrap();
        assert_eq!(c.len(), a.len() - k);
        for i in 0..c.len() {
            assert_eq!(c[i].name, a[k + i].name);
            assert_eq!(c[i].next, a[k + i].next);
        }
    }
}

#[test]
fn open_flag_acceptance() {
    // Exactly the eight combinations succeed; all others are invalid.
    let accepted = [
        (false, false, false, false),
        (true, false, false, false),
        (false, true, false, false),
        (false, false, false, true),
        (true, true, false, false),
        (true, false, true, false),
        (true, false, false, true),
        (true, true, true, false),
    ];
    for c in [false, true] {
        for d in [false, true] {
            for e in [false, true] {
                for tr in [false, true] {
                    let mut t = build_tree();
                    let rh = root_handle(&t);
                    let r = t.open_file(&rh, false, "zip", of(c, d, e, tr), true, true,
                        no_flags(), 0);
                    let expect_valid = accepted.contains(&(c, d, e, tr));
                    if !expect_valid {
                        assert_eq!(r.unwrap_err(), FsError::InvalidArgument);
                    } else if e {
                        // zip exists, so an exclusive create collides.
                        assert_eq!(r.unwrap_err(), FsError::Exists);
                    } else if d {
                        // zip is a regular file, not a directory.
                        assert_eq!(r.unwrap_err(), FsError::NotDir);
                    } else {
                        assert!(r.is_ok());
                    }
                }
            }
        }
    }
    // Truncation demands write permission.
    let mut t = build_tree();
    let rh = root_handle(&t);
    let r = t.open_file(&rh, false, "zip", of(false, false, false, true), true, false,
        no_flags(), 0);
    assert_eq!(r.unwrap_err(), FsError::InvalidArgument);
}

#[test]
fn create_exclusive_collision() {
    let mut t = build_tree();
    let rh = root_handle(&t);
    let r = t.open_file(&rh, false, "foo/bar", of(true, false, true, false), true, true,
        no_flags(), 0);
    assert_eq!(r.unwrap_err(), FsError::Exists);
    // The content is unchanged.
    let mut h = t
        .open_file(&rh, false, "foo/bar", of(false, false, false, false), true, false,
            no_flags(), 0)
        .unwrap();
    let mut bufs = vec![vec![0u8; 8]];
    let n = t.read_vectored(&mut h, &mut bufs).unwrap();
    assert_eq!(n, 3);
    assert_eq!(&bufs[0][..3], b"abc");
}

#[test]
fn create_dir_and_implicit_file() {
    let mut t = build_tree();
    let rh = root_handle(&t);
    t.create_dir(&rh, "nest", 0).unwrap();
    assert_eq!(t.create_dir(&rh, "nest", 0).unwrap_err(), FsError::Exists);
    assert_eq!(t.create_dir(&rh, ".", 0).unwrap_err(), FsError::InvalidArgument);
    // The root carries no implicit-file policy, so creating a missing
    // file there is not supported ...
    let r = t.open_file(&rh, false, "fresh", of(true, false, false, false), true, true,
        no_flags(), 0);
    assert_eq!(r.unwrap_err(), FsError::NotSupported);
    // ... but `foo` was built with one.
    let mut h = t
        .open_file(&rh, false, "foo/fresh", of(true, false, false, false), true, true,
            no_flags(), 0)
        .unwrap();
    let n = t.write_vectored(&mut h, &vec![b"xyz".to_vec()], 0).unwrap();
    assert_eq!(n, 3);
    assert_eq!(t.get(0, "foo/fresh").is_ok(), true);
}

#[test]
fn remove_dir_rules() {
    let mut t = build_tree();
    let rh = root_handle(&t);
    // Non-empty directories are refused.
    assert_eq!(t.remove_dir(&rh, "foo").unwrap_err(), FsError::Io);
    // Non-directories are refused.
    assert_eq!(t.remove_dir(&rh, "zip").unwrap_err(), FsError::NotDir);
    // Missing names are not found.
    assert_eq!(t.remove_dir(&rh, "quux").unwrap_err(), FsError::NotFound);
    // Reserved names are invalid.
    assert_eq!(t.remove_dir(&rh, "..").unwrap_err(), FsError::InvalidArgument);
    // An empty directory goes away.
    t.create_dir(&rh, "hollow", 0).unwrap();
    t.remove_dir(&rh, "hollow").unwrap();
    assert_eq!(t.get(0, "hollow").unwrap_err(), FsError::NotFound);
}

#[test]
fn unlink_file_rules() {
    let mut t = build_tree();
    let rh = root_handle(&t);
    // Directories cannot be unlinked.
    assert_eq!(t.unlink_file(&rh, "foo").unwrap_err(), FsError::Io);
    assert_eq!(t.unlink_file(&rh, "quux").unwrap_err(), FsError::NotFound);
    t.unlink_file(&rh, "zip").unwrap();
    assert_eq!(t.get(0, "zip").unwrap_err(), FsError::NotFound);
}

#[test]
fn cross_device_refusal() {
    // A keystore overlay sits on its own device; removing it or a file
    // on it from the root's device is refused.
    let mut t = build_tree();
    let ks = t.keystore_new(0, 0).unwrap();
    t.attach(0, "keys", ks).unwrap();
    let rh = root_handle(&t);
    assert_eq!(t.remove_dir(&rh, "keys").unwrap_err(), FsError::Io);
    // A file living on the overlay's device, attached under the root.
    let alien = t.new_file(ks, b"x".to_vec(), 0);
    t.attach(0, "alien", alien).unwrap();
    assert_eq!(t.unlink_file(&rh, "alien").unwrap_err(), FsError::Io);
}

#[test]
fn attach_rules() {
    let mut t = Tree::root(false, 0);
    let f = t.new_file(0, Vec::new(), 0);
    assert_eq!(t.attach(0, ".", f), Err(FsError::InvalidArgument));
    assert_eq!(t.attach(0, "", f), Err(FsError::InvalidArgument));
    assert_eq!(t.attach(0, "..", f), Err(FsError::InvalidArgument));
    t.attach(0, "x", f).unwrap();
    let g = t.new_file(0, Vec::new(), 0);
    assert_eq!(t.attach(0, "x", g), Err(FsError::Exists));
    assert_eq!(t.attach(0, "x/y", g), Err(FsError::NotDir));
    // A trailing separator is trimmed before the final name is taken.
    let h = t.new_dir(0, false, 0);
    t.attach(0, "d/", h).unwrap();
    assert!(t.get(0, "d").is_ok());
}

#[test]
fn resolution_errors() {
    let t = build_tree();
    assert_eq!(t.get(0, "zip/deeper"), Err(FsError::NotDir));
    assert_eq!(t.get(0, "absent"), Err(FsError::NotFound));
    let rh = root_handle(&t);
    assert_eq!(t.open_dir(&rh, false, "zip").unwrap_err(), FsError::NotDir);
    assert_eq!(t.open_dir(&rh, false, "foo/").unwrap_err(), FsError::InvalidArgument);
    let ft = t.get_filetype(&rh).unwrap();
    assert_eq!(ft, FileType::Directory);
}

#[test]
fn unsupported_links() {
    let t = build_tree();
    let rh = root_handle(&t);
    assert_eq!(t.symlink(&rh, "a", "b").unwrap_err(), FsError::NotSupported);
    assert_eq!(t.rename(&rh, "zip", "zap").unwrap_err(), FsError::NotSupported);
    assert_eq!(t.hard_link(&rh, "zip", "zap").unwrap_err(), FsError::NotSupported);
    assert_eq!(t.read_link(&rh, "zip").unwrap_err(), FsError::NotSupported);
    // The descent still reports its own errors first.
    assert_eq!(t.rename(&rh, "absent/x", "zap").unwrap_err(), FsError::NotFound);
}

#[test]
fn path_filestat() {
    let t = build_tree();
    let rh = root_handle(&t);
    let st = t.get_path_filestat(&rh, "foo/bar", true).unwrap();
    assert_eq!(st.filetype, FileType::RegularFile);
    assert_eq!(st.size, 3);
    assert_eq!(st.inode, 2);
    assert!(st.nlink > 0);
    let st = t.get_path_filestat(&rh, "foo", true).unwrap();
    assert_eq!(st.filetype, FileType::Directory);
    assert_eq!(st.size, 0);
    assert_eq!(t.get_path_filestat(&rh, "nope", true).unwrap_err(), FsError::NotFound);
}

#[test]
fn set_times_paths() {
    let mut t = build_tree();
    let rh = root_handle(&t);
    t.set_times(&rh, "foo/bar", Some(TimeSpec::Now), Some(TimeSpec::Absolute(7)), true, 99)
        .unwrap();
    let st = t.get_path_filestat(&rh, "foo/bar", true).unwrap();
    assert_eq!(st.atim, 99);
    assert_eq!(st.mtim, 7);
    assert_eq!(st.ctim, 0);
    assert_eq!(
        t.set_times(&rh, "nope", None, None, true, 0).unwrap_err(),
        FsError::NotFound
    );
}
