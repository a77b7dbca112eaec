//! The identifier ledger: allocation order, uniqueness and reuse.

use memfs::ledger::Ledger;

#[test]
fn reuse() {
    // Test the first inode number.
    let mut ledger = Ledger::new();
    let mut dev0 = ledger.create_device();
    let inode00 = dev0.create_inode();
    assert_eq!(inode00.device(), 0);
    assert_eq!(inode00.id, 0);

    // Test the second inode number.
    let inode01 = dev0.create_inode();
    assert_eq!(inode01.device(), 0);
    assert_eq!(inode01.id, 1);

    // Test the first inode on a new device.
    let mut dev1 = ledger.create_device();
    let inode10 = dev1.create_inode();
    assert_eq!(inode10.device(), 1);
    assert_eq!(inode10.id, 0);

    // Test the third inode number.
    let inode02 = dev0.create_inode();
    assert_eq!(inode02.device(), 0);
    assert_eq!(inode02.id, 2);

    // Test the second inode on a new device.
    let inode11 = dev1.create_inode();
    assert_eq!(inode11.device(), 1);
    assert_eq!(inode11.id, 1);

    // Test the third inode on a new device.
    let inode12 = dev1.create_inode();
    assert_eq!(inode12.device(), 1);
    assert_eq!(inode12.id, 2);

    dev0.free_inode(inode01);
    dev1.free_inode(inode12);

    // Test inode reuse.
    let inode01 = dev0.create_inode();
    assert_eq!(inode01.device(), 0);
    assert_eq!(inode01.id, 1);

    // Test inode reuse on a new device.
    let inode12 = dev1.create_inode();
    assert_eq!(inode12.device(), 1);
    assert_eq!(inode12.id, 2);

    dev0.free_inode(inode00);
    dev0.free_inode(inode01);
    dev0.free_inode(inode02);
    ledger.free_device(dev0);

    // Test device reuse.
    let mut dev0 = ledger.create_device();
    let inode00 = dev0.create_inode();
    assert_eq!(dev0.id(), 0);
    assert_eq!(inode00.device(), 0);
    assert_eq!(inode00.id, 0);
}

#[test]
fn live_ids_distinct() {
    // Live device numbers are pairwise distinct, and so are live inode
    // numbers within one device.
    let mut ledger = Ledger::new();
    let mut devs = Vec::new();
    for _ in 0..5 {
        devs.push(ledger.create_device());
    }
    for i in 0..devs.len() {
        for j in 0..devs.len() {
            if i != j {
                assert_ne!(devs[i].id(), devs[j].id());
            }
        }
    }
    let mut dev = ledger.create_device();
    let mut inodes = Vec::new();
    for _ in 0..5 {
        inodes.push(dev.create_inode());
    }
    for i in 0..inodes.len() {
        for j in 0..inodes.len() {
            if i != j {
                assert_ne!(inodes[i].id, inodes[j].id);
            }
        }
    }
}

#[test]
fn smallest_free_first() {
    // After frees, the next allocation returns the smallest free id.
    let mut ledger = Ledger::new();
    let mut dev = ledger.create_device();
    let a = dev.create_inode();
    let b = dev.create_inode();
    let c = dev.create_inode();
    let d = dev.create_inode();
    assert_eq!((a.id, b.id, c.id, d.id), (0, 1, 2, 3));
    dev.free_inode(c);
    dev.free_inode(a);
    let e = dev.create_inode();
    assert_eq!(e.id, 0);
    let f = dev.create_inode();
    assert_eq!(f.id, 2);
    let g = dev.create_inode();
    assert_eq!(g.id, 4);
}
