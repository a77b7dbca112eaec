//! Allocation of filesystem device and inode identifiers.
//!
//! A [`Reusable`] pool hands out unique `u64` identifiers, preferring the
//! smallest identifier that is not currently held; identifiers given back
//! with [`Reusable::free`] become available again.  A [`Ledger`] is such a
//! pool for device identifiers; every [`DeviceId`] carries its own pool for
//! the inodes of that device.

use vstd::prelude::*;

verus! {

/// A potentially infinite stream of unique `u64` ids.
///
/// Allocation prefers the discontiguous set of freed identifiers and falls
/// back to the contiguous range `[next, u64::MAX)`.  An identifier is *live*
/// while it has been handed out by `acquire` and not yet returned by `free`.
pub struct Reusable {
    // All freed, discontiguous identifiers, strictly increasing.
    free: Vec<u64>,

    // Start of the contiguous range of never-used identifiers.
    next: u64,
}

impl Reusable {
    /// Whether `id` sits in the freed set.
    pub closed spec fn in_free(self, id: u64) -> bool {
        self.free@.contains(id)
    }

    /// The start of the contiguous range of never-used identifiers.
    pub closed spec fn next_of(self) -> u64 {
        self.next
    }

    /// An identifier is live while it is handed out: below the contiguous
    /// range and not in the freed set.
    pub open spec fn is_live(self, id: u64) -> bool {
        id < self.next_of() && !self.in_free(id)
    }

    /// Internal well-formedness: the freed set is strictly increasing and
    /// entirely below the contiguous range.
    pub closed spec fn wf(self) -> bool {
        &&& forall|i: int, j: int|
            0 <= i < j < self.free@.len() ==> self.free@[i] < self.free@[j]
        &&& forall|i: int| 0 <= i < self.free@.len() ==> self.free@[i] < self.next
    }

    /// A fresh pool: nothing is live.
    pub fn new() -> (r: Reusable)
        ensures
            r.wf(),
            forall|id: u64| !r.is_live(id),
            r.next_of() == 0,
    {
        Reusable { free: Vec::new(), next: 0 }
    }

    /// Allocate the smallest identifier that is not live.
    ///
    /// The pool is exhausted only once every one of the `2^64 - 1`
    /// identifiers below `u64::MAX` is live at the same time — the
    /// caller asserts some identifier is still free.  The identifier
    /// `u64::MAX` itself is reserved and never handed out.
    pub fn acquire(&mut self) -> (r: u64)
        requires
            old(self).wf(),
            exists|id: u64| id < u64::MAX && !old(self).is_live(id),
        ensures
            final(self).wf(),
            !old(self).is_live(r),
            final(self).is_live(r),
            forall|id: u64| id != r ==> final(self).is_live(id) == old(self).is_live(id),
            forall|id: u64| id < r ==> old(self).is_live(id),
            final(self).next_of() <= old(self).next_of() + 1,
    {
        if self.free.len() > 0 {
            let id = self.free.remove(0);
            assert forall|j: u64| j < id implies old(self).is_live(j) by {
                assert(forall|k: int|
                    0 <= k < old(self).free@.len()
                        ==> old(self).free@[0] <= #[trigger] old(self).free@[k]);
            }
            assert forall|id2: u64| id2 != id implies
                self.is_live(id2) == old(self).is_live(id2) by {
                if old(self).free@.contains(id2) {
                    let k = choose|k: int|
                        0 <= k < old(self).free@.len() && old(self).free@[k] == id2;
                    assert(k != 0);
                    assert(self.free@[k - 1] == id2);
                }
            }
            id
        } else {
            proof {
                let free_id = choose|id: u64| id < u64::MAX && !old(self).is_live(id);
                if free_id < self.next {
                    assert(self.free@.contains(free_id));
                }
            }
            let id = self.next;
            self.next = self.next + 1;
            id
        }
    }

    /// Return a live identifier to the pool.
    ///
    /// When the identifier one below the contiguous range comes back, the
    /// range is rolled back over it to reclaim contiguity.
    pub fn free(&mut self, id: u64)
        requires
            old(self).wf(),
            old(self).is_live(id),
        ensures
            final(self).wf(),
            !final(self).is_live(id),
            forall|id2: u64| id2 != id ==> final(self).is_live(id2) == old(self).is_live(id2),
            final(self).next_of() <= old(self).next_of(),
    {
        // Insert into the freed set, keeping it sorted.
        let mut i: usize = 0;
        while i < self.free.len() && self.free[i] < id
            invariant
                *self == *old(self),
                i <= self.free@.len(),
                forall|k: int| 0 <= k < i ==> self.free@[k] < id,
            decreases self.free@.len() - i,
        {
            i = i + 1;
        }
        self.free.insert(i, id);
        assert forall|id2: u64| self.free@.contains(id2) implies
            id2 == id || old(self).free@.contains(id2) by {
            let k = choose|k: int| 0 <= k < self.free@.len() && self.free@[k] == id2;
            if k < i {
                assert(old(self).free@[k] == id2);
            } else if k > i {
                assert(old(self).free@[k - 1] == id2);
            }
        }
        assert forall|id2: u64| old(self).free@.contains(id2) implies
            self.free@.contains(id2) by {
            let k = choose|k: int|
                0 <= k < old(self).free@.len() && old(self).free@[k] == id2;
            if k < i {
                assert(self.free@[k] == id2);
            } else {
                assert(self.free@[k + 1] == id2);
            }
        }
        assert(self.free@[i as int] == id);
        assert(self.free@.contains(id));
        assert(forall|id2: u64| self.is_live(id2) == (
            id2 < old(self).next && id2 != id && !old(self).free@.contains(id2)
        ));

        // Roll the contiguous range back over adjacent freed identifiers.
        while self.free.len() > 0 && self.free[self.free.len() - 1] == self.next - 1
            invariant
                self.wf(),
                self.next <= old(self).next,
                forall|id2: u64| self.is_live(id2) == (
                    id2 < old(self).next && id2 != id && !old(self).free@.contains(id2)
                ),
            decreases self.next,
        {
            let last = self.free.len() - 1;
            let ghost prev = *self;
            let ghost v = prev.free@[last as int];
            self.free.pop();
            self.next = self.next - 1;
            assert forall|id2: u64| #[trigger] self.free@.contains(id2) implies
                prev.free@.contains(id2) && id2 != v by {
                let k = choose|k: int|
                    0 <= k < self.free@.len() && self.free@[k] == id2;
                assert(prev.free@[k] == id2);
                assert(prev.free@[k] < prev.free@[last as int]);
            }
            assert forall|id2: u64| #[trigger] prev.free@.contains(id2) && id2 != v implies
                self.free@.contains(id2) by {
                let k = choose|k: int|
                    0 <= k < prev.free@.len() && prev.free@[k] == id2;
                assert(k < last);
                assert(self.free@[k] == id2);
            }
            assert forall|id2: u64| self.is_live(id2) == (
                id2 < old(self).next && id2 != id && !old(self).free@.contains(id2)
            ) by {
                if id2 == v {
                    assert(prev.free@.contains(v));
                    assert(!self.is_live(id2));
                    assert(!prev.is_live(id2));
                } else {
                    assert(self.free@.contains(id2) == prev.free@.contains(id2));
                    assert(id2 != prev.next - 1);
                    assert(self.is_live(id2) == prev.is_live(id2));
                }
            }
        }
    }
}

/// A ledger of filesystem devices: the pool of device identifiers.
pub struct Ledger {
    devices: Reusable,
}

/// A filesystem device identifier, owning the pool of its inode numbers.
pub struct DeviceId {
    id: u64,
    inodes: Reusable,
}

/// A filesystem inode identifier: the owning device's number and the inode
/// number within it.
#[derive(PartialEq, Eq, Structural, Clone, Copy, Debug)]
pub struct InodeId {
    pub device: u64,
    pub id: u64,
}

impl Ledger {
    /// The pool of device numbers, for specification purposes.
    pub closed spec fn pool(self) -> Reusable {
        self.devices
    }

    /// Whether a device number is currently held by some [`DeviceId`].
    pub open spec fn device_live(self, id: u64) -> bool {
        self.pool().is_live(id)
    }

    pub open spec fn wf(self) -> bool {
        self.pool().wf()
    }

    /// Create a new ledger with no live devices.
    pub fn new() -> (r: Ledger)
        ensures
            r.wf(),
            forall|id: u64| !r.device_live(id),
            r.pool().next_of() == 0,
    {
        Ledger { devices: Reusable::new() }
    }

    /// Allocate a new device: the smallest device number not live.
    pub fn create_device(&mut self) -> (r: DeviceId)
        requires
            old(self).wf(),
            exists|id: u64| id < u64::MAX && !old(self).device_live(id),
        ensures
            final(self).wf(),
            r.wf(),
            !old(self).device_live(r.id_of()),
            final(self).device_live(r.id_of()),
            forall|id: u64| id != r.id_of()
                ==> final(self).device_live(id) == old(self).device_live(id),
            forall|id: u64| id < r.id_of() ==> old(self).device_live(id),
            forall|id: u64| !r.inode_live(id),
            r.inodes_of().next_of() == 0,
            final(self).pool().next_of() <= old(self).pool().next_of() + 1,
    {
        let id = self.devices.acquire();
        DeviceId { id, inodes: Reusable::new() }
    }

    /// Return a device to the ledger once nothing holds it any more.
    pub fn free_device(&mut self, device: DeviceId)
        requires
            old(self).wf(),
            old(self).device_live(device.id_of()),
        ensures
            final(self).wf(),
            !final(self).device_live(device.id_of()),
            forall|id: u64| id != device.id_of()
                ==> final(self).device_live(id) == old(self).device_live(id),
            final(self).pool().next_of() <= old(self).pool().next_of(),
    {
        self.devices.free(device.id);
    }
}

impl DeviceId {
    /// The device number, for specification purposes.
    pub closed spec fn id_of(self) -> u64 {
        self.id
    }

    /// The pool of inode numbers, for specification purposes.
    pub closed spec fn inodes_of(self) -> Reusable {
        self.inodes
    }

    /// Whether an inode number is currently held by some [`InodeId`] of
    /// this device.
    pub open spec fn inode_live(self, id: u64) -> bool {
        self.inodes_of().is_live(id)
    }

    pub open spec fn wf(self) -> bool {
        self.inodes_of().wf()
    }

    /// The device number.
    pub fn id(&self) -> (r: u64)
        ensures
            r == self.id_of(),
    {
        self.id
    }

    /// Allocate a new inode on this device: the smallest number not live.
    pub fn create_inode(&mut self) -> (r: InodeId)
        requires
            old(self).wf(),
            exists|id: u64| id < u64::MAX && !old(self).inode_live(id),
        ensures
            final(self).wf(),
            final(self).id_of() == old(self).id_of(),
            r.device == old(self).id_of(),
            !old(self).inode_live(r.id),
            final(self).inode_live(r.id),
            forall|id: u64| id != r.id
                ==> final(self).inode_live(id) == old(self).inode_live(id),
            forall|id: u64| id < r.id ==> old(self).inode_live(id),
            final(self).inodes_of().next_of() <= old(self).inodes_of().next_of() + 1,
    {
        let id = self.inodes.acquire();
        InodeId { device: self.id, id }
    }

    /// Return an inode number to this device's pool once nothing holds it
    /// any more.
    pub fn free_inode(&mut self, inode: InodeId)
        requires
            old(self).wf(),
            inode.device == old(self).id_of(),
            old(self).inode_live(inode.id),
        ensures
            final(self).wf(),
            final(self).id_of() == old(self).id_of(),
            !final(self).inode_live(inode.id),
            forall|id: u64| id != inode.id
                ==> final(self).inode_live(id) == old(self).inode_live(id),
            final(self).inodes_of().next_of() <= old(self).inodes_of().next_of(),
    {
        self.inodes.free(inode.id);
    }
}

impl InodeId {
    /// The owning device's number.
    pub fn device(&self) -> (r: u64)
        ensures
            r == self.device,
    {
        self.device
    }
}

} // verus!
