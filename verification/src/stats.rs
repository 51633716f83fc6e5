//! Counters of what a worker has done.
use vstd::prelude::*;

verus! {

/// Statistics collected about number of fuzz cases and VM exits.
///
/// A worker counts into its own statistics, and moves them on an interval into
/// those of the session. This keeps the contention on the latter low, whatever
/// the number of fuzz cases or cores.
#[derive(Clone, Copy, Debug)]
pub struct Statistics {
    /// Number of fuzz cases performed on the target.
    pub fuzz_cases: u64,
    /// Number of cycles spent resetting the VM.
    pub reset_cycles: u64,
    /// Total cycles spent fuzzing.
    pub total_cycles: u64,
    /// Number of cycles spent inside the VM.
    pub vm_cycles: u64,
    /// Number of VM exits.
    pub vmexits: u64,
}

/// Nothing was counted.
pub open spec fn no_statistics() -> Statistics {
    Statistics { fuzz_cases: 0, reset_cycles: 0, total_cycles: 0, vm_cycles: 0, vmexits: 0 }
}

impl Default for Statistics {
    fn default() -> (r: Self)
        ensures
            r == no_statistics(),
    {
        Statistics { fuzz_cases: 0, reset_cycles: 0, total_cycles: 0, vm_cycles: 0, vmexits: 0 }
    }
}

impl Statistics {
    /// Every counter of `self` has room for that of `other`.
    pub open spec fn can_take(self, other: Statistics) -> bool {
        &&& self.fuzz_cases + other.fuzz_cases <= u64::MAX
        &&& self.reset_cycles + other.reset_cycles <= u64::MAX
        &&& self.total_cycles + other.total_cycles <= u64::MAX
        &&& self.vm_cycles + other.vm_cycles <= u64::MAX
        &&& self.vmexits + other.vmexits <= u64::MAX
    }

    /// The counters of `self` and `other` together.
    pub open spec fn plus(self, other: Statistics) -> Statistics {
        Statistics {
            fuzz_cases: (self.fuzz_cases + other.fuzz_cases) as u64,
            reset_cycles: (self.reset_cycles + other.reset_cycles) as u64,
            total_cycles: (self.total_cycles + other.total_cycles) as u64,
            vm_cycles: (self.vm_cycles + other.vm_cycles) as u64,
            vmexits: (self.vmexits + other.vmexits) as u64,
        }
    }

    /// Whether every counter of `self` has room for that of `other`.
    pub fn has_room_for(&self, other: &Statistics) -> (r: bool)
        ensures
            r == self.can_take(*other),
    {
        self.fuzz_cases <= u64::MAX - other.fuzz_cases && self.reset_cycles <= u64::MAX
            - other.reset_cycles && self.total_cycles <= u64::MAX - other.total_cycles
            && self.vm_cycles <= u64::MAX - other.vm_cycles && self.vmexits <= u64::MAX
            - other.vmexits
    }

    /// Sync the statistics in `self` into `master`, resetting `self`'s
    /// statistics back to 0 such that the syncing cycle can repeat.
    pub fn sync_into(&mut self, master: &mut Statistics)
        requires
            old(master).can_take(*old(self)),
        ensures
            *final(master) == old(master).plus(*old(self)),
            *final(self) == no_statistics(),
    {
        master.fuzz_cases = master.fuzz_cases + self.fuzz_cases;
        master.reset_cycles = master.reset_cycles + self.reset_cycles;
        master.vm_cycles = master.vm_cycles + self.vm_cycles;
        master.total_cycles = master.total_cycles + self.total_cycles;
        master.vmexits = master.vmexits + self.vmexits;
        *self = Statistics::default();
    }
}

/// Syncing loses nothing and counts nothing twice: what a worker counted before
/// and after a sync adds up in the master to what one later sync would have
/// brought.
pub proof fn law_sync_in_parts(master: Statistics, before: Statistics, after: Statistics)
    requires
        before.can_take(after),
        master.can_take(before.plus(after)),
    ensures
        master.can_take(before),
        master.plus(before).can_take(after),
        master.plus(before).plus(after) == master.plus(before.plus(after)),
{
}

/// Syncing right after a sync changes nothing.
pub proof fn law_sync_twice(master: Statistics)
    ensures
        master.can_take(no_statistics()),
        master.plus(no_statistics()) == master,
{
}

/// Syncing adds up each counter on its own, and starts over from zero.
pub proof fn law_sync_adds(master: Statistics, worker: Statistics)
    requires
        master.can_take(worker),
    ensures
        ({
            let sum = master.plus(worker);
            &&& sum.fuzz_cases == master.fuzz_cases + worker.fuzz_cases
            &&& sum.reset_cycles == master.reset_cycles + worker.reset_cycles
            &&& sum.total_cycles == master.total_cycles + worker.total_cycles
            &&& sum.vm_cycles == master.vm_cycles + worker.vm_cycles
            &&& sum.vmexits == master.vmexits + worker.vmexits
        }),
        no_statistics().fuzz_cases == 0 && no_statistics().reset_cycles == 0
            && no_statistics().total_cycles == 0 && no_statistics().vm_cycles == 0
            && no_statistics().vmexits == 0,
{
}

} // verus!
