use vstd::prelude::*;

verus! {

/// One process as seen in a snapshot.
///
/// `cpu_bits` holds the raw IEEE-754 bits of the process's CPU usage (an `f32`
/// percentage); the library orders by it through [`cpu_rank`] and never reads
/// it as a number.
pub struct ProcessRecord {
    pub pid: u32,
    pub name: String,
    pub cpu_bits: u32,
    pub memory: u64,
}

/// A point-in-time picture of system and per-process metrics.
pub struct Snapshot {
    pub total_memory: u64,
    pub used_memory: u64,
    pub global_cpu_bits: u32,
    pub per_core_bits: Vec<u32>,
    pub processes: Vec<ProcessRecord>,
}

/// No two records share a process id.
pub open spec fn pids_unique(procs: Seq<ProcessRecord>) -> bool {
    forall|i: int, j: int|
        0 <= i < procs.len() && 0 <= j < procs.len() && i != j ==> #[trigger] procs[i].pid
            != #[trigger] procs[j].pid
}

impl Snapshot {
    /// A snapshot is well formed when process ids are unique within it.
    pub open spec fn wf(&self) -> bool {
        pids_unique(self.processes@)
    }

    /// A snapshot with no processes and no cores.
    pub fn empty() -> (r: Snapshot)
        ensures
            r.wf(),
            r.processes@.len() == 0,
            r.per_core_bits@.len() == 0,
    {
        Snapshot {
            total_memory: 0,
            used_memory: 0,
            global_cpu_bits: 0,
            per_core_bits: Vec::new(),
            processes: Vec::new(),
        }
    }

    /// Some process in the snapshot has id `pid`.
    pub open spec fn has_pid(&self, pid: u32) -> bool {
        exists|i: int| 0 <= i < self.processes@.len() && #[trigger] self.processes@[i].pid == pid
    }

    /// Whether a process with id `pid` is in the snapshot.
    pub fn contains_pid(&self, pid: u32) -> (r: bool)
        ensures
            r == self.has_pid(pid),
    {
        let mut i: usize = 0;
        while i < self.processes.len()
            invariant
                i <= self.processes@.len(),
                forall|j: int| 0 <= j < i ==> #[trigger] self.processes@[j].pid != pid,
            decreases self.processes@.len() - i,
        {
            if self.processes[i].pid == pid {
                return true;
            }
            i = i + 1;
        }
        false
    }

    /// Adds a process, unless one with the same id is already there; says
    /// whether it was added.
    pub fn add_process(&mut self, rec: ProcessRecord) -> (added: bool)
        requires
            old(self).wf(),
        ensures
            final(self).wf(),
            added == !old(self).has_pid(rec.pid),
            added ==> final(self).processes@ == old(self).processes@.push(rec),
            !added ==> final(self).processes@ == old(self).processes@,
            final(self).total_memory == old(self).total_memory,
            final(self).used_memory == old(self).used_memory,
            final(self).global_cpu_bits == old(self).global_cpu_bits,
            final(self).per_core_bits@ == old(self).per_core_bits@,
    {
        if self.contains_pid(rec.pid) {
            return false;
        }
        let ghost before = self.processes@;
        self.processes.push(rec);
        proof {
            let after = self.processes@;
            assert forall|i: int, j: int|
                0 <= i < after.len() && 0 <= j < after.len() && i != j implies #[trigger] after[i].pid
                != #[trigger] after[j].pid by {
                if i < before.len() && j < before.len() {
                    assert(before[i].pid != before[j].pid);
                } else if i < before.len() {
                    assert(before[i].pid != rec.pid);
                } else if j < before.len() {
                    assert(before[j].pid != rec.pid);
                }
            }
        }
        true
    }
}

/// The bits of an `f32` encode a NaN: all exponent bits set, mantissa non-zero.
pub open spec fn is_nan_bits(b: u32) -> bool {
    (b as int / 0x80_0000) % 0x100 == 0xff && b as int % 0x80_0000 != 0
}

/// Rank of an `f32`, given by its bits, in the order of `f32::total_cmp`
/// with every NaN placed below all other values.
///
/// NaN ranks 0; a negative number of magnitude bits `m` ranks `2^31 - m`
/// (so -0.0 ranks `2^31`); a non-negative one with bits `b` ranks `2^31 + 1 + b`.
pub open spec fn cpu_rank_spec(b: u32) -> int {
    if is_nan_bits(b) {
        0
    } else if b < 0x8000_0000 {
        0x8000_0001 + b
    } else {
        0x1_0000_0000 - b
    }
}

/// Computes [`cpu_rank_spec`].
pub fn cpu_rank(b: u32) -> (r: u64)
    ensures
        r as int == cpu_rank_spec(b),
{
    if (b / 0x80_0000) % 0x100 == 0xff && b % 0x80_0000 != 0 {
        0
    } else if b < 0x8000_0000 {
        0x8000_0001u64 + b as u64
    } else {
        0x1_0000_0000u64 - b as u64
    }
}

/// NaN ranks below every other value.
pub proof fn lemma_nan_lowest(a: u32, b: u32)
    requires
        is_nan_bits(a),
        !is_nan_bits(b),
    ensures
        cpu_rank_spec(a) < cpu_rank_spec(b),
{
    if b >= 0x8000_0000 {
        assert(b <= 0xff80_0000) by {
            if b > 0xff80_0000 {
                assert((b as int / 0x80_0000) % 0x100 == 0xff);
            }
        }
    }
}

} // verus!
