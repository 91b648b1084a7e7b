use vstd::prelude::*;
use crate::fill::{draw_u64, drawn_u64};

verus! {

/// Configuration of one benchmark test, run over one or more devices.
pub struct TestConfig {
    pub device_paths: Vec<String>,
    pub io_size: u64,
    /// Worker threads per device.
    pub threads: u32,
    pub queue_depth: u32,
    pub duration_secs: u32,
    pub is_write: bool,
}

impl TestConfig {
    /// The block size in KiB, as reported with the results (cut to 32 bits).
    pub fn block_size_kb(&self) -> (r: u32)
        ensures
            r == (self.io_size / 1024) as u32,
    {
        (self.io_size / 1024) as u32
    }
}

/// Why a test cannot start.
#[derive(Debug, PartialEq, Eq)]
pub enum SetupError {
    /// The configuration names no device.
    NoDevices,
    /// A device reports a size of zero bytes.
    EmptyDevice,
}

/// A test needs at least one device.
pub fn check_devices(config: &TestConfig) -> (r: Result<(), SetupError>)
    ensures
        r is Err <==> config.device_paths.len() == 0,
        r matches Err(e) ==> e == SetupError::NoDevices,
{
    if config.device_paths.len() == 0 {
        Err(SetupError::NoDevices)
    } else {
        Ok(())
    }
}

/// Adds the size of the next device to the running total of device sizes;
/// a device of size zero is refused.
pub fn tally_device(total: u64, size: u64) -> (r: Result<u64, SetupError>)
    requires
        size == 0 || total + size <= u64::MAX,
    ensures
        size == 0 ==> r == Err::<u64, SetupError>(SetupError::EmptyDevice),
        size > 0 ==> r == Ok::<u64, SetupError>((total + size) as u64),
{
    if size == 0 {
        Err(SetupError::EmptyDevice)
    } else {
        Ok(total + size)
    }
}

/// One worker thread of a test: its id, unique across all devices, and the
/// device it works on.
#[derive(Debug, Clone, Copy, PartialEq, Eq)]
pub struct WorkerSlot {
    pub worker_id: u32,
    pub device: usize,
}

/// The worker threads of a test, `threads` per device, numbered in order:
/// all the workers of the first device, then those of the next, and so on.
pub fn worker_slots(n_devices: usize, threads: u32) -> (r: Vec<WorkerSlot>)
    requires
        n_devices * threads <= u32::MAX,
    ensures
        r.len() == n_devices * threads,
        forall|k: int|
            0 <= k < r.len() ==> #[trigger] r[k].worker_id == k && r[k].device == k / (
            threads as int),
{
    let mut r: Vec<WorkerSlot> = Vec::new();
    let mut next_id: u32 = 0;
    let mut d: usize = 0;
    while d < n_devices
        invariant
            n_devices * threads <= u32::MAX,
            d <= n_devices,
            next_id == d * threads,
            r.len() == next_id,
            forall|k: int|
                0 <= k < r.len() ==> #[trigger] r[k].worker_id == k && r[k].device == k / (
                threads as int),
        decreases n_devices - d,
    {
        proof {
            assert(d * threads + threads <= n_devices * threads) by (nonlinear_arith)
                requires
                    d < n_devices,
            ;
        }
        let mut t: u32 = 0;
        while t < threads
            invariant
                n_devices * threads <= u32::MAX,
                d < n_devices,
                t <= threads,
                d * threads + threads <= n_devices * threads,
                next_id == d * threads + t,
                r.len() == next_id,
                forall|k: int|
                    0 <= k < r.len() ==> #[trigger] r[k].worker_id == k && r[k].device == k / (
                    threads as int),
            decreases threads - t,
        {
            proof {
                let k = d * threads + t;
                assert(k / (threads as int) == d) by (nonlinear_arith)
                    requires
                        k == d * threads + t,
                        0 <= t < threads,
                ;
            }
            r.push(WorkerSlot { worker_id: next_id, device: d });
            next_id = next_id + 1;
            t = t + 1;
        }
        d = d + 1;
        assert(next_id == d * threads) by (nonlinear_arith)
            requires
                next_id == (d - 1) * threads + threads,
        ;
    }
    r
}

/// Time between two progress reports, in nanoseconds.
pub const REPORT_INTERVAL_NS: u64 = 5_000_000_000;

/// When a running test stops and when it reports its progress. Times are
/// nanoseconds since the test started.
pub struct ProgressSchedule {
    pub duration_ns: u64,
    /// Progress reports made so far.
    pub reports: u64,
}

impl ProgressSchedule {
    /// The time at which the next progress report is due.
    pub open spec fn next_report_ns(&self) -> int {
        (self.reports + 1) * REPORT_INTERVAL_NS
    }

    /// The schedule of a test that runs `duration_secs` seconds; the first
    /// report is due one interval after the start.
    pub fn new(duration_secs: u32) -> (s: Self)
        ensures
            s.duration_ns == duration_secs * 1_000_000_000,
            s.reports == 0,
    {
        ProgressSchedule { duration_ns: duration_secs as u64 * 1_000_000_000, reports: 0 }
    }

    /// Whether the test goes on at `elapsed_ns`.
    pub fn keep_running(&self, elapsed_ns: u64) -> (r: bool)
        ensures
            r == (elapsed_ns < self.duration_ns),
    {
        elapsed_ns < self.duration_ns
    }

    /// Whether a progress report is due at `now_ns`; when it is, the next one
    /// is due one interval later.
    pub fn report_due(&mut self, now_ns: u64) -> (r: bool)
        ensures
            r == (now_ns >= old(self).next_report_ns()),
            final(self).duration_ns == old(self).duration_ns,
            final(self).reports == (if r {
                old(self).reports + 1
            } else {
                old(self).reports as int
            }),
    {
        assert((self.reports + 1) * REPORT_INTERVAL_NS <= u128::MAX) by (nonlinear_arith)
            requires
                self.reports <= u64::MAX,
        ;
        let next: u128 = (self.reports as u128 + 1) * (REPORT_INTERVAL_NS as u128);
        if (now_ns as u128) >= next {
            assert(self.reports + 1 <= now_ns) by (nonlinear_arith)
                requires
                    now_ns >= (self.reports + 1) * REPORT_INTERVAL_NS,
            ;
            self.reports = self.reports + 1;
            true
        } else {
            false
        }
    }
}

/// Whether a run of workers, reported in device order, succeeded: the
/// position of the first failure, if any.
pub fn first_failure(succeeded: &Vec<bool>) -> (r: Option<usize>)
    ensures
        match r {
            Some(i) => i < succeeded.len() && !succeeded[i as int] && forall|j: int|
                0 <= j < i ==> succeeded[j],
            None => forall|j: int| 0 <= j < succeeded.len() ==> succeeded[j],
        },
{
    let mut i: usize = 0;
    while i < succeeded.len()
        invariant
            i <= succeeded.len(),
            forall|j: int| 0 <= j < i ==> succeeded[j],
        decreases succeeded.len() - i,
    {
        if !succeeded[i] {
            return Some(i);
        }
        i = i + 1;
    }
    None
}

/// Where an I/O of `io_size` bytes at block `draw` lands on a device of
/// `device_size` bytes: block `draw` modulo the number of whole blocks, so the
/// I/O is block-aligned and inside the device; `None` when the device holds no
/// whole block.
pub fn block_offset(draw: u64, device_size: u64, io_size: u64) -> (r: Option<u64>)
    ensures
        r is None <==> (io_size == 0 || device_size < io_size),
        r matches Some(off) ==> {
            &&& off == (draw % (device_size / io_size)) * io_size
            &&& off % io_size == 0
            &&& off + io_size <= device_size
        },
{
    if io_size == 0 || device_size < io_size {
        return None;
    }
    let blocks = device_size / io_size;
    assert(blocks >= 1) by (nonlinear_arith)
        requires
            blocks == device_size / io_size,
            device_size >= io_size,
            io_size > 0,
    ;
    let k = draw % blocks;
    assert(k * io_size + io_size <= device_size && (k * io_size) % (io_size as int) == 0)
        by (nonlinear_arith)
        requires
            k < blocks,
            blocks == device_size / io_size,
            io_size > 0,
    {
        assert(blocks * io_size <= device_size);
        assert((k + 1) * io_size <= blocks * io_size);
        vstd::arithmetic::div_mod::lemma_mod_multiples_basic(k as int, io_size as int);
    }
    Some(k * io_size)
}

/// Where the next random I/O of `io_size` bytes lands on a device of
/// `device_size` bytes: block `draw` modulo the number of whole blocks, for a
/// number freshly drawn from the random source; `None` when the device holds
/// no whole block.
pub fn random_block_offset(device_size: u64, io_size: u64) -> (r: Option<u64>)
    ensures
        r is None <==> (io_size == 0 || device_size < io_size),
        r matches Some(off) ==> off % io_size == 0 && off + io_size <= device_size,
        r matches Some(off) ==> exists|draw: u64|
            drawn_u64(draw) && off == (draw % (device_size / io_size)) * io_size,
{
    let draw = draw_u64();
    block_offset(draw, device_size, io_size)
}

/// The draw decides the block: on a device of `n = device_size / io_size`
/// whole blocks, draw `k < n` lands on block `k` (offset `k * io_size`), so
/// every block can be chosen; two draws land on the same block exactly when
/// they agree modulo `n`.
pub proof fn law_draw_decides_block(device_size: u64, io_size: u64, d1: u64, d2: u64)
    requires
        io_size > 0,
        device_size >= io_size,
    ensures
        ({
            let n = device_size / io_size;
            &&& n >= 1
            &&& forall|k: u64| k < n ==> (#[trigger] (k % n)) * io_size == k * io_size
            &&& ((d1 % n) * io_size == (d2 % n) * io_size <==> d1 % n == d2 % n)
        }),
{
    let n = device_size / io_size;
    assert(n >= 1) by (nonlinear_arith)
        requires
            n == device_size / io_size,
            device_size >= io_size,
            io_size > 0,
    ;
    assert forall|k: u64| k < n implies (#[trigger] (k % n)) * io_size == k * io_size by {
        vstd::arithmetic::div_mod::lemma_small_mod(k as nat, n as nat);
    }
    let a = d1 % n;
    let b = d2 % n;
    if a * io_size == b * io_size {
        assert(a == b) by (nonlinear_arith)
            requires
                a * io_size == b * io_size,
                io_size > 0,
        ;
    }
}

} // verus!
