use fourc::engine::{
    block_offset, check_devices, random_block_offset, first_failure, tally_device, worker_slots, ProgressSchedule, SetupError,
    TestConfig, WorkerSlot, REPORT_INTERVAL_NS,
};

fn config(paths: &[&str], io_size: u64) -> TestConfig {
    TestConfig {
        device_paths: paths.iter().map(|s| s.to_string()).collect(),
        io_size,
        threads: 4,
        queue_depth: 1,
        duration_secs: 30,
        is_write: false,
    }
}

#[test]
fn no_devices_is_an_error() {
    assert_eq!(check_devices(&config(&[], 4096)), Err(SetupError::NoDevices));
    assert_eq!(check_devices(&config(&["/dev/sdb"], 4096)), Ok(()));
}

#[test]
fn block_size_in_kib() {
    assert_eq!(config(&["a"], 131072).block_size_kb(), 128);
    assert_eq!(config(&["a"], 4096 + 1023).block_size_kb(), 4);
    assert_eq!(config(&["a"], (1u64 << 42) + 2048).block_size_kb(), 2);
}

#[test]
fn device_sizes_add_up() {
    let t = tally_device(0, 500).unwrap();
    let t = tally_device(t, 1000).unwrap();
    assert_eq!(t, 1500);
    assert_eq!(tally_device(t, 0), Err(SetupError::EmptyDevice));
}

#[test]
fn workers_numbered_per_device() {
    let slots = worker_slots(3, 2);
    assert_eq!(
        slots,
        vec![
            WorkerSlot { worker_id: 0, device: 0 },
            WorkerSlot { worker_id: 1, device: 0 },
            WorkerSlot { worker_id: 2, device: 1 },
            WorkerSlot { worker_id: 3, device: 1 },
            WorkerSlot { worker_id: 4, device: 2 },
            WorkerSlot { worker_id: 5, device: 2 },
        ]
    );
    assert!(worker_slots(0, 8).is_empty());
    assert!(worker_slots(5, 0).is_empty());
}

#[test]
fn progress_schedule() {
    let mut s = ProgressSchedule::new(30);
    assert_eq!(s.duration_ns, 30_000_000_000);
    assert!(s.keep_running(29_999_999_999));
    assert!(!s.keep_running(30_000_000_000));
    assert!(!s.report_due(REPORT_INTERVAL_NS - 1));
    assert!(s.report_due(REPORT_INTERVAL_NS));
    assert!(!s.report_due(REPORT_INTERVAL_NS + 100));
    assert!(s.report_due(12_000_000_000));
    assert!(!s.report_due(12_000_000_000));
    assert_eq!(s.reports, 2);
}

#[test]
fn first_failure_in_device_order() {
    assert_eq!(first_failure(&vec![true, true]), None);
    assert_eq!(first_failure(&vec![true, false, false]), Some(1));
    assert_eq!(first_failure(&vec![]), None);
}

#[test]
fn block_offsets_are_aligned_and_inside() {
    assert_eq!(block_offset(0, 10_000, 4096), Some(0));
    assert_eq!(block_offset(1, 10_000, 4096), Some(4096));
    assert_eq!(block_offset(2, 10_000, 4096), Some(0));
    assert_eq!(block_offset(5, 4096, 4096), Some(0));
    assert_eq!(block_offset(5, 4095, 4096), None);
    assert_eq!(block_offset(5, 4096, 0), None);
    for _ in 0..100 {
        let off = random_block_offset(1_000_000, 4096).unwrap();
        assert_eq!(off % 4096, 0);
        assert!(off + 4096 <= 1_000_000);
    }
    assert_eq!(random_block_offset(100, 4096), None);
}
