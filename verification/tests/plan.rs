use fourc::plan::{any_raw_device, device_display, prep_step, select_tests, PrepStep, TestSelection};

fn strings(list: &[&str]) -> Vec<String> {
    list.iter().map(|s| s.to_string()).collect()
}

#[test]
fn all_tests_by_default() {
    assert_eq!(
        select_tests("all"),
        TestSelection { read_throughput: true, write_throughput: true, read_iops: true, write_iops: true }
    );
}

#[test]
fn tests_by_name() {
    assert_eq!(
        select_tests("read-iops,write-iops"),
        TestSelection { read_throughput: false, write_throughput: false, read_iops: true, write_iops: true }
    );
    assert_eq!(
        select_tests("read-tp,read-iops"),
        TestSelection { read_throughput: true, write_throughput: false, read_iops: true, write_iops: false }
    );
    assert_eq!(
        select_tests("nothing"),
        TestSelection { read_throughput: false, write_throughput: false, read_iops: false, write_iops: false }
    );
    assert_eq!(select_tests("ALL"), select_tests("nothing"));
}

#[test]
fn display_names() {
    assert_eq!(device_display(&strings(&["/dev/sdb"])), "/dev/sdb");
    assert_eq!(device_display(&strings(&["a", "b", "c"])), "3 devices");
    let many: Vec<String> = (0..1234).map(|i| format!("f{}", i)).collect();
    assert_eq!(device_display(&many), "1234 devices");
    assert_eq!(device_display(&strings(&[])), "0 devices");
}

#[test]
fn prep_decisions() {
    assert_eq!(prep_step(true, true), PrepStep::SkipAfterCreate);
    assert_eq!(prep_step(true, false), PrepStep::Run);
    assert_eq!(prep_step(false, true), PrepStep::NotRequested);
    assert_eq!(prep_step(false, false), PrepStep::NotRequested);
}

#[test]
fn raw_devices_in_list() {
    assert!(any_raw_device(&strings(&["a.dat", "/dev/sdb"])));
    assert!(!any_raw_device(&strings(&["a.dat", "b.dat"])));
}
