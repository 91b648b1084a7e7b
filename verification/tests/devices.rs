use fourc::devices::{is_raw_device, normalize_device_path, parse_devices, plural};

fn args(list: &[&str]) -> Vec<String> {
    list.iter().map(|s| s.to_string()).collect()
}

#[test]
fn plural_is_empty_for_one() {
    assert_eq!(plural(1), "");
    assert_eq!(plural(0), "s");
    assert_eq!(plural(2), "s");
    assert_eq!(plural(360), "s");
}

#[test]
fn raw_device_prefixes() {
    assert!(is_raw_device("/dev/sdb"));
    assert!(is_raw_device("/dev/nvme0n1"));
    assert!(is_raw_device(r"\\.\PhysicalDrive4"));
    assert!(is_raw_device(r"\\.\D:"));
    assert!(!is_raw_device("/mnt/storage/bench.dat"));
    assert!(!is_raw_device(r"C:\test\benchmark.dat"));
    assert!(!is_raw_device("/dev"));
    assert!(!is_raw_device("/device/x"));
    assert!(!is_raw_device(""));
}

#[test]
fn separate_device_flags() {
    let r = parse_devices(args(&["/dev/sdb", "/dev/sdc", "/dev/sdd"]), false);
    assert_eq!(r, Ok(args(&["/dev/sdb", "/dev/sdc", "/dev/sdd"])));
}

#[test]
fn comma_separated_devices() {
    let r = parse_devices(args(&["/dev/sdb,/dev/sdc,/dev/sdd"]), false);
    assert_eq!(r, Ok(args(&["/dev/sdb", "/dev/sdc", "/dev/sdd"])));
}

#[test]
fn comma_and_separate_flags_mix() {
    let r = parse_devices(args(&["/dev/sdb,/dev/sdc", "/dev/nvme0n1"]), false);
    assert_eq!(r, Ok(args(&["/dev/sdb", "/dev/sdc", "/dev/nvme0n1"])));
}

#[test]
fn entries_are_trimmed_and_empty_ones_skipped() {
    let r = parse_devices(args(&[" E:\\test\\file1 , ,E:\\test\\file2,", "\t"]), false);
    assert_eq!(r, Ok(args(&["E:\\test\\file1", "E:\\test\\file2"])));
}

#[test]
fn unicode_white_space_is_trimmed() {
    let r = parse_devices(args(&["\u{3000}a.dat\u{a0}"]), false);
    assert_eq!(r, Ok(args(&["a.dat"])));
}

#[test]
fn duplicate_device_is_refused() {
    let r = parse_devices(args(&["/dev/sdb", "/dev/sdc", "/dev/sdb"]), false);
    assert_eq!(r, Err("device /dev/sdb is listed more than once".to_string()));
}

#[test]
fn duplicate_ignores_ascii_case() {
    let r = parse_devices(args(&[r"\\.\PhysicalDrive4,\\.\physicaldrive4"]), false);
    assert_eq!(r, Err(r"device \\.\physicaldrive4 is listed more than once".to_string()));
}

#[test]
fn first_duplicate_is_reported() {
    let r = parse_devices(args(&["a,b, b ,A"]), false);
    assert_eq!(r, Err("device b is listed more than once".to_string()));
}

#[test]
fn duplicate_reported_before_mix() {
    let r = parse_devices(args(&["/dev/sdb", "file", "file"]), false);
    assert_eq!(r, Err("device file is listed more than once".to_string()));
}

#[test]
fn empty_device_list_is_refused() {
    assert_eq!(parse_devices(args(&[]), false), Err("no valid devices specified".to_string()));
    assert_eq!(parse_devices(args(&[" , ,", ""]), false), Err("no valid devices specified".to_string()));
}

#[test]
fn raw_and_files_cannot_mix() {
    let r = parse_devices(args(&["/dev/sdb", "/tmp/file.dat"]), false);
    assert_eq!(
        r,
        Err("raw devices and file paths cannot be mixed in the same run".to_string())
    );
}

#[test]
fn reparsing_accepted_list_is_unchanged() {
    let first = parse_devices(args(&[" x.dat,y.dat ", "z.dat"]), false).unwrap();
    let second = parse_devices(first.clone(), false).unwrap();
    assert_eq!(first, second);
}

#[test]
fn comma_join_lists_the_same_as_separate_values() {
    let joined = parse_devices(args(&["a.dat, b.dat"]), false);
    let separate = parse_devices(args(&["a.dat", " b.dat"]), false);
    assert_eq!(joined, separate);
    assert_eq!(
        parse_devices(args(&["x,y"]), false),
        parse_devices(args(&["x", "y"]), false)
    );
}

#[test]
fn drive_number_shorthand() {
    assert_eq!(normalize_device_path("4"), r"\\.\PhysicalDrive4");
    assert_eq!(normalize_device_path("12"), r"\\.\PhysicalDrive12");
    assert_eq!(normalize_device_path("4a"), "4a");
    assert_eq!(normalize_device_path(""), "");
    assert_eq!(normalize_device_path(r"\\.\D:"), r"\\.\D:");
    assert_eq!(normalize_device_path(r"C:\test\benchmark.dat"), r"C:\test\benchmark.dat");
}

#[test]
fn windows_drive_number_and_full_path_are_one_device() {
    let r = parse_devices(args(&["4", r"\\.\PhysicalDrive4"]), true);
    assert_eq!(r, Err(format!("device {} is listed more than once", r"\\.\PhysicalDrive4")));
}

#[test]
fn windows_drive_numbers_comma_separated() {
    let r = parse_devices(args(&["4,5", r"\\.\PhysicalDrive6"]), true);
    assert_eq!(
        r,
        Ok(args(&[r"\\.\PhysicalDrive4", r"\\.\PhysicalDrive5", r"\\.\PhysicalDrive6"]))
    );
    let again = parse_devices(r.unwrap(), true).unwrap();
    assert_eq!(again.len(), 3);
}

#[test]
fn windows_drive_number_is_raw() {
    let r = parse_devices(args(&["4", r"E:\test\file1"]), true);
    assert_eq!(
        r,
        Err("raw devices and file paths cannot be mixed in the same run".to_string())
    );
}

#[test]
fn drive_numbers_kept_as_they_are_elsewhere() {
    assert_eq!(parse_devices(args(&[" 4 "]), false), Ok(args(&["4"])));
}
