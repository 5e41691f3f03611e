use treer::utils::{format_date, format_file_size, format_permissions, Timestamp};

#[test]
fn utils_test_format_permissions() {
    let file_perm = format_permissions(0o644, false);
    let folder_perm = format_permissions(0o755, true);
    assert_eq!(file_perm, String::from("[-rw-r--r--]"));
    assert_eq!(folder_perm, String::from("[drwxr-xr-x]"));
}

#[test]
fn utils_test_format_file_size() {
    assert_eq!(format_file_size(0), String::from("0 B"));
    assert_eq!(format_file_size(999), String::from("999 B"));
    assert_eq!(format_file_size(2048), String::from("2.0 KB"));
    assert_eq!(format_file_size(2560), String::from("2.5 KB"));
    assert_eq!(format_file_size(2690), String::from("2.6 KB"));
    assert_eq!(format_file_size(1048576), String::from("1.0 MB"));
    assert_eq!(format_file_size(3365930), String::from("3.2 MB"));
}

#[test]
fn utils_test_format_date() {
    let date = Timestamp::from_secs(69696969);
    assert_eq!(format_date(date), "1972-03-17 16:16:09");
}

#[test]
fn size_units_up_to_terabytes() {
    assert_eq!(format_file_size(1023), "1023 B");
    assert_eq!(format_file_size(1024), "1.0 KB");
    assert_eq!(format_file_size(1048575), "1024.0 KB");
    assert_eq!(format_file_size(1 << 30), "1.0 GB");
    assert_eq!(format_file_size(3 << 40), "3.0 TB");
    assert_eq!(format_file_size(1 << 50), "1024.0 TB");
    assert_eq!(format_file_size(u64::MAX), "16777216.0 TB");
}

#[test]
fn size_rounding_matches_float_formatting() {
    for bytes in [1280u64, 1331, 1434, 2304, 5 * 1024 + 51, 10 * 1024 * 1024 + 52429, 123456789] {
        let mut scaled = bytes as f64;
        let mut unit = 0;
        while scaled >= 1024.0 {
            scaled /= 1024.0;
            unit += 1;
        }
        let names = ["B", "KB", "MB", "GB", "TB"];
        let expected = format!("{:.1} {}", scaled, names[unit]);
        assert_eq!(format_file_size(bytes), expected);
    }
}

#[test]
fn permissions_of_every_bit() {
    assert_eq!(format_permissions(0, false), "[----------]");
    assert_eq!(format_permissions(0o400, false), "[-r--------]");
    assert_eq!(format_permissions(0o020, true), "[d----w----]");
    assert_eq!(format_permissions(0o001, false), "[---------x]");
    assert_eq!(format_permissions(0o7777, true), "[drwxrwxrwx]");
}

#[test]
fn dates_at_edges() {
    assert_eq!(format_date(Timestamp::epoch()), "1970-01-01 00:00:00");
    assert_eq!(format_date(Timestamp::from_secs(951782400)), "2000-02-29 00:00:00");
    assert_eq!(format_date(Timestamp::from_secs(1704067199)), "2023-12-31 23:59:59");
    assert_eq!(format_date(Timestamp::from_secs(3155760000)), "2070-01-01 00:00:00");
    assert_eq!(format_date(Timestamp::from_secs(4107542400)), "2100-03-01 00:00:00");
    assert_eq!(format_date(Timestamp::from_secs(253402300799)), "9999-12-31 23:59:59");
    assert_eq!(format_date(Timestamp::from_secs(253402300800)), "10000-01-01 00:00:00");
    assert_eq!(format_date(Timestamp::from_secs(-1)), "Unknown date");
    assert_eq!(format_date(Timestamp { secs: -1, nanos: 500_000_000 }), "Unknown date");
}
