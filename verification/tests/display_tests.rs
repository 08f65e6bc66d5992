use terrasync::stats::ScanStats;

#[test]
fn test_display_format() {
    let mut stats = ScanStats::default();

    stats.total_files = 425;
    stats.total_dirs = 230;
    stats.total_size = 34856960; // 33.24 MiB
    stats.total_name_length = 21750;
    stats.max_name_length = 50;
    stats.total_dir_depth = 460;
    stats.max_dir_depth = 5;

    println!("{}", stats.format_report());
}

#[test]
fn test_report_values() {
    let mut stats = ScanStats::default();
    stats.total_files = 425;
    stats.total_dirs = 230;
    stats.total_size = 34856960;
    stats.total_name_length = 21750;
    stats.max_name_length = 50;
    stats.total_dir_depth = 460;
    stats.max_dir_depth = 5;
    let report = stats.format_report();
    assert!(report.contains("33.24 MiB"));
    assert!(report.contains("655")); // total items
    assert!(report.contains("Scan Statistics"));
}

#[test]
fn test_format_bytes_units() {
    assert_eq!(terrasync::stats::format_bytes(0), "0 B");
    assert_eq!(terrasync::stats::format_bytes(1023), "1023 B");
    assert_eq!(terrasync::stats::format_bytes(1024), "1.00 KiB");
    assert_eq!(terrasync::stats::format_bytes(1536), "1.50 KiB");
    assert_eq!(terrasync::stats::format_bytes(34856960), "33.24 MiB");
    assert_eq!(terrasync::stats::format_bytes(1099511627776), "1.00 TiB");
}

#[test]
fn test_merge_from_keeps_maxima() {
    let mut a = ScanStats::default();
    a.max_name_length = 9;
    a.max_dir_depth = 4;
    let mut b = ScanStats::default();
    b.total_files = 7;
    b.max_name_length = 3;
    b.max_dir_depth = 6;
    a.merge_from(&b);
    assert_eq!(a.total_files, 7);
    assert_eq!(a.max_name_length, 9);
    assert_eq!(a.max_dir_depth, 6);
}
