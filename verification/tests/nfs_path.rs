use nfs3_client::nfs3_types::portmap::PMAP_PORT;
use terrasync::nfs::parse_nfs_path;

#[test]
fn test_nfs_url_format_basic() {
    let result = parse_nfs_path("nfs://server/path").unwrap();
    assert_eq!(result, ("server".to_string(), PMAP_PORT, "/path".to_string()));
}

#[test]
fn test_nfs_url_format_with_port() {
    let result = parse_nfs_path("nfs://server:2049/path").unwrap();
    assert_eq!(result, ("server".to_string(), 2049, "/path".to_string()));
}

#[test]
fn test_nfs_url_format_with_subpath() {
    let result = parse_nfs_path("nfs://192.168.1.100/home/user/data").unwrap();
    assert_eq!(
        result,
        (
            "192.168.1.100".to_string(),
            PMAP_PORT,
            "/home/user/data".to_string()
        )
    );
}

#[test]
fn test_nfs_url_format_with_port_and_complex_path() {
    let result = parse_nfs_path("nfs://my-server:1234/mnt/nfs/share/data").unwrap();
    assert_eq!(
        result,
        (
            "my-server".to_string(),
            1234,
            "/mnt/nfs/share/data".to_string()
        )
    );
}

#[test]
fn test_nfs_url_format_root_path() {
    let result = parse_nfs_path("nfs://server/").unwrap();
    assert_eq!(result, ("server".to_string(), PMAP_PORT, "/".to_string()));
}

#[test]
fn test_nfs_url_format_with_spaces() {
    let result = parse_nfs_path("  nfs://server:2049/path  ").unwrap();
    assert_eq!(result, ("server".to_string(), 2049, "/path".to_string()));
}

#[test]
fn test_traditional_format_server_port_path() {
    let result = parse_nfs_path("server:2049:/path").unwrap();
    assert_eq!(result, ("server".to_string(), 2049, "/path".to_string()));
}

#[test]
fn test_traditional_format_server_path() {
    let result = parse_nfs_path("server:/path").unwrap();
    assert_eq!(result, ("server".to_string(), PMAP_PORT, "/path".to_string()));
}

#[test]
fn test_traditional_format_server_only() {
    let result = parse_nfs_path("server").unwrap();
    assert_eq!(result, ("server".to_string(), PMAP_PORT, "/".to_string()));
}

#[test]
fn test_traditional_format_complex_path() {
    let result = parse_nfs_path("192.168.1.100:2049:/mnt/nfs/data/share").unwrap();
    assert_eq!(
        result,
        (
            "192.168.1.100".to_string(),
            2049,
            "/mnt/nfs/data/share".to_string()
        )
    );
}

#[test]
fn test_traditional_format_path_with_colon() {
    let result = parse_nfs_path("server:2049:/path:with:colons").unwrap();
    assert_eq!(
        result,
        ("server".to_string(), 2049, "/path:with:colons".to_string())
    );
}

#[test]
fn test_traditional_format_with_spaces() {
    let result = parse_nfs_path("  server  :  2049  :  /path  ").unwrap();
    assert_eq!(result, ("server".to_string(), 2049, "/path".to_string()));
}

#[test]
fn test_relative_path_normalization() {
    let result = parse_nfs_path("server:path").unwrap();
    assert_eq!(result, ("server".to_string(), PMAP_PORT, "/path".to_string()));
}

#[test]
fn test_relative_path_normalization_with_port() {
    let result = parse_nfs_path("server:1234:relative/path").unwrap();
    assert_eq!(
        result,
        ("server".to_string(), 1234, "/relative/path".to_string())
    );
}

#[test]
#[should_panic]
fn test_empty_string() {
    parse_nfs_path("").unwrap();
}

#[test]
#[should_panic]
fn test_whitespace_only() {
    parse_nfs_path("   ").unwrap();
}

#[test]
#[should_panic]
fn test_nfs_url_missing_path() {
    parse_nfs_path("nfs://server").unwrap();
}

#[test]
#[should_panic]
fn test_nfs_url_empty_server() {
    parse_nfs_path("nfs://:2049/path").unwrap();
}

#[test]
#[should_panic]
fn test_nfs_url_invalid_port() {
    parse_nfs_path("nfs://server:invalid/path").unwrap();
}

#[test]
#[should_panic]
fn test_traditional_empty_server() {
    parse_nfs_path(":2049:/path").unwrap();
}

#[test]
#[should_panic]
fn test_traditional_invalid_port() {
    parse_nfs_path("server:invalid:/path").unwrap();
}

#[test]
#[should_panic]
fn test_traditional_empty_path() {
    parse_nfs_path("server:2049:").unwrap();
}

#[test]
#[should_panic]
fn test_traditional_server_only_empty() {
    parse_nfs_path(":").unwrap();
}

#[test]
#[should_panic]
fn test_server_path_empty_path() {
    parse_nfs_path("server:").unwrap();
}

#[test]
fn test_ipv4_address() {
    let result = parse_nfs_path("nfs://192.168.1.1/path").unwrap();
    assert_eq!(
        result,
        ("192.168.1.1".to_string(), PMAP_PORT, "/path".to_string())
    );
}

#[test]
fn test_ipv6_address_like() {
    let result = parse_nfs_path("nfs://ipv6-server:2049/path").unwrap();
    assert_eq!(result, ("ipv6-server".to_string(), 2049, "/path".to_string()));
}

#[test]
fn test_max_port_number() {
    let result = parse_nfs_path("nfs://server:65535/path").unwrap();
    assert_eq!(result, ("server".to_string(), 65535, "/path".to_string()));
}

#[test]
fn test_min_port_number() {
    let result = parse_nfs_path("nfs://server:0/path").unwrap();
    assert_eq!(result, ("server".to_string(), 0, "/path".to_string()));
}

#[test]
fn test_very_long_path() {
    let long_path = "a".repeat(1000);
    let input = format!("nfs://server/{}", long_path);
    let result = parse_nfs_path(&input).unwrap();
    assert_eq!(result.0, "server");
    assert_eq!(result.1, PMAP_PORT);
    assert!(result.2.len() > 1000);
}

#[test]
fn test_docker_nfs_example() {
    let result = parse_nfs_path("nfs://nfs-server/var/nfs").unwrap();
    assert_eq!(
        result,
        ("nfs-server".to_string(), PMAP_PORT, "/var/nfs".to_string())
    );
}

#[test]
fn test_kubernetes_nfs_example() {
    let result = parse_nfs_path("nfs://10.0.0.100:2049/export/data").unwrap();
    assert_eq!(
        result,
        ("10.0.0.100".to_string(), 2049, "/export/data".to_string())
    );
}

#[test]
fn test_aws_efs_example() {
    let result = parse_nfs_path("fs-12345.efs.us-east-1.amazonaws.com:/").unwrap();
    assert_eq!(
        result,
        (
            "fs-12345.efs.us-east-1.amazonaws.com".to_string(),
            PMAP_PORT,
            "/".to_string()
        )
    );
}

#[test]
fn test_port_out_of_range_rejected() {
    assert!(parse_nfs_path("nfs://server:65536/path").is_err());
}

#[test]
fn test_time_pair_round_trip() {
    let nanos = terrasync::nfs::from_secs_nsecs_to_nsecs(12, 345).unwrap();
    assert_eq!(nanos, 12_000_000_345);
    assert_eq!(terrasync::nfs::from_nanos_to_secs_nsecs(nanos), Some((12, 345)));
    assert_eq!(terrasync::nfs::from_nanos_to_secs_nsecs(-1), None);
}
