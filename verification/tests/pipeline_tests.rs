use terrasync::consumer::{
    enabled_sinks, ConsoleConsumer, ConsumerConfig, DatabaseConsumer, KafkaConsumer, LogConsumer,
    SinkKind,
};
use terrasync::db;
use terrasync::filter::parse_filter_expression;
use terrasync::local::{walk_model, FsNode, LocalStorage};
use terrasync::scan::{
    build_scan_messages, process_entry, ConsumerConfig as RunConfig, ScanMessage, ScanParams,
    ScanType,
};
use terrasync::stats::{count_entry, ScanStats, StatsCalculator};
use terrasync::storage::{create_storage, get_relative_path, StorageEntry, StorageType};

fn file(name: &str, size: u64) -> FsNode {
    FsNode {
        name: name.to_string(),
        is_dir: false,
        is_symlink: false,
        size,
        modified: Some(0),
        mode: Some(0o644),
        children: Vec::new(),
    }
}

fn dir(name: &str, children: Vec<FsNode>) -> FsNode {
    FsNode {
        name: name.to_string(),
        is_dir: true,
        is_symlink: false,
        size: 0,
        modified: Some(0),
        mode: Some(0o755),
        children,
    }
}

/// The tree of the end-to-end scenarios: files `a.txt` (8 bytes) and
/// `b.log` (9 bytes), and a subdirectory `d/` holding `c.txt`.
fn scenario_tree() -> FsNode {
    dir(
        "root",
        vec![file("a.txt", 8), file("b.log", 9), dir("d", vec![file("c.txt", 3)])],
    )
}

fn run_scenario(
    matches: &[&str],
    excludes: &[&str],
    depth: usize,
) -> (Vec<String>, ScanStats) {
    let tree = scenario_tree();
    let storage = LocalStorage::new("/base/root".to_string());
    let entries = walk_model(&storage, &tree, depth);
    let ms: Vec<_> = matches
        .iter()
        .map(|e| parse_filter_expression(e).unwrap())
        .collect();
    let xs: Vec<_> = excludes
        .iter()
        .map(|e| parse_filter_expression(e).unwrap())
        .collect();
    let mut kept_paths = Vec::new();
    let mut stats = ScanStats::default();
    for entry in entries {
        let is_dir = entry.is_dir;
        match process_entry(entry, 1_000, &ms, &xs) {
            Some(entity) => {
                count_entry(&mut stats, is_dir, true);
                kept_paths.push(entity.relative_path.clone());
            }
            None => {
                count_entry(&mut stats, is_dir, false);
            }
        }
    }
    (kept_paths, stats)
}

// Local flat scenario: matching `%.txt` keeps `a.txt` and `d/c.txt`;
// the totals still count every walked entry.
#[test]
fn test_scenario_local_flat() {
    let (kept, stats) = run_scenario(&["name like \"%.txt\""], &[], 0);
    assert_eq!(kept, vec!["a.txt".to_string(), "d/c.txt".to_string()]);
    assert_eq!(stats.total_files, 3);
    assert_eq!(stats.total_dirs, 2);
    assert_eq!(stats.matched_files, 2);
    assert_eq!(stats.matched_dirs, 0);
}

// Exclude wins: matching files but excluding `%.log` keeps the two
// text files only.
#[test]
fn test_scenario_exclude_wins() {
    let (kept, _) = run_scenario(&["type==file"], &["name like \"%.log\""], 0);
    assert_eq!(kept, vec!["a.txt".to_string(), "d/c.txt".to_string()]);
}

// Depth 1 lists only the top level: `d/c.txt` is not walked.
#[test]
fn test_scenario_depth_limit() {
    let (kept, _) = run_scenario(&[], &[], 1);
    assert_eq!(
        kept,
        vec![
            "".to_string(),
            "a.txt".to_string(),
            "b.log".to_string(),
            "d".to_string()
        ]
    );
}

// A scan over an empty directory yields no results, and the run is
// still a well-formed `Config` .. `Complete` stream.
#[test]
fn test_scenario_empty_directory() {
    let tree = dir("root", Vec::new());
    let storage = LocalStorage::new("/base/root".to_string());
    let entries = walk_model(&storage, &tree, 0);
    // only the root itself is walked; it is not a file result
    assert_eq!(entries.len(), 1);
    let results = Vec::new();
    let config = RunConfig {
        scan_config: terrasync::scan::ScanConfig {
            params: ScanParams::default(),
            expressions: Vec::new(),
            exclude_expressions: Vec::new(),
        },
        job_id: "job".to_string(),
        database: db::DatabaseConfig::default(),
    };
    let messages = build_scan_messages(config, results);
    assert_eq!(messages.len(), 2);
    assert!(matches!(messages[0], ScanMessage::Config(_)));
    assert!(matches!(messages[1], ScanMessage::Complete));
}

// The message stream of a run: one Config first, one Complete last,
// and a Result per surviving entry in between.
#[test]
fn test_message_stream_shape() {
    let (_, _) = run_scenario(&[], &[], 0);
    let tree = scenario_tree();
    let storage = LocalStorage::new("/r".to_string());
    let entries = walk_model(&storage, &tree, 0);
    let mut results = Vec::new();
    for entry in entries {
        if let Some(e) = process_entry(entry, 0, &Vec::new(), &Vec::new()) {
            results.push(e);
        }
    }
    let n = results.len();
    assert_eq!(n, 5);
    let config = RunConfig {
        scan_config: terrasync::scan::ScanConfig {
            params: ScanParams::default(),
            expressions: Vec::new(),
            exclude_expressions: Vec::new(),
        },
        job_id: "job".to_string(),
        database: db::DatabaseConfig::default(),
    };
    let messages = build_scan_messages(config, results);
    assert_eq!(messages.len(), n + 2);
    assert!(matches!(messages[0], ScanMessage::Config(_)));
    for i in 1..=n {
        assert!(matches!(messages[i], ScanMessage::Result(_)));
    }
    assert!(matches!(messages[n + 1], ScanMessage::Complete));
}

// An entry with backslash separators comes out normalized, and its
// relative path still ends its full path; a directory is never also a
// symlink.
#[test]
fn test_entry_normalization_invariants() {
    let entry = StorageEntry {
        name: "c.txt".to_string(),
        path: "C:\\data\\d\\c.txt".to_string(),
        relative_path: "d\\c.txt".to_string(),
        is_dir: false,
        is_symlink: false,
        size: 3,
        modified: Some(10),
        accessed: Some(11),
        created: Some(12),
        nfs_fh: None,
        mode: Some(0o644),
        hard_links: Some(1),
    };
    let entity = process_entry(entry, 20, &Vec::new(), &Vec::new()).unwrap();
    assert_eq!(entity.file_path, "C:/data/d/c.txt");
    assert_eq!(entity.relative_path, "d/c.txt");
    assert!(!entity.file_path.contains('\\'));
    assert!(entity.file_path.ends_with(&entity.relative_path));
    assert!(!(entity.is_dir && entity.is_symlink));
    assert_eq!(entity.extension.as_deref(), Some("txt"));
    assert_eq!(entity.permissions.as_deref(), Some("rw-r--r--"));
}

// The extension is the lower-cased text after the final component's
// last dot; hidden files have none.
#[test]
fn test_extension_rules() {
    assert_eq!(terrasync::scan::extension_of("/a/b/report.TXT"), "txt");
    assert_eq!(terrasync::scan::extension_of("/a/b/archive.tar.gz"), "gz");
    assert_eq!(terrasync::scan::extension_of("/a/b/.hidden"), "");
    assert_eq!(terrasync::scan::extension_of("/a/b/nodot"), "");
    assert_eq!(terrasync::scan::extension_of("/a/v1.2/nodot"), "");
}

// Job ids are sanitized to word characters; sanitizing twice changes
// nothing more.
#[test]
fn test_sanitize_job_id() {
    let s = terrasync::sanitize_job_id("job-1.2 a/b\\c");
    assert_eq!(s, "job_1_2_a_b_c");
    assert_eq!(terrasync::sanitize_job_id(&s), s);
    assert!(s.chars().all(|c| c.is_ascii_alphanumeric() || c == '_'));
}

// Per-job table names embed the job id; the staging name embeds a
// fresh UUID with its hyphens replaced.
#[test]
fn test_table_names() {
    assert_eq!(db::get_scan_base_table_name("job_7"), "scan_base_job_7");
    assert_eq!(db::get_scan_state_table_name("job_7"), "scan_state_job_7");
    let t = db::generate_scan_temp_table_name();
    assert!(t.starts_with("scan_temp_"));
    assert_eq!(t.len(), "scan_temp_".len() + 36);
    assert!(!t.contains('-'));
    let u = db::generate_scan_temp_table_name();
    assert_ne!(t, u);
}

// The run-state marker flips between 0 and 1.
#[test]
fn test_switched_state() {
    assert_eq!(db::switched_state(0), 1);
    assert_eq!(db::switched_state(1), 0);
}

// Flattening an entity: times become seconds, the permissions text is
// read as octal (or 0), and a non-directory is a regular file.
#[test]
fn test_record_conversion() {
    let entity = terrasync::scan::StorageEntity {
        file_name: "a.txt".to_string(),
        file_path: "/r/a.txt".to_string(),
        relative_path: "a.txt".to_string(),
        extension: Some("txt".to_string()),
        is_dir: false,
        is_symlink: false,
        size: 8,
        atime: Some(3_500),
        ctime: Some(-2),
        mtime: None,
        mode: Some(0o644),
        permissions: Some("644".to_string()),
        hard_links: Some(1),
    };
    let rec = db::to_file_scan_record(&entity);
    assert_eq!(rec.path, "/r/a.txt");
    assert_eq!(rec.atime, 3);
    assert_eq!(rec.ctime, 0);
    assert_eq!(rec.mtime, 0);
    assert_eq!(rec.perm, 0o644);
    assert!(rec.is_regular_file);
    assert!(!rec.is_dir);
    assert_eq!(rec.current_state, 0);

    // the pipeline's rwx text is not octal, so it reads as 0
    let mut entity2 = entity.clone();
    entity2.permissions = Some("rw-r--r--".to_string());
    assert_eq!(db::to_file_scan_record(&entity2).perm, 0);
}

// The database sink flushes once per full batch and once for the
// remainder: 200 010 records at a batch size of 200 000 insert
// exactly twice, 200 000 and then 10 rows.
#[test]
fn test_database_flush_on_completion() {
    let mut sink = DatabaseConsumer::new();
    let config = RunConfig {
        scan_config: terrasync::scan::ScanConfig {
            params: ScanParams::default(),
            expressions: Vec::new(),
            exclude_expressions: Vec::new(),
        },
        job_id: "flush-job".to_string(),
        database: db::DatabaseConfig::default(),
    };
    sink.on_config(&config, true);
    assert_eq!(sink.batch_size, 200_000);
    let entity = terrasync::scan::StorageEntity {
        file_name: "a".to_string(),
        file_path: "/a".to_string(),
        relative_path: "a".to_string(),
        extension: None,
        is_dir: false,
        is_symlink: false,
        size: 1,
        atime: None,
        ctime: None,
        mtime: None,
        mode: None,
        permissions: None,
        hard_links: None,
    };
    let mut flushes = Vec::new();
    for _ in 0..200_010u32 {
        if let Some(batch) = sink.on_result(&entity) {
            flushes.push(batch.len());
        }
    }
    if let Some(rest) = sink.on_complete() {
        flushes.push(rest.len());
    }
    assert_eq!(flushes, vec![200_000, 10]);
}

// A sink that never became ready ignores results and flushes nothing.
#[test]
fn test_database_sink_stays_idle() {
    let mut sink = DatabaseConsumer::new();
    let config = RunConfig {
        scan_config: terrasync::scan::ScanConfig {
            params: ScanParams::default(),
            expressions: Vec::new(),
            exclude_expressions: Vec::new(),
        },
        job_id: "j".to_string(),
        database: db::DatabaseConfig::default(),
    };
    sink.on_config(&config, false);
    let entity = terrasync::scan::StorageEntity {
        file_name: "a".to_string(),
        file_path: "/a".to_string(),
        relative_path: "a".to_string(),
        extension: None,
        is_dir: false,
        is_symlink: false,
        size: 1,
        atime: None,
        ctime: None,
        mtime: None,
        mode: None,
        permissions: None,
        hard_links: None,
    };
    assert!(sink.on_result(&entity).is_none());
    assert!(sink.on_complete().is_none());
}

// The console sink accumulates the scenario's statistics.
#[test]
fn test_console_sink_counts() {
    let tree = scenario_tree();
    let storage = LocalStorage::new("/base/root".to_string());
    let entries = walk_model(&storage, &tree, 0);
    let mut console = ConsoleConsumer::new();
    let config = RunConfig {
        scan_config: terrasync::scan::ScanConfig {
            params: ScanParams::default(),
            expressions: Vec::new(),
            exclude_expressions: Vec::new(),
        },
        job_id: "job".to_string(),
        database: db::DatabaseConfig::default(),
    };
    console.on_config(&config, "/tmp/scan.log");
    for entry in entries {
        if let Some(e) = process_entry(entry, 0, &Vec::new(), &Vec::new()) {
            console.on_result(&e);
        }
    }
    let report = console.on_complete("0.10s", "/tmp/scan.log");
    assert_eq!(console.stats.total_files, 3);
    assert_eq!(console.stats.total_dirs, 2);
    assert_eq!(console.stats.total_size, 20);
    assert!(report.contains("Files:"));
    assert!(report.contains("20 B"));
}

// The log and event-bus sinks count results and stop on completion.
#[test]
fn test_simple_sinks() {
    let entity = terrasync::scan::StorageEntity {
        file_name: "a".to_string(),
        file_path: "/a".to_string(),
        relative_path: "a".to_string(),
        extension: None,
        is_dir: false,
        is_symlink: false,
        size: 1,
        atime: None,
        ctime: None,
        mtime: None,
        mode: None,
        permissions: None,
        hard_links: None,
    };
    let mut log = LogConsumer::new();
    log.on_message(&ScanMessage::Result(entity.clone()));
    log.on_message(&ScanMessage::Result(entity.clone()));
    log.on_message(&ScanMessage::Complete);
    assert_eq!(log.seen_results, 2);
    assert!(log.done);

    let mut kafka = KafkaConsumer::new();
    assert!(kafka.on_message(&ScanMessage::Result(entity)));
    assert!(!kafka.on_message(&ScanMessage::Complete));
    assert_eq!(kafka.forwarded, 1);
    assert!(kafka.done);
}

// Sink registration order: optional sinks first, console always last.
#[test]
fn test_enabled_sinks() {
    let sinks = enabled_sinks(&ConsumerConfig::enable_consumer(true, false));
    assert_eq!(sinks, vec![SinkKind::Database, SinkKind::Console]);
    let all = enabled_sinks(&ConsumerConfig::all_enabled());
    assert_eq!(
        all,
        vec![SinkKind::Log, SinkKind::Database, SinkKind::Kafka, SinkKind::Console]
    );
    let none = enabled_sinks(&ConsumerConfig::default());
    assert_eq!(none, vec![SinkKind::Console]);
}

// Storage dispatch: nfs and s3 prefixes pick their backends, anything
// else is local.
#[test]
fn test_create_storage_dispatch() {
    match create_storage("nfs://host:2049/exp/x").unwrap() {
        StorageType::NFS(n) => {
            assert_eq!(n.server_ip(), "host");
            assert_eq!(n.portmapper_port(), 2049);
            assert_eq!(n.path(), "/exp/x");
        }
        _ => panic!("expected the NFS backend"),
    }
    match create_storage("s3://bucket/prefix").unwrap() {
        StorageType::S3(s) => {
            assert_eq!(s.bucket(), "bucket");
        }
        _ => panic!("expected the S3 backend"),
    }
    match create_storage("/plain/dir").unwrap() {
        StorageType::Local(l) => {
            assert_eq!(l.get_root(), "/plain/dir");
        }
        _ => panic!("expected the local backend"),
    }
    assert!(create_storage("nfs://").is_err());
}

// Relative paths strip the base component-wise.
#[test]
fn test_get_relative_path() {
    assert_eq!(get_relative_path("/r/a/b", "/r"), "a/b");
    assert_eq!(get_relative_path("/r", "/r"), "");
    assert_eq!(get_relative_path("/r/a", "/"), "r/a");
    assert_eq!(get_relative_path("/other", "/r"), "/other");
}

// Depth counting and name lengths, against a base path.
#[test]
fn test_stats_calculator() {
    let calc = StatsCalculator::new("/base");
    assert_eq!(calc.calculate_depth("/base/a"), 1);
    assert_eq!(calc.calculate_depth("/base/a/b"), 2);
    assert_eq!(calc.calculate_depth("/base"), 1);
    assert_eq!(calc.get_name_length("/base/abc.txt"), 7);
}

// Permission bits render one flag per bit.
#[test]
fn test_format_permissions() {
    assert_eq!(terrasync::scan::format_permissions(0o644), "rw-r--r--");
    assert_eq!(terrasync::scan::format_permissions(0o755), "rwxr-xr-x");
    assert_eq!(terrasync::scan::format_permissions(0), "---------");
}

// The reproducing command includes each argument that was set.
#[test]
fn test_build_command() {
    let params = ScanParams {
        id: Some("run7".to_string()),
        depth: 2,
        path: "/data".to_string(),
        match_expressions: vec!["type==file".to_string()],
        exclude_expressions: Vec::new(),
        scan_type: ScanType::Full,
    };
    let cmd = ScanStats::build_command(&params);
    assert_eq!(
        cmd,
        "terrasync scan \"/data\" --id \"run7\" --depth 2 --expression \"type==file\""
    );
}

// Sync copies only files with a non-empty relative path, and only
// between local endpoints.
#[test]
fn test_sync_action() {
    let mut entity = terrasync::scan::StorageEntity {
        file_name: "a.txt".to_string(),
        file_path: "/src/a.txt".to_string(),
        relative_path: "a.txt".to_string(),
        extension: Some("txt".to_string()),
        is_dir: false,
        is_symlink: false,
        size: 8,
        atime: None,
        ctime: None,
        mtime: None,
        mode: None,
        permissions: None,
        hard_links: None,
    };
    assert_eq!(
        terrasync::sync::sync_action(&entity, true, true, "/dst"),
        Some("/dst/a.txt".to_string())
    );
    assert_eq!(terrasync::sync::sync_action(&entity, true, false, "/dst"), None);
    entity.relative_path = String::new();
    assert_eq!(terrasync::sync::sync_action(&entity, true, true, "/dst"), None);
}

// ACL probing is switched off: everything is readable with an empty
// ACL.
#[test]
fn test_acl_disabled() {
    assert!(terrasync::acl::is_file_readable("/any/file"));
    let info = terrasync::acl::get_file_acl("/any/file");
    assert_eq!(info.owner, "Disabled");
    assert_eq!(info.group, "Disabled");
    assert!(info.permissions.is_empty());
}

// Sectioned reads stop at the section limit.
#[test]
fn test_section_chunk_len() {
    assert_eq!(terrasync::storage::section_chunk_len(0, 10, 4), 4);
    assert_eq!(terrasync::storage::section_chunk_len(8, 10, 4), 2);
    assert_eq!(terrasync::storage::section_chunk_len(10, 10, 4), 0);
    assert_eq!(terrasync::storage::section_chunk_len(12, 10, 4), 0);
}

// Epoch splits keep the instant: seconds times a billion plus the
// nanoseconds always reproduces the signed total.
#[test]
fn test_split_epoch_duration() {
    assert_eq!(terrasync::storage::split_epoch_duration(5, 250, false), (5, 250));
    assert_eq!(terrasync::storage::split_epoch_duration(5, 0, true), (-5, 0));
    let (s, ns) = terrasync::storage::split_epoch_duration(5, 250, true);
    assert_eq!((s, ns), (-6, 999_999_750));
    assert_eq!(s as i128 * 1_000_000_000 + ns as i128, -5_000_000_250);
}

// The per-job working directory embeds kind and id.
#[test]
fn test_job_dir_name() {
    assert_eq!(terrasync::scan::job_dir_name("scan", "run_7"), "jobs/scan_run_7");
}

// The statement texts embed the per-job table names.
#[test]
fn test_sql_texts() {
    let sql = terrasync::db::create_scan_base_table_sql("j1");
    assert!(sql.starts_with("CREATE TABLE IF NOT EXISTS scan_base_j1 ("));
    assert!(sql.ends_with(") ENGINE = ReplacingMergeTree() ORDER BY (path)"));
    let sql = terrasync::db::create_scan_state_table_sql("j1");
    assert!(sql.contains("scan_state_j1"));
    assert_eq!(
        terrasync::db::drop_table_sql("scan_temp_x"),
        "DROP TABLE IF EXISTS scan_temp_x"
    );
    assert_eq!(
        terrasync::db::query_scan_state_sql("j1"),
        "SELECT origin_state FROM scan_state_j1 FINAL WHERE id = 1"
    );
}

// NFS entry building: type exclusivity, the joined path, link count
// clamping, and the attribute-less fallback.
#[test]
fn test_build_nfs_entry() {
    let attrs = terrasync::nfs::NfsAttrs {
        entry_type: terrasync::nfs::NfsEntryType::Directory,
        size: 4096,
        mtime_s: 10,
        mtime_ns: 500_000_000,
        atime_s: 11,
        atime_ns: 0,
        ctime_s: 12,
        ctime_ns: 0,
        mode: 0o755,
        nlink: 300,
    };
    let e = terrasync::nfs::build_nfs_entry("d".to_string(), "/exp", Some(&attrs));
    assert_eq!(e.path, "/exp/d");
    assert_eq!(e.relative_path, "d");
    assert!(e.is_dir && !e.is_symlink);
    assert_eq!(e.modified, Some(10_500));
    assert_eq!(e.hard_links, Some(255));

    let e = terrasync::nfs::build_nfs_entry("f".to_string(), "/", None);
    assert_eq!(e.path, "/f");
    assert!(!e.is_dir && !e.is_symlink);
    assert_eq!(e.mode, Some(0o644));
    assert_eq!(e.hard_links, Some(1));
}

// The depth rule of the walkers: unbounded at 0, and no descent from
// the last listed level.
#[test]
fn test_should_recurse() {
    assert!(terrasync::nfs::should_recurse(true, 5, 0));
    assert!(!terrasync::nfs::should_recurse(false, 0, 0));
    assert!(!terrasync::nfs::should_recurse(true, 0, 1));
    assert!(terrasync::nfs::should_recurse(true, 0, 2));
    assert!(!terrasync::nfs::should_recurse(true, 1, 2));
}

// The database factory registers the built-in backends and validates
// configurations against them.
#[test]
fn test_database_factory() {
    let mut factory = terrasync::db::DatabaseFactory::new();
    factory.initialize();
    let types: Vec<&str> = factory
        .get_supported_types()
        .iter()
        .map(|s| s.as_str())
        .collect();
    assert_eq!(types, vec!["clickhouse", "sqlite"]);

    let mut cfg = terrasync::db::DatabaseConfig::default();
    assert!(factory.validate(&cfg).is_ok());
    cfg.clickhouse = None;
    assert_eq!(
        factory.validate(&cfg).unwrap_err(),
        terrasync::db::DatabaseConfigError::MissingBackendConfig
    );
    cfg.enabled = false;
    assert_eq!(
        factory.validate(&cfg).unwrap_err(),
        terrasync::db::DatabaseConfigError::Disabled
    );
    cfg.enabled = true;
    cfg.db_type = "oracle".to_string();
    assert_eq!(
        factory.validate(&cfg).unwrap_err(),
        terrasync::db::DatabaseConfigError::UnsupportedType
    );
}
