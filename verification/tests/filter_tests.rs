use terrasync::filter::{
    evaluate_filter, parse_filter_expression, DayValue, FilterCondition, FilterParseError,
};

#[test]
fn test_parse_name_equals() {
    let expr = parse_filter_expression("name==\"test.txt\"").unwrap();
    assert_eq!(expr.conditions.len(), 1);
    match &expr.conditions[0] {
        FilterCondition::Name { operator, value } => {
            assert_eq!(operator, "==");
            assert_eq!(value, "test.txt");
        }
        _ => panic!("Expected Name condition"),
    }
}

#[test]
fn test_parse_type_condition() {
    let expr = parse_filter_expression("type==\"file\"").unwrap();
    assert_eq!(expr.conditions.len(), 1);
    match &expr.conditions[0] {
        FilterCondition::Type { operator, value } => {
            assert_eq!(operator, "==");
            assert_eq!(value, "file");
        }
        _ => panic!("Expected Type condition"),
    }
}

#[test]
fn test_parse_modified_condition() {
    let expr = parse_filter_expression("modified<0.5").unwrap();
    assert_eq!(expr.conditions.len(), 1);
    match &expr.conditions[0] {
        FilterCondition::Modified { operator, value } => {
            assert_eq!(operator, "<");
            assert_eq!(*value, DayValue { num: 5, pow10: 1 });
        }
        _ => panic!("Expected Modified condition"),
    }
}

#[test]
fn test_evaluate_filter() {
    let expr = parse_filter_expression("name==\"test.txt\" and type==file").unwrap();

    assert!(evaluate_filter(
        &expr,
        "test.txt",
        "/path/test.txt",
        "file",
        0,
        100,
        "txt"
    ));

    assert!(!evaluate_filter(
        &expr,
        "other.txt",
        "/path/other.txt",
        "file",
        0,
        100,
        "txt"
    ));

    assert!(!evaluate_filter(
        &expr,
        "test.txt",
        "/path/test.txt",
        "dir",
        0,
        100,
        "txt"
    ));
}

#[test]
fn test_path_conditions() {
    let expr = parse_filter_expression("path contains \"netapp\"").unwrap();

    assert!(evaluate_filter(
        &expr,
        "file.txt",
        "/netapp/data/file.txt",
        "file",
        0,
        100,
        "txt"
    ));

    assert!(!evaluate_filter(
        &expr,
        "file.txt",
        "/local/data/file.txt",
        "file",
        0,
        100,
        "txt"
    ));
}

#[test]
fn test_like_operator() {
    let expr = parse_filter_expression("name like \"%.txt\"").unwrap();
    assert!(evaluate_filter(
        &expr,
        "document.txt",
        "/path/document.txt",
        "file",
        0,
        100,
        "txt"
    ));

    let expr = parse_filter_expression("name like \"doc%.txt\"").unwrap();
    assert!(evaluate_filter(
        &expr,
        "document.txt",
        "/path/document.txt",
        "file",
        0,
        100,
        "txt"
    ));

    let expr = parse_filter_expression("name like \"%document%\"").unwrap();
    assert!(evaluate_filter(
        &expr,
        "my_document.txt",
        "/path/my_document.txt",
        "file",
        0,
        100,
        "txt"
    ));
}

#[test]
fn test_in_operator() {
    let expr = parse_filter_expression("\"netapp\" in name").unwrap();

    assert!(evaluate_filter(
        &expr,
        "netapp_config.txt",
        "/path/netapp_config.txt",
        "file",
        0,
        100,
        "txt"
    ));

    assert!(!evaluate_filter(
        &expr,
        "config.txt",
        "/path/config.txt",
        "file",
        0,
        100,
        "txt"
    ));
}

// `like` patterns over `my_document.txt`: suffix, missing prefix,
// two-sided and infix wildcards.
#[test]
fn test_like_patterns_on_one_name() {
    let name = "my_document.txt";
    let path = "/p/my_document.txt";

    let expr = parse_filter_expression("name like \"%.txt\"").unwrap();
    assert!(evaluate_filter(&expr, name, path, "file", 0, 1, "txt"));

    let expr = parse_filter_expression("name like \"doc%.txt\"").unwrap();
    assert!(!evaluate_filter(&expr, name, path, "file", 0, 1, "txt"));

    let expr = parse_filter_expression("name like \"%document%\"").unwrap();
    assert!(evaluate_filter(&expr, name, path, "file", 0, 1, "txt"));

    let expr = parse_filter_expression("name like \"my%txt\"").unwrap();
    assert!(evaluate_filter(&expr, name, path, "file", 0, 1, "txt"));
}

// A name equality matches only the exact name, case included.
#[test]
fn test_name_equality_is_case_sensitive() {
    let expr = parse_filter_expression("name == \"x\"").unwrap();
    assert!(evaluate_filter(&expr, "x", "/x", "file", 0, 1, ""));
    assert!(!evaluate_filter(&expr, "X", "/X", "file", 0, 1, ""));
    assert!(!evaluate_filter(&expr, "x ", "/x ", "file", 0, 1, ""));
}

// `like` matching is case-sensitive.
#[test]
fn test_like_is_case_sensitive() {
    let expr = parse_filter_expression("name like \"%.txt\"").unwrap();
    assert!(evaluate_filter(&expr, "a.txt", "/a.txt", "file", 0, 1, "txt"));
    assert!(!evaluate_filter(&expr, "a.TXT", "/a.TXT", "file", 0, 1, "txt"));
}

// `modified < 0.5` holds exactly below twelve hours of age.
#[test]
fn test_modified_half_day_boundary() {
    let expr = parse_filter_expression("modified < 0.5").unwrap();
    let half_day_ms: u64 = 43_200_000;
    assert!(evaluate_filter(&expr, "a", "/a", "file", half_day_ms - 1, 1, ""));
    assert!(!evaluate_filter(&expr, "a", "/a", "file", half_day_ms, 1, ""));
    assert!(!evaluate_filter(&expr, "a", "/a", "file", half_day_ms + 1, 1, ""));
}

// `size >= 1024` matches exactly at 1024 bytes.
#[test]
fn test_size_boundary() {
    let expr = parse_filter_expression("size >= 1024").unwrap();
    assert!(!evaluate_filter(&expr, "a", "/a", "file", 0, 1023, ""));
    assert!(evaluate_filter(&expr, "a", "/a", "file", 0, 1024, ""));
    assert!(evaluate_filter(&expr, "a", "/a", "file", 0, 1025, ""));
}

#[test]
fn test_bad_size_value_is_invalid_number() {
    assert_eq!(
        parse_filter_expression("size >= horse").unwrap_err(),
        FilterParseError::InvalidNumber
    );
    assert_eq!(
        parse_filter_expression("modified < yesterday").unwrap_err(),
        FilterParseError::InvalidNumber
    );
}

#[test]
fn test_unrecognized_condition_is_error() {
    assert_eq!(
        parse_filter_expression("flavour == vanilla").unwrap_err(),
        FilterParseError::UnrecognizedCondition
    );
}

#[test]
fn test_empty_expression_has_no_conditions() {
    let expr = parse_filter_expression("").unwrap();
    assert_eq!(expr.conditions.len(), 0);
    assert!(evaluate_filter(&expr, "anything", "/anything", "file", 0, 0, ""));
}

#[test]
fn test_conjunction_parses_both_conditions() {
    let expr = parse_filter_expression("size >= 10 and extension != \"bin\"").unwrap();
    assert_eq!(expr.conditions.len(), 2);
    assert!(evaluate_filter(&expr, "a.txt", "/a.txt", "file", 0, 10, "txt"));
    assert!(!evaluate_filter(&expr, "a.bin", "/a.bin", "file", 0, 10, "bin"));
    assert!(!evaluate_filter(&expr, "a.txt", "/a.txt", "file", 0, 9, "txt"));
}

// Round trip: rendering an expression back to text and reparsing it
// preserves what it matches, across a batch of probe entries.
#[test]
fn test_round_trip_preserves_semantics() {
    let sources = [
        "name == \"a.txt\"",
        "name != \"a.txt\"",
        "name like \"%.txt\"",
        "name starts with \"my\"",
        "name ends with \".log\"",
        "name contains \"doc\"",
        "\"ntap\" in name",
        "path contains \"/tmp/\"",
        "type == file",
        "modified < 0.5",
        "modified >= 2.25",
        "size >= 1024",
        "size < 10",
        "extension != \"bin\"",
        "extension like \"t%t\"",
        "modified < 0.5 and type == file and size >= 8",
    ];
    let probes = [
        ("a.txt", "/tmp/a.txt", "file", 0u64, 8u64, "txt"),
        ("a.TXT", "/x/a.TXT", "file", 43_200_000, 1024, "txt"),
        ("my_document.txt", "/d/my_document.txt", "file", 1, 2048, "txt"),
        ("b.log", "/var/b.log", "file", 200_000_000, 9, "log"),
        ("ntap_cfg", "/etc/ntap_cfg", "file", 10, 10, ""),
        ("d", "/tmp/d", "dir", 0, 0, ""),
        ("a.bin", "/a.bin", "file", 50_000_000, 1023, "bin"),
    ];
    for src in sources.iter() {
        let parsed = parse_filter_expression(src).unwrap();
        let text = terrasync::filter::expression_text(&parsed.conditions).unwrap();
        let reparsed = parse_filter_expression(&text).unwrap();
        for (name, path, ftype, age, size, ext) in probes.iter() {
            let a = evaluate_filter(&parsed, name, path, ftype, *age, *size, ext);
            let b = evaluate_filter(&reparsed, name, path, ftype, *age, *size, ext);
            assert_eq!(a, b);
        }
    }
}

#[test]
fn test_single_quoted_values() {
    let expr = parse_filter_expression("name == 'a b.txt'").unwrap();
    assert!(evaluate_filter(&expr, "a b.txt", "/a b.txt", "file", 0, 1, "txt"));
}

#[test]
fn test_parse_error_messages() {
    assert_eq!(
        FilterParseError::UnrecognizedCondition.message(),
        "unrecognized filter condition"
    );
    assert_eq!(
        FilterParseError::InvalidNumber.message(),
        "invalid numeric value in filter condition"
    );
}

// Day counts accept bare fractions and trailing points; fractional
// digits beyond nine are cut off.
#[test]
fn test_day_count_edges() {
    let expr = parse_filter_expression("modified < .5").unwrap();
    match &expr.conditions[0] {
        FilterCondition::Modified { value, .. } => {
            assert_eq!(*value, DayValue { num: 5, pow10: 1 })
        }
        _ => panic!("Expected Modified condition"),
    }
    let expr = parse_filter_expression("modified < 2.").unwrap();
    match &expr.conditions[0] {
        FilterCondition::Modified { value, .. } => {
            assert_eq!(*value, DayValue { num: 2, pow10: 0 })
        }
        _ => panic!("Expected Modified condition"),
    }
    let expr = parse_filter_expression("modified < 0.1234567891").unwrap();
    match &expr.conditions[0] {
        FilterCondition::Modified { value, .. } => {
            assert_eq!(*value, DayValue { num: 123456789, pow10: 9 })
        }
        _ => panic!("Expected Modified condition"),
    }
    assert_eq!(
        parse_filter_expression("modified < 1.2.3").unwrap_err(),
        FilterParseError::InvalidNumber
    );
}

// A size value beyond the unsigned 64-bit range is a bad number.
#[test]
fn test_size_overflow_rejected() {
    assert_eq!(
        parse_filter_expression("size >= 99999999999999999999999").unwrap_err(),
        FilterParseError::InvalidNumber
    );
    let expr = parse_filter_expression("size >= 18446744073709551615").unwrap();
    match &expr.conditions[0] {
        FilterCondition::Size { value, .. } => assert_eq!(*value, u64::MAX),
        _ => panic!("Expected Size condition"),
    }
}

// The first failing expression decides the error for a whole list.
#[test]
fn test_parse_expressions_first_error() {
    let exprs = vec!["type==file".to_string(), "size >= oops".to_string()];
    assert_eq!(
        terrasync::filter::parse_expressions(&exprs).unwrap_err(),
        FilterParseError::InvalidNumber
    );
    let good = vec!["type==file".to_string(), "size >= 1".to_string()];
    assert_eq!(terrasync::filter::parse_expressions(&good).unwrap().len(), 2);
}
