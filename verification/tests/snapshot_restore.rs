use restore_file_info::fs_util::{file_content_hash, make_file_info, parse_file_listing};
use restore_file_info::table::{
    encode_file_info_csv, parse_file_info_csv, plan_restore, restore_action,
};
use restore_file_info::CacheError;

#[test]
fn fingerprint_of_empty_content() {
    let content: Vec<u8> = vec![];
    assert_eq!(file_content_hash(&content), "14695981039346656037");
}

#[test]
fn fingerprint_of_hello() {
    let content: Vec<u8> = b"hello".to_vec();
    assert_eq!(file_content_hash(&content), "11831194018420276491");
}

#[test]
fn fingerprint_differs_when_content_changes() {
    let a: Vec<u8> = b"hello".to_vec();
    let b: Vec<u8> = b"hello!".to_vec();
    assert_ne!(file_content_hash(&a), file_content_hash(&b));
}

#[test]
fn make_file_info_records_all_attributes() {
    let content: Vec<u8> = b"abc".to_vec();
    let info = make_file_info(String::from("src/lib.rs"), 1700000000, 0o644, &content);
    assert_eq!(info.file, "src/lib.rs");
    assert_eq!(info.mtime_seconds, 1700000000);
    assert_eq!(info.mode, 0o644);
    assert_eq!(info.hash, "16654208175385433931");
}

#[test]
fn encode_produces_exact_table_text() {
    let content: Vec<u8> = b"abc".to_vec();
    let info = make_file_info(String::from("a.txt"), 1000, 420, &content);
    let text = encode_file_info_csv(&vec![info]);
    assert_eq!(
        text,
        "file,mtime_seconds,mode,hash\na.txt,1000,420,16654208175385433931\n"
    );
}

#[test]
fn encode_quotes_a_path_with_comma() {
    let content: Vec<u8> = b"x".to_vec();
    let info = make_file_info(String::from("a,b.txt"), 5, 420, &content);
    let text = encode_file_info_csv(&vec![info]);
    assert!(text.contains("\"a,b.txt\""));
    let parsed = parse_file_info_csv(&text).unwrap();
    assert_eq!(parsed.len(), 1);
    assert_eq!(parsed[0].file, "a,b.txt");
}

#[test]
fn encode_doubles_quotes_inside_a_quoted_path() {
    let content: Vec<u8> = b"x".to_vec();
    let info = make_file_info(String::from("we\"ird.txt"), 5, 420, &content);
    let text = encode_file_info_csv(&vec![info]);
    let parsed = parse_file_info_csv(&text).unwrap();
    assert_eq!(parsed[0].file, "we\"ird.txt");
}

#[test]
fn round_trip_preserves_records() {
    let c1: Vec<u8> = b"one".to_vec();
    let c2: Vec<u8> = b"two".to_vec();
    let records = vec![
        make_file_info(String::from("a.txt"), 1000, 420, &c1),
        make_file_info(String::from("deep/dir/b.rs"), -5, 0o755, &c2),
    ];
    let text = encode_file_info_csv(&records);
    let parsed = parse_file_info_csv(&text).unwrap();
    assert_eq!(parsed.len(), 2);
    assert_eq!(parsed[0].file, records[0].file);
    assert_eq!(parsed[0].mtime_seconds, 1000);
    assert_eq!(parsed[0].mode, 420);
    assert_eq!(parsed[0].hash, records[0].hash);
    assert_eq!(parsed[1].file, "deep/dir/b.rs");
    assert_eq!(parsed[1].mtime_seconds, -5);
    assert_eq!(parsed[1].mode, 0o755);
}

#[test]
fn restore_replays_attributes_when_content_unchanged() {
    let content: Vec<u8> = b"stable".to_vec();
    let info = make_file_info(String::from("f"), 12345, 0o600, &content);
    let text = encode_file_info_csv(&vec![info]);
    let parsed = parse_file_info_csv(&text).unwrap();
    assert_eq!(restore_action(&parsed[0], &content), Some((12345, 0o600)));
}

#[test]
fn restore_skips_file_whose_content_changed() {
    let before: Vec<u8> = b"before".to_vec();
    let after: Vec<u8> = b"after".to_vec();
    let info = make_file_info(String::from("f"), 12345, 0o600, &before);
    assert_eq!(restore_action(&info, &after), None);
}

#[test]
fn restore_with_missing_table_is_a_successful_no_op() {
    let plan = plan_restore(&None).unwrap();
    assert_eq!(plan.len(), 0);
}

#[test]
fn restore_with_present_table_parses_it() {
    let content: Vec<u8> = b"v".to_vec();
    let info = make_file_info(String::from("f"), 7, 420, &content);
    let text = encode_file_info_csv(&vec![info]);
    let plan = plan_restore(&Some(text)).unwrap();
    assert_eq!(plan.len(), 1);
    assert_eq!(plan[0].file, "f");
}

#[test]
fn malformed_table_is_a_format_error() {
    assert_eq!(
        parse_file_info_csv("not a table"),
        Err(CacheError::FormatError)
    );
    assert_eq!(
        parse_file_info_csv("file,mtime_seconds,mode,hash\na.txt,notanumber,420,h\n"),
        Err(CacheError::FormatError)
    );
    assert_eq!(
        parse_file_info_csv("file,mtime_seconds,mode,hash\na.txt,1,420\n"),
        Err(CacheError::FormatError)
    );
    assert_eq!(
        plan_restore(&Some(String::from("file,mtime_seconds,mode,hash\nbroken"))),
        Err(CacheError::FormatError)
    );
}

#[test]
fn empty_table_with_header_only_parses_to_no_records() {
    let parsed = parse_file_info_csv("file,mtime_seconds,mode,hash\n").unwrap();
    assert_eq!(parsed.len(), 0);
}

#[test]
fn mode_larger_than_u32_is_rejected() {
    assert_eq!(
        parse_file_info_csv("file,mtime_seconds,mode,hash\na,1,4294967296,h\n"),
        Err(CacheError::FormatError)
    );
    let parsed = parse_file_info_csv("file,mtime_seconds,mode,hash\na,1,4294967295,h\n").unwrap();
    assert_eq!(parsed[0].mode, u32::MAX);
}

#[test]
fn extreme_mtimes_round_trip() {
    let text = format!(
        "file,mtime_seconds,mode,hash\na,{},0,h\nb,{},0,h\n",
        i64::MIN,
        i64::MAX
    );
    let parsed = parse_file_info_csv(&text).unwrap();
    assert_eq!(parsed[0].mtime_seconds, i64::MIN);
    assert_eq!(parsed[1].mtime_seconds, i64::MAX);
}

#[test]
fn file_listing_splits_lines_and_strips_dot_prefix() {
    let walk = "./a.txt\n./dir/b.rs\n";
    assert_eq!(
        parse_file_listing(walk, true),
        vec![String::from("a.txt"), String::from("dir/b.rs")]
    );
    let listed = "a.txt\ndir/b.rs";
    assert_eq!(
        parse_file_listing(listed, false),
        vec![String::from("a.txt"), String::from("dir/b.rs")]
    );
    assert_eq!(parse_file_listing("", true), Vec::<String>::new());
    assert_eq!(
        parse_file_listing("\n\nx\n", false),
        vec![String::from("x")]
    );
    assert_eq!(
        parse_file_listing("./x", true),
        vec![String::from("x")]
    );
}
