use proompt::config::RunConfiguration;
use proompt::meta::build_metadata_snapshot;
use proompt::meta::modified_date_from_epoch;
use proompt::render::apply_line_limit;
use proompt::render::check_file_size;
use proompt::render::count_lines;
use proompt::render::missing_path_message;
use proompt::render::oversize_warning;
use proompt::render::render_file_block;
use proompt::render::undecodable_warning;
use proompt::render::SizeCheck;

fn default_config() -> RunConfiguration {
    RunConfiguration {
        extensions: vec![],
        include_hidden: false,
        ignore_gitignore: false,
        ignore_patterns: vec![],
        max_file_size: None,
        max_lines: None,
        add_metadata: false,
    }
}

#[test]
fn count_lines_matches_line_splitting() {
    assert_eq!(count_lines(""), 0);
    assert_eq!(count_lines("a"), 1);
    assert_eq!(count_lines("a\n"), 1);
    assert_eq!(count_lines("\n"), 1);
    assert_eq!(count_lines("line1\nline2\nline3"), 3);
    assert_eq!(count_lines("a\r\nb"), 2);
    assert_eq!(count_lines("a\n\nb"), 3);
}

#[test]
fn line_limit_truncates_with_marker() {
    let content = "line 1\nline 2\nline 3\nline 4\nline 5";
    let limited = apply_line_limit(content, 3);
    assert_eq!(limited, "line 1\nline 2\nline 3\n... (truncated)");
    assert!(!limited.contains("line 4"));
}

#[test]
fn line_limit_at_or_above_count_adds_no_marker() {
    let content = "line 1\nline 2\nline 3";
    assert_eq!(apply_line_limit(content, 3), "line 1\nline 2\nline 3");
    assert_eq!(apply_line_limit(content, 10), "line 1\nline 2\nline 3");
    assert_eq!(apply_line_limit("", 5), "");
}

#[test]
fn line_limit_zero_keeps_only_marker() {
    assert_eq!(apply_line_limit("a\nb", 0), "\n... (truncated)");
}

#[test]
fn plain_block_wraps_content_in_delimiters() {
    let cfg = default_config();
    let block = render_file_block("test_dir/file1.txt", "Contents of file1", &None, &cfg);
    assert_eq!(block, "test_dir/file1.txt\n---\nContents of file1\n---\n");
}

#[test]
fn rendering_twice_is_byte_identical() {
    let mut cfg = default_config();
    cfg.max_lines = Some(2);
    let content = "one\ntwo\nthree";
    let first = render_file_block("dir/f.txt", content, &None, &cfg);
    let second = render_file_block("dir/f.txt", content, &None, &cfg);
    assert_eq!(first, second);
    assert_eq!(first, "dir/f.txt\n---\none\ntwo\n... (truncated)\n---\n");
}

#[test]
fn metadata_header_shows_lines_size_and_date() {
    let mut cfg = default_config();
    cfg.add_metadata = true;
    let content = "Line 1\nLine 2\nLine 3";
    let snapshot = build_metadata_snapshot(17, content, 0);
    let block = render_file_block("test.txt", content, &Some(snapshot), &cfg);
    assert_eq!(
        block,
        "test.txt (3 lines, 17B, modified: 1970-01-01)\n---\nLine 1\nLine 2\nLine 3\n---\n"
    );
}

#[test]
fn metadata_requested_but_unavailable_falls_back_to_plain_header() {
    let mut cfg = default_config();
    cfg.add_metadata = true;
    let block = render_file_block("test.txt", "x", &None, &cfg);
    assert_eq!(block, "test.txt\n---\nx\n---\n");
}

#[test]
fn modified_date_renders_known_timestamps() {
    assert_eq!(modified_date_from_epoch(0), "1970-01-01");
    assert_eq!(modified_date_from_epoch(1431648000), "2015-05-15");
}

#[test]
fn undecodable_warning_names_the_file() {
    assert_eq!(
        undecodable_warning("test_dir/binary_file.bin"),
        "Warning: Skipping file test_dir/binary_file.bin due to UnicodeDecodeError"
    );
}

#[test]
fn oversize_warning_shows_actual_and_limit() {
    assert_eq!(
        oversize_warning("test_dir/large.txt", 2048, "1KB"),
        "Warning: Skipping file test_dir/large.txt due to size limit (2.0KB > 1KB)"
    );
}

#[test]
fn size_limit_skips_oversized_files() {
    let limit = Some("1KB".to_owned());
    match check_file_size("test_dir/large.txt", 2048, &limit) {
        SizeCheck::SkipOversized(w) => {
            assert_eq!(
                w,
                "Warning: Skipping file test_dir/large.txt due to size limit (2.0KB > 1KB)"
            );
        }
        _ => panic!("expected the oversized skip"),
    }
    match check_file_size("test_dir/small.txt", 13, &limit) {
        SizeCheck::Proceed => {}
        _ => panic!("expected to proceed"),
    }
}

#[test]
fn size_limit_absent_always_proceeds() {
    match check_file_size("any", u64::MAX, &None) {
        SizeCheck::Proceed => {}
        _ => panic!("expected to proceed"),
    }
}

#[test]
fn size_limit_rejects_malformed_limit() {
    let limit = Some("invalid".to_owned());
    match check_file_size("test_dir/test.txt", 1, &limit) {
        SizeCheck::InvalidLimit(m) => {
            assert_eq!(m, "Invalid file size format: INVALID");
        }
        _ => panic!("expected the fatal limit error"),
    }
}

#[test]
fn missing_path_message_names_the_path() {
    assert_eq!(
        missing_path_message("no/such/dir"),
        "Error: Path does not exist: no/such/dir"
    );
}
