use linklist::{
    derive_output, effective_path, is_link_line, join_segments, process_content, process_line,
    render_report, split_lines, LinkError,
};

fn strings(v: &[&str]) -> Vec<String> {
    v.iter().map(|s| s.to_string()).collect()
}

#[test]
fn link_line_recognition() {
    assert!(is_link_line("http://example.com/a/b"));
    assert!(is_link_line("https://example.com/a/b"));
    assert!(is_link_line("http"));
    assert!(!is_link_line("htt"));
    assert!(!is_link_line(""));
    assert!(!is_link_line("# comment http://x"));
    assert!(!is_link_line("Http://example.com/a/b"));
    assert!(!is_link_line("ftp://example.com/a/b"));
}

#[test]
fn split_lines_plain() {
    assert_eq!(split_lines(""), Vec::<String>::new());
    assert_eq!(split_lines("a"), strings(&["a"]));
    assert_eq!(split_lines("a\nb"), strings(&["a", "b"]));
    assert_eq!(split_lines("a\nb\n"), strings(&["a", "b"]));
    assert_eq!(split_lines("a\n\nb"), strings(&["a", "", "b"]));
    assert_eq!(split_lines("\n"), strings(&[""]));
}

#[test]
fn split_lines_carriage_return() {
    assert_eq!(split_lines("a\r\nb\r\n"), strings(&["a", "b"]));
    assert_eq!(split_lines("a\r\nb"), strings(&["a", "b"]));
    // a carriage return not followed by a line break stays
    assert_eq!(split_lines("a\rb"), strings(&["a\rb"]));
    assert_eq!(split_lines("a\r"), strings(&["a\r"]));
}

#[test]
fn join_segments_examples() {
    assert_eq!(join_segments(&strings(&["a", "b", "c"])), "a/b/c");
    assert_eq!(join_segments(&strings(&["a"])), "a");
    assert_eq!(join_segments(&strings(&[])), "");
}

#[test]
fn effective_path_no_root_keeps_all() {
    let segs = strings(&["novogene", "sample1", "R1.fastq.gz"]);
    assert_eq!(effective_path(&segs, &None), segs);
}

#[test]
fn effective_path_truncates_at_first_match() {
    let segs = strings(&["x", "a", "b", "a"]);
    let root = Some("a".to_string());
    assert_eq!(effective_path(&segs, &root), strings(&["a", "b", "a"]));
}

#[test]
fn effective_path_match_at_start() {
    let segs = strings(&["novogene", "sample1", "R1.fastq.gz"]);
    let root = Some("novogene".to_string());
    assert_eq!(effective_path(&segs, &root), segs);
}

#[test]
fn effective_path_no_match_keeps_all() {
    // a marker that matches nothing keeps everything, it does not drop everything
    let segs = strings(&["novogene", "sample1", "R1.fastq.gz"]);
    let root = Some("zzz".to_string());
    assert_eq!(effective_path(&segs, &root), segs);
}

#[test]
fn derive_output_splits_dir_and_file() {
    let segs = strings(&["a", "b", "c"]);
    assert_eq!(
        derive_output(&segs, &None),
        Ok(("a/b".to_string(), "c".to_string()))
    );
}

#[test]
fn derive_output_needs_two_segments() {
    assert_eq!(
        derive_output(&strings(&["only"]), &None),
        Err(LinkError::TooFewSegments)
    );
    assert_eq!(
        derive_output(&strings(&[]), &None),
        Err(LinkError::TooFewSegments)
    );
}

#[test]
fn example_line_no_root() {
    let (reports, err) = process_content("http://example.com/novogene/sample1/R1.fastq.gz", &None);
    assert!(err.is_none());
    assert_eq!(reports.len(), 1);
    assert_eq!(reports[0].url, "http://example.com/novogene/sample1/R1.fastq.gz");
    assert_eq!(reports[0].dir, "novogene/sample1");
    assert_eq!(reports[0].file, "R1.fastq.gz");
    assert_eq!(
        render_report(&reports[0]),
        "http://example.com/novogene/sample1/R1.fastq.gz\n dir=novogene/sample1\n out=R1.fastq.gz\n"
    );
}

#[test]
fn example_line_with_root() {
    let root = Some("sample1".to_string());
    let (reports, err) = process_content("http://example.com/novogene/sample1/R1.fastq.gz", &root);
    assert!(err.is_none());
    assert_eq!(reports.len(), 1);
    assert_eq!(reports[0].dir, "sample1");
    assert_eq!(reports[0].file, "R1.fastq.gz");
    assert_eq!(
        render_report(&reports[0]),
        "http://example.com/novogene/sample1/R1.fastq.gz\n dir=sample1\n out=R1.fastq.gz\n"
    );
}

#[test]
fn non_link_lines_are_silently_ignored() {
    let content = "# a comment\n\nftp://example.com/a/b\nlinklist for project X\n";
    let (reports, err) = process_content(content, &None);
    assert!(reports.is_empty());
    assert!(err.is_none());
}

#[test]
fn link_lines_between_other_lines() {
    let content = "# header\nhttp://example.com/d1/f1.gz\n\nhttp://example.com/d2/f2.gz\n";
    let (reports, err) = process_content(content, &None);
    assert!(err.is_none());
    assert_eq!(reports.len(), 2);
    assert_eq!(reports[0].dir, "d1");
    assert_eq!(reports[0].file, "f1.gz");
    assert_eq!(reports[1].dir, "d2");
    assert_eq!(reports[1].file, "f2.gz");
}

#[test]
fn crlf_manifest() {
    let content = "http://example.com/d1/f1.gz\r\nhttp://example.com/d2/f2.gz\r\n";
    let (reports, err) = process_content(content, &None);
    assert!(err.is_none());
    assert_eq!(reports.len(), 2);
    assert_eq!(reports[1].url, "http://example.com/d2/f2.gz");
}

#[test]
fn single_segment_url_aborts_the_run() {
    let content = "http://example.com/f1/a.txt\nhttp://example.com/single\nhttp://example.com/f2/b.txt\n";
    let (reports, err) = process_content(content, &None);
    // output stops at the failing line: later lines yield nothing
    assert_eq!(err, Some(LinkError::TooFewSegments));
    assert_eq!(reports.len(), 1);
    assert_eq!(reports[0].file, "a.txt");
}

#[test]
fn authority_only_url_has_one_empty_segment() {
    let (reports, err) = process_content("http://example.com", &None);
    assert_eq!(err, Some(LinkError::TooFewSegments));
    assert!(reports.is_empty());
}

#[test]
fn invalid_url_aborts_the_run() {
    let (reports, err) = process_content("http://[bad\n", &None);
    assert_eq!(err, Some(LinkError::InvalidUrl));
    assert!(reports.is_empty());
}

#[test]
fn cannot_be_a_base_url_has_no_segments() {
    // scheme `httpx`, no authority: the line starts with `http` but the URL
    // has no path-segment component
    assert_eq!(
        process_line("httpx:blah", &None),
        Err(LinkError::NoPathSegments)
    );
}

#[test]
fn process_line_skips_non_links() {
    assert_eq!(process_line("", &None), Ok(None));
    assert_eq!(process_line("# http://example.com/a/b", &None), Ok(None));
}

#[test]
fn url_is_reported_in_serialized_form() {
    let (reports, err) = process_content("http://EXAMPLE.com:80/a/b", &None);
    assert!(err.is_none());
    assert_eq!(reports[0].url, "http://example.com/a/b");
    assert_eq!(reports[0].dir, "a");
    assert_eq!(reports[0].file, "b");
}

#[test]
fn query_is_not_part_of_the_path() {
    let (reports, err) = process_content("http://example.com/a/b?x=1", &None);
    assert!(err.is_none());
    assert_eq!(reports[0].dir, "a");
    assert_eq!(reports[0].file, "b");
}

#[test]
fn root_marker_no_match_keeps_whole_url_path() {
    let root = Some("zzz".to_string());
    let (reports, err) = process_content("http://example.com/novogene/sample1/R1.fastq.gz", &root);
    assert!(err.is_none());
    assert_eq!(reports[0].dir, "novogene/sample1");
    assert_eq!(reports[0].file, "R1.fastq.gz");
}

#[test]
fn root_marker_then_too_few_segments() {
    // the marker matches the last segment: nothing is left for a directory
    let root = Some("R1.fastq.gz".to_string());
    let (reports, err) = process_content("http://example.com/novogene/sample1/R1.fastq.gz", &root);
    assert_eq!(err, Some(LinkError::TooFewSegments));
    assert!(reports.is_empty());
}

#[test]
fn empty_manifest_yields_nothing() {
    let (reports, err) = process_content("", &None);
    assert!(reports.is_empty());
    assert!(err.is_none());
}
