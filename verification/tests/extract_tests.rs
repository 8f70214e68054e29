use radar_fetch::extract::{extract, is_data_href};
use radar_fetch::text::{filename_for, str_contains, str_starts_with};

#[test]
fn extracts_marked_anchors_from_index_page() {
    let html = "<html><body><a href='data1.tar.gz'>1</a><a href='data2.tar.gz'>2</a><a href='ignore.html'>x</a></body></html>";
    let links = extract(html, "https://x.test/idx");
    assert_eq!(
        links,
        vec![
            "https://x.test/data1.tar.gz".to_string(),
            "https://x.test/data2.tar.gz".to_string(),
        ]
    );
}

#[test]
fn highest_priority_rule_wins_alone() {
    let html = "<div class='bdpLink'><a href='top.gz'>t</a></div><a href='other.tar'>o</a>";
    let links = extract(html, "https://x.test/idx");
    assert_eq!(links, vec!["https://x.test/top.gz".to_string()]);
}

#[test]
fn no_anchor_means_empty_not_error() {
    let links = extract("<html><body><p>nothing here</p></body></html>", "https://x.test/idx");
    assert!(links.is_empty());
}

#[test]
fn unmarked_anchors_yield_empty() {
    let links = extract("<a href='page.html'>x</a><a href='about.html'>y</a>", "https://x.test/idx");
    assert!(links.is_empty());
}

#[test]
fn relative_href_resolves_against_base() {
    let html = "<a href='file.gz'>f</a>";
    let links = extract(html, "https://example.org/a/index.html");
    assert_eq!(links, vec!["https://example.org/a/file.gz".to_string()]);
}

#[test]
fn absolute_href_passes_through_unchanged() {
    let html = "<a href='http://other.host/file.gz'>f</a>";
    let links = extract(html, "https://x.test/idx");
    assert_eq!(links, vec!["http://other.host/file.gz".to_string()]);
}

#[test]
fn duplicate_hrefs_appear_once_at_first_position() {
    let html = "<a href='data.gz'>1</a><a href='./data.gz'>2</a><a href='other.gz'>3</a>";
    let links = extract(html, "https://x.test/idx");
    assert_eq!(
        links,
        vec!["https://x.test/data.gz".to_string(), "https://x.test/other.gz".to_string()]
    );
}

#[test]
fn marker_test_accepts_data_hrefs() {
    assert!(is_data_href("file.tar"));
    assert!(is_data_href("archive.gz"));
    assert!(is_data_href("x.bz2"));
    assert!(is_data_href("KHTX_V06_file"));
    assert!(is_data_href("AAL2_product"));
    assert!(is_data_href("http://h.test/download/1"));
}

#[test]
fn marker_test_rejects_other_hrefs() {
    assert!(!is_data_href("page.html"));
    // "download" counts only when the href is already absolute
    assert!(!is_data_href("download"));
    assert!(!is_data_href(""));
}

#[test]
fn substring_search_finds_needles() {
    assert!(str_contains("abcde", "cd"));
    assert!(str_contains("abcde", ""));
    assert!(str_contains("abcde", "abcde"));
    assert!(!str_contains("abcde", "ce"));
    assert!(!str_contains("ab", "abc"));
    assert!(str_starts_with("http://x", "http"));
    assert!(!str_starts_with("ftp://x", "http"));
}

#[test]
fn filename_comes_from_final_path_segment() {
    assert_eq!(filename_for("https://x.test/a/data1.tar.gz"), "data1.tar.gz");
    assert_eq!(filename_for("plain"), "plain");
}

#[test]
fn filename_falls_back_on_placeholder() {
    assert_eq!(filename_for("https://x.test/dir/"), "unknown_file");
    assert_eq!(filename_for(""), "unknown_file");
}
