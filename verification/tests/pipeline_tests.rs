use radar_fetch::pipeline::{plan_downloads, Stage};

#[test]
fn fetch_error_is_fatal() {
    let stage = plan_downloads(Err("connection refused".to_string()), "https://x.test/idx");
    assert_eq!(stage, Stage::Fatal { reason: "connection refused".to_string() });
}

#[test]
fn page_without_links_ends_the_run_without_error() {
    let stage = plan_downloads(Ok("<p>empty index</p>".to_string()), "https://x.test/idx");
    assert_eq!(stage, Stage::NoLinks);
}

#[test]
fn page_with_links_proceeds_to_download() {
    let html = "<a href='data1.tar.gz'>1</a><a href='data2.tar.gz'>2</a><a href='ignore.html'>x</a>";
    let stage = plan_downloads(Ok(html.to_string()), "https://x.test/idx");
    assert_eq!(
        stage,
        Stage::Download {
            links: vec![
                "https://x.test/data1.tar.gz".to_string(),
                "https://x.test/data2.tar.gz".to_string(),
            ],
        }
    );
}
