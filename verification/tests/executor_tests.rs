use radar_fetch::executor::{count_successes_exec, DownloadOutcome, DownloadRun};
use radar_fetch::progress::DownloadProgress;
use radar_fetch::text::filename_for;

fn success(name: &str) -> DownloadOutcome {
    DownloadOutcome::Success { filename: name.to_string() }
}

fn failure(url: &str, reason: &str) -> DownloadOutcome {
    DownloadOutcome::Failure { url: url.to_string(), reason: reason.to_string() }
}

#[test]
fn progress_counter_counts_each_completion_once() {
    let mut p = DownloadProgress::new(5);
    assert_eq!(p.current, 0);
    p.increment("a.gz");
    p.increment("b.gz");
    p.increment("c.gz");
    assert_eq!(p.current, 3);
    assert_eq!(p.last_file, "c.gz");
    assert!(!p.is_complete());
    p.increment("d.gz");
    p.increment("e.gz");
    assert_eq!(p.current, 5);
    assert!(p.is_complete());
}

#[test]
fn percent_tenths_rounds_down() {
    let mut p = DownloadProgress::new(3);
    p.increment("a.gz");
    assert_eq!(p.percent_tenths(), 333);
    p.increment("b.gz");
    assert_eq!(p.percent_tenths(), 666);
    p.increment("c.gz");
    assert_eq!(p.percent_tenths(), 1000);
}

#[test]
fn never_admits_more_than_limit() {
    let mut run = DownloadRun::new(3, 2);
    assert!(run.can_start());
    run.start();
    assert!(run.can_start());
    run.start();
    // two of three tasks in flight: the limit is reached
    assert_eq!(run.in_flight, 2);
    assert!(!run.can_start());
    run.complete(success("a.gz"));
    // a completion frees its place and the waiting task may be admitted
    assert_eq!(run.in_flight, 1);
    assert!(run.can_start());
    run.start();
    assert_eq!(run.in_flight, 2);
    assert!(run.in_flight <= run.limit);
    assert!(!run.can_start());
}

#[test]
fn one_failure_leaves_other_outcomes_as_successes() {
    let mut run = DownloadRun::new(3, 2);
    run.start();
    run.start();
    run.complete(failure("https://x.test/b.gz", "connection reset"));
    // the failure freed its place; the remaining task proceeds
    run.start();
    run.complete(success("a.gz"));
    run.complete(success("c.gz"));
    assert_eq!(run.outcomes.len(), 3);
    assert_eq!(count_successes_exec(&run.outcomes), 2);
    // the failure did not advance the progress counter
    assert_eq!(run.progress.current, 2);
}

#[test]
fn failures_do_not_advance_progress() {
    let mut run = DownloadRun::new(2, 1);
    run.start();
    run.complete(failure("https://x.test/a.gz", "timeout"));
    run.start();
    run.complete(failure("https://x.test/b.gz", "server error"));
    assert_eq!(run.progress.current, 0);
    assert_eq!(count_successes_exec(&run.outcomes), 0);
    assert!(!run.progress.is_complete());
}

#[test]
fn two_downloads_with_limit_one_complete_in_order() {
    let urls = ["https://x.test/data1.tar.gz", "https://x.test/data2.tar.gz"];
    let mut run = DownloadRun::new(2, 1);
    for url in urls {
        assert!(run.can_start());
        run.start();
        // limit one: the single permit is held for the whole transfer
        assert_eq!(run.in_flight, 1);
        assert!(!run.can_start());
        run.complete(success(&filename_for(url)));
    }
    assert_eq!(count_successes_exec(&run.outcomes), 2);
    assert_eq!(run.outcomes[0], success("data1.tar.gz"));
    assert_eq!(run.outcomes[1], success("data2.tar.gz"));
    assert_eq!(run.progress.current, 2);
    assert_eq!(run.progress.last_file, "data2.tar.gz");
    assert!(run.progress.is_complete());
}
