use mfp_download::links::list_item_links;
use mfp_download::pool::SlotPool;
use mfp_download::run::{check_index_status, file_name_of, plan_tasks, subpage_url, Join, RunError, Task};
use mfp_download::transfer::{
    decide_start, OpenOutcome, Outcome, StreamEnd, Transfer, TransferError,
};

#[test]
fn success_statuses_pass() {
    assert!(check_index_status(200).is_ok());
    assert!(check_index_status(204).is_ok());
    assert!(check_index_status(299).is_ok());
}

#[test]
fn non_success_index_status_fails() {
    assert!(matches!(check_index_status(404), Err(RunError::IndexStatus(404))));
    assert!(matches!(check_index_status(500), Err(RunError::IndexStatus(500))));
    assert!(matches!(check_index_status(301), Err(RunError::IndexStatus(301))));
    assert!(matches!(check_index_status(199), Err(RunError::IndexStatus(199))));
}

#[test]
fn file_name_is_last_segment() {
    assert_eq!(file_name_of("https://files.example.net/a/b/ep_1.mp3"), "ep_1.mp3");
    assert_eq!(file_name_of("plain.mp3"), "plain.mp3");
    assert_eq!(file_name_of("https://h/dir/"), "");
    assert_eq!(file_name_of(""), "");
}

#[test]
fn subpage_url_joins_with_slash() {
    assert_eq!(
        subpage_url("https://www.musicforprogramming.net", "?one"),
        "https://www.musicforprogramming.net/?one"
    );
}

#[test]
fn fan_out_dispatches_k_plus_one() {
    let links = vec!["?a".to_string(), "?b".to_string(), "?c".to_string()];
    let tasks = plan_tasks(false, "https://f/latest.mp3".to_string(), links);
    assert_eq!(tasks.len(), 4);
    assert!(matches!(&tasks[0], Task::Latest(u) if u == "https://f/latest.mp3"));
    assert!(matches!(&tasks[1], Task::Item(l) if l == "?a"));
    assert!(matches!(&tasks[2], Task::Item(l) if l == "?b"));
    assert!(matches!(&tasks[3], Task::Item(l) if l == "?c"));
}

#[test]
fn latest_only_dispatches_one() {
    let links = vec!["?a".to_string(), "?b".to_string()];
    let tasks = plan_tasks(true, "https://f/latest.mp3".to_string(), links);
    assert_eq!(tasks.len(), 1);
    assert!(matches!(&tasks[0], Task::Latest(_)));
}

#[test]
fn empty_index_dispatches_latest_alone() {
    let tasks = plan_tasks(false, "https://f/l.mp3".to_string(), vec![]);
    assert_eq!(tasks.len(), 1);
}

#[test]
fn one_failure_fails_the_run() {
    let mut j = Join::new(4);
    j.settle(Ok(Outcome::Completed));
    j.settle(Ok(Outcome::Skipped));
    j.settle(Ok(Outcome::Completed));
    assert!(!j.is_finished());
    j.settle(Ok(Outcome::Failed(TransferError::LengthUnknown)));
    assert!(j.is_finished());
    assert!(matches!(j.into_result(), Err(RunError::Transfer(TransferError::LengthUnknown))));
}

#[test]
fn first_failure_stops_the_join() {
    let mut j = Join::new(3);
    j.settle(Err(RunError::Fetch("timed out".to_string())));
    assert!(j.is_finished());
    j.settle(Ok(Outcome::Completed));
    assert_eq!(j.succeeded, 0);
    j.settle(Ok(Outcome::Failed(TransferError::Io("later".to_string()))));
    assert!(matches!(j.into_result(), Err(RunError::Fetch(e)) if e == "timed out"));
}

#[test]
fn all_completed_or_skipped_succeeds() {
    let mut j = Join::new(3);
    j.settle(Ok(Outcome::Completed));
    j.settle(Ok(Outcome::Skipped));
    assert!(!j.is_finished());
    j.settle(Ok(Outcome::Completed));
    assert!(j.is_finished());
    assert_eq!(j.succeeded, 3);
    assert!(j.into_result().is_ok());
}

/// Runs the given files through a pool of `capacity` slots, streaming each
/// in chunks of `chunk` bytes, with the files in `present` already on disk.
/// Returns the files on disk, the run's result and the most slots ever busy.
fn simulate(
    capacity: usize,
    files: &[(&str, usize)],
    present: &[&str],
    chunk: usize,
) -> (Vec<(String, Vec<u8>)>, Result<(), RunError>, usize) {
    let mut disk: Vec<(String, Vec<u8>)> =
        present.iter().map(|n| (n.to_string(), Vec::new())).collect();
    let mut pool = SlotPool::new(capacity).unwrap();
    let mut join = Join::new(files.len());
    let mut pending: Vec<(String, usize)> =
        files.iter().map(|(u, n)| (u.to_string(), *n)).collect();
    pending.reverse();
    let mut active: Vec<(Transfer, usize, usize)> = Vec::new();
    let mut most_busy = 0;
    while !pending.is_empty() || !active.is_empty() {
        while !pending.is_empty() {
            let permit = match pool.try_acquire() {
                Some(p) => p,
                None => break,
            };
            let (url, len) = pending.pop().unwrap();
            let name = file_name_of(&url);
            let open = if disk.iter().any(|(n, _)| *n == name) {
                OpenOutcome::AlreadyExists
            } else {
                disk.push((name.clone(), Vec::new()));
                OpenOutcome::Created
            };
            let start = decide_start(open, Some(len as u64));
            match Transfer::begin(&mut pool, permit, start, name) {
                Ok(t) => active.push((t, disk.len() - 1, len)),
                Err(o) => join.settle(Ok(o)),
            }
        }
        most_busy = most_busy.max(pool.busy_slots());
        let mut still: Vec<(Transfer, usize, usize)> = Vec::new();
        for (mut t, at, len) in active.drain(..) {
            let left = len - disk[at].1.len();
            let n = left.min(chunk);
            disk[at].1.extend(std::iter::repeat(7u8).take(n));
            t.record_chunk(&mut pool, n as u64);
            if disk[at].1.len() == len {
                join.settle(Ok(t.finish(&mut pool, StreamEnd::Finished)));
            } else {
                still.push((t, at, len));
            }
        }
        active = still;
        most_busy = most_busy.max(pool.busy_slots());
    }
    assert_eq!(pool.busy_slots(), 0);
    assert_eq!(pool.available_permits(), capacity);
    (disk, join.into_result(), most_busy)
}

#[test]
fn two_slots_three_files() {
    let files = [("https://f/a.mp3", 10), ("https://f/b.mp3", 10), ("https://f/c.mp3", 10)];
    let (disk, result, most_busy) = simulate(2, &files, &[], 4);
    assert!(result.is_ok());
    assert!(most_busy <= 2);
    assert_eq!(most_busy, 2);
    assert_eq!(disk.len(), 3);
    for (_, bytes) in &disk {
        assert_eq!(bytes.len(), 10);
    }
}

#[test]
fn existing_placeholder_is_skipped() {
    let files = [("https://f/a.mp3", 10), ("https://f/b.mp3", 10), ("https://f/c.mp3", 10)];
    let (disk, result, _) = simulate(2, &files, &["b.mp3"], 3);
    assert!(result.is_ok());
    assert_eq!(disk.len(), 3);
    for (name, bytes) in &disk {
        if name == "b.mp3" {
            assert_eq!(bytes.len(), 0);
        } else {
            assert_eq!(bytes.len(), 10);
        }
    }
}

#[test]
fn failed_index_fetch_engages_nothing() {
    let status: u16 = 503;
    let mut files_created = 0;
    match check_index_status(status) {
        Ok(()) => {
            let _pool = SlotPool::new(2).unwrap();
            files_created += 1;
        }
        Err(e) => assert!(matches!(e, RunError::IndexStatus(503))),
    }
    assert_eq!(files_created, 0);
}

#[test]
fn index_page_to_task_count() {
    let page = "<div id=\"episodes\"><a href=\"?1\">1</a><a href=\"?2\">2</a></div>";
    let links = list_item_links(page).unwrap();
    let tasks = plan_tasks(false, "https://f/l.mp3".to_string(), links);
    assert_eq!(tasks.len(), 3);
}
