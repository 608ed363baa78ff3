use decoupled_ai::brain_pack::download::{chunk_ranges, release_ready};
use decoupled_ai::server::config::DownloadStatus;
use decoupled_ai::server::progress::{aggregate_progress, record_file_progress, FileProgress};

fn file(name: &str, done: u64, total: u64, finished: bool, error: Option<&str>) -> FileProgress {
    FileProgress {
        file_name: name.to_string(),
        bytes_downloaded: done,
        total_bytes: total,
        finished,
        error: error.map(|e| e.to_string()),
    }
}

#[test]
fn chunks_are_released_in_order() {
    let mut buf: Vec<Option<Vec<u8>>> = vec![None, Some(vec![2]), Some(vec![3]), None, Some(vec![5])];
    // Chunk 0 has not arrived: nothing can be written yet.
    let (out, next) = release_ready(&mut buf, 0);
    assert!(out.is_empty());
    assert_eq!(next, 0);
    buf[0] = Some(vec![1]);
    let (out, next) = release_ready(&mut buf, 0);
    assert_eq!(out, vec![vec![1], vec![2], vec![3]]);
    assert_eq!(next, 3);
    assert_eq!(buf, vec![None, None, None, None, Some(vec![5])]);
    buf[3] = Some(vec![4]);
    let (out, next) = release_ready(&mut buf, next);
    assert_eq!(out, vec![vec![4], vec![5]]);
    assert_eq!(next, 5);
    assert!(buf.iter().all(|c| c.is_none()));
}

#[test]
fn chunks_released_out_of_arrival_order_cover_the_file() {
    let ranges = chunk_ranges(10, 4);
    let mut buf: Vec<Option<Vec<u8>>> = vec![None; ranges.len()];
    let mut written: Vec<u8> = Vec::new();
    let mut next = 0;
    for &k in &[2usize, 0, 1] {
        let (s, e) = ranges[k];
        buf[k] = Some((s..e).map(|b| b as u8).collect());
        let (out, n) = release_ready(&mut buf, next);
        next = n;
        for c in out {
            written.extend(c);
        }
    }
    assert_eq!(next, 3);
    assert_eq!(written, (0..10u8).collect::<Vec<u8>>());
}

#[test]
fn progress_totals_and_status() {
    let empty = aggregate_progress(&vec![]);
    assert_eq!(empty.total_bytes, 0);
    assert_eq!(empty.status, DownloadStatus::Downloading);
    assert!(empty.error.is_none());

    let fs = vec![file("a", 10, 20, false, None), file("b", 5, 5, true, None)];
    let p = aggregate_progress(&fs);
    assert_eq!(p.total_bytes, 25);
    assert_eq!(p.downloaded_bytes, 15);
    assert_eq!(p.status, DownloadStatus::Downloading);

    let fs = vec![file("a", 20, 20, true, None), file("b", 5, 5, true, None)];
    assert_eq!(aggregate_progress(&fs).status, DownloadStatus::Completed);

    let fs = vec![
        file("a", 20, 20, true, None),
        file("b", 1, 5, false, Some("HTTP 404")),
        file("c", 0, 5, false, Some("HTTP 500")),
    ];
    let p = aggregate_progress(&fs);
    assert_eq!(p.status, DownloadStatus::Failed);
    assert_eq!(p.error.as_deref(), Some("HTTP 404"));
}

#[test]
fn latest_report_per_file_is_kept() {
    let mut fs = Vec::new();
    record_file_progress(&mut fs, file("a", 1, 10, false, None));
    record_file_progress(&mut fs, file("b", 2, 10, false, None));
    record_file_progress(&mut fs, file("a", 10, 10, true, None));
    assert_eq!(fs.len(), 2);
    assert_eq!(fs[0].file_name, "a");
    assert_eq!(fs[0].bytes_downloaded, 10);
    assert!(fs[0].finished);
    assert_eq!(fs[1].file_name, "b");
}
