//! Progress of a model download as the server reports it: the latest report
//! of each file, and the totals and status derived from them.

use vstd::prelude::*;
use crate::text::str_eq;
use crate::server::config::DownloadStatus;

verus! {

/// The latest report for one file of a download (the transfer speed the
/// downloader measures is carried beside it by the caller).
#[derive(Debug, Clone)]
pub struct FileProgress {
    pub file_name: String,
    pub bytes_downloaded: u64,
    pub total_bytes: u64,
    pub finished: bool,
    pub error: Option<String>,
}

/// Totals and status of a download across its files.
#[derive(Debug, Clone)]
pub struct ServerProgress {
    pub total_bytes: u64,
    pub downloaded_bytes: u64,
    pub status: DownloadStatus,
    pub error: Option<String>,
}

/// Sum of the file sizes of the first `k` reports.
pub open spec fn total_of(fs: Seq<FileProgress>, k: nat) -> int
    decreases k,
{
    if k == 0 {
        0
    } else {
        total_of(fs, (k - 1) as nat) + fs[k - 1].total_bytes
    }
}

/// Sum of the downloaded bytes of the first `k` reports.
pub open spec fn downloaded_of(fs: Seq<FileProgress>, k: nat) -> int
    decreases k,
{
    if k == 0 {
        0
    } else {
        downloaded_of(fs, (k - 1) as nat) + fs[k - 1].bytes_downloaded
    }
}

/// The first error among the first `k` reports.
pub open spec fn first_error(fs: Seq<FileProgress>, k: nat) -> Option<Seq<char>>
    decreases k,
{
    if k == 0 {
        None
    } else {
        match first_error(fs, (k - 1) as nat) {
            Some(e) => Some(e),
            None => match fs[k - 1].error {
                Some(e) => Some(e@),
                None => None,
            },
        }
    }
}

/// Status of a download: failed when any file reports an error, completed
/// when there are reports and every file finished, else downloading.
pub open spec fn status_of(fs: Seq<FileProgress>) -> DownloadStatus {
    if exists|i: int| 0 <= i < fs.len() && #[trigger] fs[i].error is Some {
        DownloadStatus::Failed
    } else if fs.len() > 0 && forall|i: int| 0 <= i < fs.len() ==> #[trigger] fs[i].finished {
        DownloadStatus::Completed
    } else {
        DownloadStatus::Downloading
    }
}

proof fn lemma_sums_mono(fs: Seq<FileProgress>, i: nat, j: nat)
    requires
        i <= j <= fs.len(),
    ensures
        total_of(fs, i) <= total_of(fs, j),
        downloaded_of(fs, i) <= downloaded_of(fs, j),
    decreases j - i,
{
    if i < j {
        lemma_sums_mono(fs, i, (j - 1) as nat);
    }
}

proof fn lemma_first_error(fs: Seq<FileProgress>, k: nat)
    requires
        k <= fs.len(),
    ensures
        first_error(fs, k) is None <==> forall|i: int| 0 <= i < k ==> #[trigger] fs[i].error is None,
    decreases k,
{
    if k > 0 {
        lemma_first_error(fs, (k - 1) as nat);
    }
}

/// Totals, status and first error of a download from the latest report of
/// each of its files.
pub fn aggregate_progress(files: &Vec<FileProgress>) -> (r: ServerProgress)
    requires
        total_of(files@, files@.len()) <= u64::MAX,
        downloaded_of(files@, files@.len()) <= u64::MAX,
    ensures
        r.total_bytes == total_of(files@, files@.len()),
        r.downloaded_bytes == downloaded_of(files@, files@.len()),
        r.status == status_of(files@),
        match r.error {
            Some(e) => first_error(files@, files@.len()) == Some(e@),
            None => first_error(files@, files@.len()) is None,
        },
{
    let n = files.len();
    let mut total: u64 = 0;
    let mut downloaded: u64 = 0;
    let mut all_finished = true;
    let mut error: Option<String> = None;
    let mut i: usize = 0;
    while i < n
        invariant
            n == files@.len(),
            i <= n,
            total_of(files@, n as nat) <= u64::MAX,
            downloaded_of(files@, n as nat) <= u64::MAX,
            total == total_of(files@, i as nat),
            downloaded == downloaded_of(files@, i as nat),
            all_finished <==> forall|q: int| 0 <= q < i ==> #[trigger] files@[q].finished,
            match error {
                Some(e) => first_error(files@, i as nat) == Some(e@),
                None => first_error(files@, i as nat) is None,
            },
        decreases n - i,
    {
        proof {
            lemma_sums_mono(files@, (i + 1) as nat, n as nat);
        }
        let f = &files[i];
        total = total + f.total_bytes;
        downloaded = downloaded + f.bytes_downloaded;
        if !f.finished {
            all_finished = false;
        }
        if error.is_none() {
            match &f.error {
                Some(e) => {
                    error = Some(e.clone());
                },
                None => {},
            }
        }
        i = i + 1;
    }
    proof {
        lemma_first_error(files@, n as nat);
    }
    let status = if error.is_some() {
        DownloadStatus::Failed
    } else if all_finished && n > 0 {
        DownloadStatus::Completed
    } else {
        DownloadStatus::Downloading
    };
    proof {
        if error is None {
            assert(!exists|q: int| 0 <= q < files@.len() && #[trigger] files@[q].error is Some);
        } else {
            assert(first_error(files@, n as nat) is Some);
            let w = choose|q: int| 0 <= q < n && !(#[trigger] files@[q].error is None);
            assert(files@[w].error is Some);
        }
    }
    ServerProgress { total_bytes: total, downloaded_bytes: downloaded, status, error }
}

/// Keeps the latest report of each file: replaces the report with the same
/// file name, or adds the report at the end.
pub fn record_file_progress(files: &mut Vec<FileProgress>, p: FileProgress)
    ensures
        match first_named(old(files)@, p.file_name@) {
            Some(i) => final(files)@ == old(files)@.update(i, p),
            None => final(files)@ == old(files)@.push(p),
        },
{
    let mut i: usize = 0;
    while i < files.len()
        invariant
            i <= files@.len(),
            files@ == old(files)@,
            forall|q: int| 0 <= q < i ==> #[trigger] files@[q].file_name@ != p.file_name@,
        decreases files@.len() - i,
    {
        if str_eq(files[i].file_name.as_str(), p.file_name.as_str()) {
            proof {
                lemma_first_named(files@, p.file_name@, i as int);
            }
            files.set(i, p);
            return;
        }
        i = i + 1;
    }
    proof {
        lemma_first_named_none(files@, p.file_name@);
    }
    files.push(p);
}

/// Position of the first report for the file called `name`.
pub open spec fn first_named(fs: Seq<FileProgress>, name: Seq<char>) -> Option<int>
    decreases fs.len(),
{
    if fs.len() == 0 {
        None
    } else {
        match first_named(fs.drop_last(), name) {
            Some(i) => Some(i),
            None => if fs.last().file_name@ == name {
                Some(fs.len() - 1)
            } else {
                None
            },
        }
    }
}

proof fn lemma_first_named(fs: Seq<FileProgress>, name: Seq<char>, i: int)
    requires
        0 <= i < fs.len(),
        fs[i].file_name@ == name,
        forall|q: int| 0 <= q < i ==> #[trigger] fs[q].file_name@ != name,
    ensures
        first_named(fs, name) == Some(i),
    decreases fs.len(),
{
    if i < fs.len() - 1 {
        let d = fs.drop_last();
        assert forall|q: int| 0 <= q < i implies #[trigger] d[q].file_name@ != name by {
            assert(d[q] == fs[q]);
        }
        lemma_first_named(d, name, i);
    } else {
        lemma_first_named_none(fs.drop_last(), name);
    }
}

proof fn lemma_first_named_none(fs: Seq<FileProgress>, name: Seq<char>)
    requires
        forall|q: int| 0 <= q < fs.len() ==> #[trigger] fs[q].file_name@ != name,
    ensures
        first_named(fs, name) is None,
    decreases fs.len(),
{
    if fs.len() > 0 {
        let d = fs.drop_last();
        assert forall|q: int| 0 <= q < d.len() implies #[trigger] d[q].file_name@ != name by {
            assert(d[q] == fs[q]);
        }
        lemma_first_named_none(d, name);
    }
}

} // verus!
