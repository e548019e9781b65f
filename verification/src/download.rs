//! One download from start to end: what is asked of the link, and the
//! progress reports that go out while the bytes come in.

use crate::registry::DownloadProgress;
use crate::token::{file_name_of, get_filename};
use vstd::prelude::*;
use vstd::string::*;

verus! {

/// One candidate that the remote service offers for a download.
#[derive(Clone, Debug)]
pub struct DownloadLink {
    pub name: String,
    pub short_name: String,
    pub uri: String,
}

/// The link to download from: the first that the service offers.
pub fn select_link(links: &Vec<DownloadLink>) -> (r: Option<&DownloadLink>)
    ensures
        match r {
            Some(link) => links@.len() > 0 && *link == links@[0],
            None => links@.len() == 0,
        },
{
    if links.len() == 0 {
        None
    } else {
        Some(&links[0])
    }
}

/// Why a download cannot start.
#[derive(Clone, Copy, Debug, PartialEq, Eq, Structural)]
pub enum StartError {
    /// The source gives no length, or a length of zero.
    UnusableSource,
    /// The link is too short to give a file name.
    NoFileName,
}

/// How a progress report is handed on.
#[derive(Clone, Copy, Debug, PartialEq, Eq, Structural)]
pub enum Delivery {
    /// Dropped where the receiver is busy.
    BestEffort,
    /// Waits until the receiver takes it.
    Guaranteed,
}

/// A download that has started.
#[derive(Clone, Debug)]
pub struct DownloadJob {
    pub file_name: String,
    pub total_bytes: usize,
    pub bytes_downloaded: usize,
    pub mod_id: u64,
    pub file_id: u64,
}

/// A job as plain values.
pub ghost struct JobView {
    pub file_name: Seq<char>,
    pub total_bytes: usize,
    pub bytes_downloaded: usize,
    pub mod_id: u64,
    pub file_id: u64,
}

impl View for DownloadJob {
    type V = JobView;

    open spec fn view(&self) -> JobView {
        JobView {
            file_name: self.file_name@,
            total_bytes: self.total_bytes,
            bytes_downloaded: self.bytes_downloaded,
            mod_id: self.mod_id,
            file_id: self.file_id,
        }
    }
}

/// Whether `report` tells of `job` with `bytes` bytes downloaded.
pub open spec fn reports(report: DownloadProgress, job: JobView, bytes: usize) -> bool {
    &&& report.file_name@ == job.file_name
    &&& report.bytes_downloaded == bytes
    &&& report.total_bytes == job.total_bytes
    &&& report.mod_id == job.mod_id
    &&& report.file_id == job.file_id
}

/// The length to expect of a source: what it announces, as far as it can be
/// counted here; 0 where it announces none.
pub open spec fn expected_size(content_length: Option<u64>) -> usize {
    match content_length {
        Some(n) => if n <= usize::MAX {
            n as usize
        } else {
            usize::MAX
        },
        None => 0,
    }
}

/// `a + b`, held at the largest number that can be counted.
pub open spec fn capped_sum(a: usize, b: usize) -> usize {
    if a + b <= usize::MAX {
        (a + b) as usize
    } else {
        usize::MAX
    }
}

impl DownloadJob {
    /// Starts the download of `uri`, of which the source announced
    /// `content_length` bytes. A source without a length is refused before
    /// anything is written; else the job stands at 0 bytes, and its first
    /// report says so and is handed on best effort.
    pub fn start(uri: &str, content_length: Option<u64>, mod_id: u64, file_id: u64) -> (r: Result<
        (DownloadJob, DownloadProgress, Delivery),
        StartError,
    >)
        ensures
            match r {
                Ok((job, report, delivery)) => {
                    &&& expected_size(content_length) != 0
                    &&& file_name_of(uri@) == Some(job@.file_name)
                    &&& job@.total_bytes == expected_size(content_length)
                    &&& job@.bytes_downloaded == 0
                    &&& job@.mod_id == mod_id
                    &&& job@.file_id == file_id
                    &&& reports(report, job@, 0)
                    &&& delivery == Delivery::BestEffort
                },
                Err(StartError::UnusableSource) => expected_size(content_length) == 0,
                Err(StartError::NoFileName) => expected_size(content_length) != 0 && file_name_of(
                    uri@,
                ) is None,
            },
    {
        let total: usize = match content_length {
            Some(n) => if n <= usize::MAX as u64 {
                n as usize
            } else {
                usize::MAX
            },
            None => 0,
        };
        if total == 0 {
            return Err(StartError::UnusableSource);
        }
        let file_name = match get_filename(uri) {
            Some(name) => name,
            None => {
                return Err(StartError::NoFileName);
            },
        };
        let report = DownloadProgress {
            file_name: file_name.clone(),
            bytes_downloaded: 0,
            total_bytes: total,
            mod_id,
            file_id,
        };
        let job = DownloadJob {
            file_name,
            total_bytes: total,
            bytes_downloaded: 0,
            mod_id,
            file_id,
        };
        Ok((job, report, Delivery::BestEffort))
    }

    /// Counts a chunk of `len` bytes that was written, and gives the report
    /// of the new count, to be handed on best effort. The count never goes
    /// down.
    pub fn on_chunk(&mut self, len: usize) -> (r: (DownloadProgress, Delivery))
        ensures
            final(self)@ == (JobView {
                bytes_downloaded: capped_sum(old(self)@.bytes_downloaded, len),
                ..old(self)@
            }),
            final(self)@.bytes_downloaded >= old(self)@.bytes_downloaded,
            reports(r.0, final(self)@, final(self)@.bytes_downloaded),
            r.1 == Delivery::BestEffort,
    {
        let sum: usize = if len <= usize::MAX - self.bytes_downloaded {
            self.bytes_downloaded + len
        } else {
            usize::MAX
        };
        self.bytes_downloaded = sum;
        (
            DownloadProgress {
                file_name: self.file_name.clone(),
                bytes_downloaded: sum,
                total_bytes: self.total_bytes,
                mod_id: self.mod_id,
                file_id: self.file_id,
            },
            Delivery::BestEffort,
        )
    }

    /// The last report of a download whose source is exhausted: it tells of
    /// the whole size, and is to be handed on with a guarantee.
    pub fn finish(&self) -> (r: (DownloadProgress, Delivery))
        ensures
            reports(r.0, self@, self@.total_bytes),
            r.1 == Delivery::Guaranteed,
    {
        (
            DownloadProgress {
                file_name: self.file_name.clone(),
                bytes_downloaded: self.total_bytes,
                total_bytes: self.total_bytes,
                mod_id: self.mod_id,
                file_id: self.file_id,
            },
            Delivery::Guaranteed,
        )
    }
}

} // verus!
