//! Downloads of runtime builds and models: where the bytes go while they
//! arrive, whether the disk can hold them, how progress is reported, how an
//! archive is recognised, and how LM Studio's download jobs are followed.

use vstd::prelude::*;
use crate::platform::{asset_suffix, pick_asset, suffix_for, Asset, Backend, TargetOs};
use crate::providers::{PullProgress, PullStatus, ProviderError, ProgressView};
use crate::runtime::RuntimeError;
use crate::text::{concat, ends_with, lowercase_of, owned, push_str, str_ends_with, str_eq, to_lowercase};

verus! {

/// Where a download is written until it completes: `<dest>.part`. Only a
/// finished download is renamed to `dest`, so an interrupted one never leaves
/// a truncated file looking valid.
pub fn part_path(dest: &str) -> (p: String)
    ensures
        p@ == dest@ + ".part"@,
{
    concat(dest, ".part")
}

/// The free space a download of `needed` bytes asks for: half as much again,
/// for the unpacked archive and the file system's overhead.
pub open spec fn required_for(needed: u64) -> int {
    let r = needed + needed / 2;
    if r > u64::MAX { u64::MAX as int } else { r }
}

pub fn required_space(needed: u64) -> (r: u64)
    ensures
        r == required_for(needed),
{
    let half = needed / 2;
    if needed > u64::MAX - half {
        u64::MAX
    } else {
        needed + half
    }
}

/// The disk cannot plausibly hold a download.
#[derive(Debug)]
pub struct SpaceShortfall {
    pub required: u64,
    pub available: u64,
}

/// Refuses a download before it starts when the disk reports less free space
/// than it needs. A disk that reports nothing does not block it: failing on
/// an unknown is worse than trying.
pub fn ensure_free_space(needed: u64, available: Option<u64>) -> (r: Result<(), SpaceShortfall>)
    ensures
        match available {
            None => r is Ok,
            Some(a) => if a < required_for(needed) {
                r matches Err(s) && s.required == required_for(needed) && s.available == a
            } else {
                r is Ok
            },
        },
{
    let required = required_space(needed);
    match available {
        None => Ok(()),
        Some(a) => {
            if a < required {
                Err(SpaceShortfall { required, available: a })
            } else {
                Ok(())
            }
        },
    }
}

/// A mounted disk: where it is mounted and how many bytes are free on it.
#[derive(Debug)]
pub struct DiskSpace {
    pub mount_point: String,
    pub available: u64,
}

/// Whether `path` lies under `base`, comparing whole components, as
/// `std::path::Path::starts_with` does.
pub uninterp spec fn path_within(path: Seq<char>, base: Seq<char>) -> bool;

/// `std::path::Path::starts_with`: whether `base` is a leading run of the
/// components of `path`. The contract only names the answer.
#[verifier::external_body]
fn path_starts_with(path: &str, base: &str) -> (b: bool)
    ensures
        b == path_within(path@, base@),
{
    std::path::Path::new(path).starts_with(base)
}

/// The disk a folder lives on: among the disks whose mount point contains
/// it, the one with the longest mount point (on Linux every path is also
/// under `/`); among equally long ones, the last listed.
pub open spec fn disk_for(dir: Seq<char>, disks: Seq<DiskSpace>) -> Option<int>
    decreases disks.len(),
{
    if disks.len() == 0 {
        None
    } else {
        let rest = disk_for(dir, disks.drop_last());
        let last = disks.len() - 1;
        if path_within(dir, disks[last].mount_point@) {
            match rest {
                Some(i) => if crate::text::utf8_len(disks[last].mount_point@) >= crate::text::utf8_len(disks[i].mount_point@) {
                    Some(last)
                } else {
                    Some(i)
                },
                None => Some(last),
            }
        } else {
            rest
        }
    }
}

/// The free space of the disk `dir` lives on, when some disk contains it.
pub fn available_space(dir: &str, disks: &[DiskSpace]) -> (r: Option<u64>)
    ensures
        match disk_for(dir@, disks@) {
            Some(i) => r == Some(disks@[i].available),
            None => r is None,
        },
{
    let mut best: Option<usize> = None;
    let mut best_len: usize = 0;
    let mut i: usize = 0;
    assert(disks@.take(0) =~= Seq::<DiskSpace>::empty());
    while i < disks.len()
        invariant
            i <= disks@.len(),
            disk_for(dir@, disks@.take(i as int)) == match best {
                Some(b) => Some(b as int),
                None => None::<int>,
            },
            best matches Some(b) ==> b < i && best_len == crate::text::utf8_len(disks@[b as int].mount_point@),
        decreases disks@.len() - i,
    {
        proof {
            assert(disks@.take(i + 1).drop_last() =~= disks@.take(i as int));
            assert(disks@.take(i + 1)[i as int] == disks@[i as int]);
            match best {
                Some(b) => assert(disks@.take(i + 1)[b as int] == disks@[b as int]),
                None => {},
            }
        }
        if path_starts_with(dir, disks[i].mount_point.as_str()) {
            let len = crate::text::byte_len(disks[i].mount_point.as_str());
            match best {
                Some(_) => {
                    if len >= best_len {
                        best = Some(i);
                        best_len = len;
                    }
                },
                None => {
                    best = Some(i);
                    best_len = len;
                },
            }
        }
        i = i + 1;
    }
    assert(disks@.take(disks@.len() as int) =~= disks@);
    match best {
        Some(b) => Some(disks[b].available),
        None => None,
    }
}

/// The name a downloaded archive is saved under: the last segment of its
/// URL.
pub fn archive_file_name(url: &str) -> (name: String)
    ensures
        exists|k: int| 0 <= k <= url@.len() && name@ == url@.skip(k) && !name@.contains('/')
            && (k == 0 || url@[k - 1] == '/'),
{
    let v = crate::text::chars_of(url);
    let mut k: usize = v.len();
    while k > 0 && v[k - 1] != '/'
        invariant
            k <= v@.len(),
            v@ == url@,
            forall|j: int| k <= j < v@.len() ==> v@[j] != '/',
        decreases k,
    {
        k = k - 1;
    }
    let name = crate::text::chars_slice_string(&v, k, v.len());
    assert(name@ =~= url@.skip(k as int));
    name
}

/// The error for a server that answered a download with a failure status.
pub fn download_refused(status: &str, url: &str) -> (e: RuntimeError)
    ensures
        e matches RuntimeError::Network(m) && m@ == "o servidor respondeu "@ + status@ + " ao baixar "@ + url@,
{
    let mut m = concat("o servidor respondeu ", status);
    push_str(&mut m, " ao baixar ");
    push_str(&mut m, url);
    RuntimeError::Network(m)
}

/// Counts the bytes of a download and reports its progress.
#[derive(Debug)]
pub struct DownloadMeter {
    pub downloaded: u64,
    pub total: Option<u64>,
}

impl DownloadMeter {
    pub fn new(total: Option<u64>) -> (m: DownloadMeter)
        ensures
            m.downloaded == 0,
            m.total == total,
    {
        DownloadMeter { downloaded: 0, total }
    }

    /// Counts a chunk of `len` bytes and reports the running total.
    pub fn on_chunk(&mut self, len: u64) -> (p: PullProgress)
        requires
            old(self).downloaded + len <= u64::MAX,
        ensures
            final(self).downloaded == old(self).downloaded + len,
            final(self).total == old(self).total,
            p@ == (ProgressView {
                status: PullStatus::Downloading,
                downloaded_bytes: Some(final(self).downloaded),
                total_bytes: old(self).total,
                message: None,
            }),
    {
        self.downloaded = self.downloaded + len;
        PullProgress { status: PullStatus::Downloading, downloaded_bytes: Some(self.downloaded), total_bytes: self.total, message: None }
    }

    /// The report once the file is in place.
    pub fn finished(&self) -> (p: PullProgress)
        ensures
            p@ == (ProgressView {
                status: PullStatus::Success,
                downloaded_bytes: Some(self.downloaded),
                total_bytes: self.total,
                message: None,
            }),
    {
        PullProgress { status: PullStatus::Success, downloaded_bytes: Some(self.downloaded), total_bytes: self.total, message: None }
    }
}

/// The formats a runtime archive comes in.
#[derive(Debug, Clone, Copy, PartialEq, Eq, Structural)]
pub enum ArchiveKind {
    Zip,
    TarGz,
}

pub open spec fn archive_kind_of(lower: Seq<char>) -> Option<ArchiveKind> {
    if ends_with(lower, ".zip"@) {
        Some(ArchiveKind::Zip)
    } else if ends_with(lower, ".tar.gz"@) || ends_with(lower, ".tgz"@) {
        Some(ArchiveKind::TarGz)
    } else {
        None
    }
}

/// How an archive whose lower-cased name is `lower` is unpacked; any other
/// name is refused.
pub fn archive_kind(lower: &str, shown: &str) -> (r: Result<ArchiveKind, RuntimeError>)
    ensures
        match archive_kind_of(lower@) {
            Some(k) => r matches Ok(x) && x == k,
            None => r matches Err(RuntimeError::Io(m)) && m@ == "formato de arquivo não suportado: "@ + shown@,
        },
{
    if str_ends_with(lower, ".zip") {
        Ok(ArchiveKind::Zip)
    } else if str_ends_with(lower, ".tar.gz") || str_ends_with(lower, ".tgz") {
        Ok(ArchiveKind::TarGz)
    } else {
        Err(RuntimeError::Io(concat("formato de arquivo não suportado: ", shown)))
    }
}

/// How the archive at `archive` is unpacked, judged by its name in any case:
/// `.zip`, `.tar.gz` or `.tgz`.
pub fn extract(archive: &str) -> (r: Result<ArchiveKind, RuntimeError>)
    ensures
        match archive_kind_of(lowercase_of(archive@)) {
            Some(k) => r matches Ok(x) && x == k,
            None => r matches Err(RuntimeError::Io(m)) && m@ == "formato de arquivo não suportado: "@ + archive@,
        },
{
    let lower = to_lowercase(archive);
    archive_kind(lower.as_str(), archive)
}

/// The asset of the release to download for this platform and backend, or
/// the error naming the file that was looked for.
pub fn asset_for(assets: &[Asset], os: TargetOs, backend: Backend) -> (r: Result<&Asset, RuntimeError>)
    ensures
        match crate::platform::first_with_suffix(assets@, suffix_for(os, backend)) {
            Some(i) => r matches Ok(a) && *a == assets@[i],
            None => r matches Err(RuntimeError::AssetNotFound(s)) && s@ == suffix_for(os, backend),
        },
{
    match pick_asset(assets, os, backend) {
        Some(a) => Ok(a),
        None => Err(RuntimeError::AssetNotFound(owned(asset_suffix(os, backend)))),
    }
}

/// How an LM Studio download starts.
#[derive(Debug)]
pub enum DownloadStart {
    /// The model is already there: report it as complete and stop.
    AlreadyThere(PullProgress),
    /// Follow the job with this id.
    Follow(String),
    /// The answer named no job.
    Failed(ProviderError),
}

/// LM Studio's answer to a download request: a model it already has is
/// complete at once; otherwise the job id it returned is followed.
pub fn download_start(status: &str, job_id: Option<String>, total: Option<u64>) -> (r: DownloadStart)
    ensures
        status@ == "already_downloaded"@ ==> (r matches DownloadStart::AlreadyThere(p) && p@ == (ProgressView {
            status: PullStatus::Success,
            downloaded_bytes: total,
            total_bytes: total,
            message: Some("already_downloaded"@),
        })),
        status@ != "already_downloaded"@ ==> match job_id {
            Some(j) => r matches DownloadStart::Follow(x) && x@ == j@,
            None => r matches DownloadStart::Failed(ProviderError::ParseError(m)) && m@ == "missing job_id in download response"@,
        },
{
    if str_eq(status, "already_downloaded") {
        return DownloadStart::AlreadyThere(PullProgress {
            status: PullStatus::Success,
            downloaded_bytes: total,
            total_bytes: total,
            message: Some(owned("already_downloaded")),
        });
    }
    match job_id {
        Some(j) => DownloadStart::Follow(j),
        None => DownloadStart::Failed(ProviderError::ParseError(owned("missing job_id in download response"))),
    }
}

/// What follows one poll of a download job.
#[derive(Debug)]
pub enum PollNext {
    Done,
    Failed(ProviderError),
    Again,
}

/// One poll of an LM Studio download job: the progress to report, and
/// whether the job is done, failed, or to be polled again.
pub fn poll_step(status: String, downloaded: Option<u64>, total: Option<u64>) -> (r: (PullProgress, PollNext))
    ensures
        r.0@ == (ProgressView {
            status: if status@ == "completed"@ {
                PullStatus::Success
            } else if status@ == "failed"@ {
                PullStatus::Error
            } else {
                PullStatus::Downloading
            },
            downloaded_bytes: downloaded,
            total_bytes: total,
            message: Some(status@),
        }),
        status@ == "completed"@ ==> r.1 is Done,
        status@ == "failed"@ ==> (r.1 matches PollNext::Failed(ProviderError::RequestFailed(m))
            && m@ == "lm studio reported a failed download"@),
        status@ != "completed"@ && status@ != "failed"@ ==> r.1 is Again,
{
    proof {
        reveal_strlit("completed");
        reveal_strlit("failed");
    }
    let pull_status = crate::providers::download_job_status(status.as_str());
    assert("failed"@.len() != "completed"@.len());
    let next = match pull_status {
        PullStatus::Success => PollNext::Done,
        PullStatus::Error => PollNext::Failed(ProviderError::RequestFailed(owned("lm studio reported a failed download"))),
        _ => PollNext::Again,
    };
    (PullProgress { status: pull_status, downloaded_bytes: downloaded, total_bytes: total, message: Some(status) }, next)
}

} // verus!
