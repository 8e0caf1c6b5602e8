//! The fetcher's decisions: which packages to download, when to retry an
//! extraction, and how outcomes add up to a report.

use crate::fetch::FetchReport;
use crate::graph::ResolvedPackage;
use crate::platform::{check_platform_compatibility, platform_verdict, PlatformMismatch};
use crate::strs::strs_view;
use vstd::prelude::*;

verus! {

/// Why a package of the graph is not fetched.
#[derive(Debug)]
pub enum FetchSkip {
    /// A workspace package: no tarball, it lives on disk.
    Workspace,
    /// The package does not fit the current platform.
    Platform(PlatformMismatch),
    /// The store already holds the package.
    StoreHit,
}

/// Decides whether a package is fetched: workspace packages (no tarball)
/// are skipped, then packages for another platform, then, unless fetching
/// is forced, packages the store already holds.
pub fn fetch_decision(
    pkg: &ResolvedPackage,
    current_os: &str,
    current_cpu: &str,
    force: bool,
    in_store: bool,
) -> (r: Option<FetchSkip>)
    ensures
        pkg.tarball@.len() == 0 ==> r matches Some(FetchSkip::Workspace),
        pkg.tarball@.len() > 0 ==> {
            let verdict = match r {
                Some(FetchSkip::Platform(m)) => Some(m),
                _ => None,
            };
            &&& platform_verdict(
                strs_view(pkg.os@),
                strs_view(pkg.cpu@),
                current_os@,
                current_cpu@,
                verdict,
            )
            &&& verdict is None ==> (r is None <==> (force || !in_store))
            &&& verdict is None ==> (r is Some ==> r matches Some(FetchSkip::StoreHit))
        },
{
    if pkg.tarball.unicode_len() == 0 {
        return Some(FetchSkip::Workspace);
    }
    match check_platform_compatibility(&pkg.os, &pkg.cpu, current_os, current_cpu) {
        Some(m) => Some(FetchSkip::Platform(m)),
        None => {
            if !force && in_store {
                Some(FetchSkip::StoreHit)
            } else {
                None
            }
        },
    }
}

/// How many times a tarball is extracted before the package fails: once
/// offline, twice online (the second time after downloading it anew).
pub fn extract_attempts(offline: bool) -> (r: u32)
    ensures
        r == (if offline {
            1u32
        } else {
            2u32
        }),
{
    if offline {
        1
    } else {
        2
    }
}

/// Whether an extraction that failed on attempt `attempt` (counted from 0)
/// is retried: only online, and only while attempts remain.
pub fn retry_after_extract_failure(offline: bool, attempt: u32) -> (r: bool)
    ensures
        r == (!offline && attempt + 1 < extract_attempts_spec(offline)),
{
    !offline && attempt < extract_attempts(offline) - 1
}

/// The number of extraction attempts, as a spec value.
pub open spec fn extract_attempts_spec(offline: bool) -> int {
    if offline {
        1
    } else {
        2
    }
}

/// Whether the tarball cache is bypassed on attempt `attempt`: when fetching
/// is forced, and on every retry after a failed extraction.
pub fn bypass_cache(force: bool, attempt: u32) -> (r: bool)
    ensures
        r == (force || attempt > 0),
{
    force || attempt > 0
}

/// Adds the outcome of one package to a report: a success is counted, a
/// failure's message kept.
pub fn record_fetch_outcome(report: &mut FetchReport, outcome: Result<(), String>)
    requires
        old(report).success < usize::MAX,
    ensures
        final(report).cached == old(report).cached,
        final(report).store_hits == old(report).store_hits,
        match outcome {
            Ok(()) => final(report).success == old(report).success + 1 && final(report).failures@
                == old(report).failures@,
            Err(m) => final(report).success == old(report).success && final(report).failures@
                == old(report).failures@.push(m),
        },
{
    match outcome {
        Ok(()) => {
            report.success = report.success + 1;
        },
        Err(m) => {
            report.failures.push(m);
        },
    }
}


/// How many times the tarball cache downloads a tarball before it gives up.
pub const TARBALL_DOWNLOAD_ATTEMPTS: usize = 3;

/// The tarball cache's copy of a tarball on disk.
#[derive(Debug, Clone, Copy, PartialEq, Eq, Structural)]
pub enum CachedTarball {
    /// No copy.
    Missing,
    /// A copy whose content matches the expected integrity.
    Intact,
    /// A copy whose content does not.
    Corrupt,
}

/// Where the tarball cache takes a tarball from.
#[derive(Debug, Clone, Copy, PartialEq, Eq)]
pub enum TarballSource {
    /// The copy it verified earlier in this run.
    Verified,
    /// The copy on disk, which it now remembers as verified.
    Disk,
    /// Offline and no copy: it fails.
    OfflineMissing,
    /// Offline and the copy is corrupt: it fails.
    OfflineCorrupt,
    /// The network; `discard` when the corrupt copy on disk is deleted first.
    Download { discard: bool },
}

/// Where a tarball comes from. Unless forced, a copy verified earlier that
/// still exists is used. Offline, only the disk copy can serve, forced or
/// not, and only when intact. Online and not forced, an intact disk copy
/// serves and a corrupt one is deleted before downloading; forced, the
/// tarball is downloaded.
pub open spec fn tarball_source_spec(force: bool, offline: bool, verified_exists: bool, disk: CachedTarball) -> TarballSource {
    if !force && verified_exists {
        TarballSource::Verified
    } else if offline {
        match disk {
            CachedTarball::Intact => TarballSource::Disk,
            CachedTarball::Corrupt => TarballSource::OfflineCorrupt,
            CachedTarball::Missing => TarballSource::OfflineMissing,
        }
    } else if !force && disk == CachedTarball::Intact {
        TarballSource::Disk
    } else {
        TarballSource::Download { discard: !force && disk == CachedTarball::Corrupt }
    }
}

/// Decides where the tarball cache takes a tarball from.
pub fn tarball_source(force: bool, offline: bool, verified_exists: bool, disk: CachedTarball) -> (r: TarballSource)
    ensures
        r == tarball_source_spec(force, offline, verified_exists, disk),
{
    if !force && verified_exists {
        TarballSource::Verified
    } else if offline {
        match disk {
            CachedTarball::Intact => TarballSource::Disk,
            CachedTarball::Corrupt => TarballSource::OfflineCorrupt,
            CachedTarball::Missing => TarballSource::OfflineMissing,
        }
    } else if !force && disk == CachedTarball::Intact {
        TarballSource::Disk
    } else {
        TarballSource::Download { discard: !force && disk == CachedTarball::Corrupt }
    }
}

/// How one download attempt ended.
#[derive(Debug, Clone, Copy, PartialEq, Eq)]
pub enum DownloadOutcome {
    /// The bytes arrived and match the integrity.
    Verified,
    /// The bytes arrived and do not match.
    IntegrityMismatch,
    /// The request or the body failed.
    Failed,
}

/// What the tarball cache does after a download attempt.
#[derive(Debug, Clone, Copy, PartialEq, Eq)]
pub enum DownloadStep {
    /// Keep the bytes.
    Done,
    /// Try again at once.
    RetryNow,
    /// Try again after this many milliseconds.
    RetryAfter(u64),
    /// Fail with the last error.
    GiveUp,
}

/// After attempt `attempt` (from 0): verified bytes are kept; otherwise, while
/// attempts remain, a mismatch is retried at once and a failure after
/// 500 ms times the number of attempts made.
pub open spec fn download_step_spec(attempt: nat, outcome: DownloadOutcome) -> DownloadStep {
    match outcome {
        DownloadOutcome::Verified => DownloadStep::Done,
        DownloadOutcome::IntegrityMismatch => if attempt + 1 < TARBALL_DOWNLOAD_ATTEMPTS {
            DownloadStep::RetryNow
        } else {
            DownloadStep::GiveUp
        },
        DownloadOutcome::Failed => if attempt + 1 < TARBALL_DOWNLOAD_ATTEMPTS {
            DownloadStep::RetryAfter((500 * (attempt + 1)) as u64)
        } else {
            DownloadStep::GiveUp
        },
    }
}

/// Decides what follows a download attempt.
pub fn download_step(attempt: usize, outcome: DownloadOutcome) -> (r: DownloadStep)
    requires
        attempt < TARBALL_DOWNLOAD_ATTEMPTS,
    ensures
        r == download_step_spec(attempt as nat, outcome),
{
    match outcome {
        DownloadOutcome::Verified => DownloadStep::Done,
        DownloadOutcome::IntegrityMismatch => {
            if attempt + 1 < TARBALL_DOWNLOAD_ATTEMPTS {
                DownloadStep::RetryNow
            } else {
                DownloadStep::GiveUp
            }
        },
        DownloadOutcome::Failed => {
            if attempt + 1 < TARBALL_DOWNLOAD_ATTEMPTS {
                let ms: u64 = 500 * (attempt as u64 + 1);
                DownloadStep::RetryAfter(ms)
            } else {
                DownloadStep::GiveUp
            }
        },
    }
}


/// Counts a package the store already held, so nothing was fetched.
pub fn record_store_hit(report: &mut FetchReport)
    requires
        old(report).store_hits < usize::MAX,
    ensures
        final(report).store_hits == old(report).store_hits + 1,
        final(report).success == old(report).success,
        final(report).cached == old(report).cached,
        final(report).failures@ == old(report).failures@,
{
    report.store_hits = report.store_hits + 1;
}

/// Counts a package served from the tarball cache: extracted and imported
/// without a download.
pub fn record_cache_hit(report: &mut FetchReport)
    requires
        old(report).cached < usize::MAX,
    ensures
        final(report).cached == old(report).cached + 1,
        final(report).success == old(report).success,
        final(report).store_hits == old(report).store_hits,
        final(report).failures@ == old(report).failures@,
{
    report.cached = report.cached + 1;
}

} // verus!
