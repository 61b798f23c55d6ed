//! What is fetched for each missing record, and where it is written.
use vstd::prelude::*;

use crate::record::{archive_path, crate_url, generate_crate_download_path, generate_crate_url, Crate};

verus! {

/// One fetch: the record, the address of its archive, and the file that
/// receives it.
pub struct DownloadJob {
    pub record: Crate,
    pub url: String,
    pub path: String,
}

/// The job of `c`, fetched from under `base_url` into the directory `dest`.
pub open spec fn job_for(j: DownloadJob, c: Crate, dest: Seq<char>, base_url: Seq<char>) -> bool {
    &&& j.record@ == c@
    &&& j.url@ == crate_url(base_url, c.name@, c.version@)
    &&& j.path@ == archive_path(dest, c.name@, c.version@)
}

/// One job per record, in the order of the records; each job depends on its
/// own record alone, so the failure of one leaves the others as they are.
pub fn plan_downloads(crates: &Vec<Crate>, dest_path: &str, crates_io_base_url: &str) -> (r: Vec<
    DownloadJob,
>)
    ensures
        r.len() == crates.len(),
        forall|i: int|
            0 <= i < crates.len() ==> job_for(#[trigger] r[i], crates[i], dest_path@, crates_io_base_url@),
{
    let mut jobs: Vec<DownloadJob> = Vec::new();
    let mut i: usize = 0;
    while i < crates.len()
        invariant
            i <= crates.len(),
            jobs.len() == i,
            forall|k: int|
                0 <= k < i ==> job_for(#[trigger] jobs[k], crates[k], dest_path@, crates_io_base_url@),
        decreases crates.len() - i,
    {
        let c = &crates[i];
        let url = generate_crate_url(c, crates_io_base_url);
        let path = generate_crate_download_path(c, dest_path);
        jobs.push(DownloadJob { record: c.duplicate(), url, path });
        i = i + 1;
    }
    jobs
}

} // verus!
