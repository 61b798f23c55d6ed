//! Mirrors a package registry locally: works out which archives named by a
//! registry index are missing from a download directory, and plans their
//! downloads.
pub mod config;
pub mod download;
pub mod record;
pub mod scan;

pub use config::{parse_path, parse_thread_size, Opt};
pub use download::{plan_downloads, DownloadJob};
pub use record::{generate_crate_download_path, generate_crate_url, Crate};
pub use scan::{
    identify_new_crates, is_blank_line, is_not_config_file, is_not_hidden, should_visit,
    LineOutcome, ScanReport,
};
