//! Configuration of a base directory served by the daemon.
use vstd::prelude::*;

verus! {

/// Settings of one configured base directory.
#[derive(Debug)]
pub struct Directory {
    pub directory: String,
    pub append_only: bool,
    pub num_levels: usize,
    pub upload_keys: Vec<String>,
    pub download_keys: Vec<String>,
    pub auto_clean: bool,
    pub keep_list_file: Option<String>,
    pub keep_min_directories: usize,
    pub keep_max_directories: usize,
    /// How long a directory counts as recent, in milliseconds.
    pub keep_recent: u64,
}

} // verus!
