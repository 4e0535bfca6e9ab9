//! Names of the disk subsystem's metrics.
use vstd::prelude::*;

verus! {

/// Handle that starts the disk subsystem (it holds nothing yet).
pub struct Init {}

/// A metric: its group and its name.
#[derive(Debug, Clone, Copy, PartialEq, Eq)]
pub struct Metric(pub &'static str, pub &'static str);

/// The metrics of the disk subsystem, in the order they are reported:
/// hardlinked files and bytes, then committed images, bytes, blocks and paths.
pub fn metrics() -> (res: Vec<Metric>)
    ensures
        res@.len() == 6,
        res@[0].0@ == "disk.hardlinks"@ && res@[0].1@ == "files"@,
        res@[1].0@ == "disk.hardlinks"@ && res@[1].1@ == "bytes"@,
        res@[2].0@ == "disk.committed"@ && res@[2].1@ == "images"@,
        res@[3].0@ == "disk.committed"@ && res@[3].1@ == "bytes"@,
        res@[4].0@ == "disk.committed"@ && res@[4].1@ == "blocks"@,
        res@[5].0@ == "disk.committed"@ && res@[5].1@ == "paths"@,
{
    let hlinks = "disk.hardlinks";
    let comm = "disk.committed";
    let mut res = Vec::new();
    res.push(Metric(hlinks, "files"));
    res.push(Metric(hlinks, "bytes"));
    res.push(Metric(comm, "images"));
    res.push(Metric(comm, "bytes"));
    res.push(Metric(comm, "blocks"));
    res.push(Metric(comm, "paths"));
    res
}

} // verus!
