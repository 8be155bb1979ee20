//! Kept data is for its owner alone.
use vstd::prelude::*;

verus! {

/// The access that a path is to have.
#[derive(Debug)]
pub struct ModeChange {
    pub path: String,
    pub mode: u32,
}

/// A directory is to be read, written and searched by its owner alone.
pub fn restrict_dir(path: &str) -> (r: ModeChange)
    ensures
        r.path@ == path@,
        r.mode == 0o700,
{
    ModeChange { path: path.to_owned(), mode: 0o700 }
}

/// A file is to be read and written by its owner alone.
pub fn restrict_file(path: &str) -> (r: ModeChange)
    ensures
        r.path@ == path@,
        r.mode == 0o600,
{
    ModeChange { path: path.to_owned(), mode: 0o600 }
}

/// Neither mode gives the group or others any access.
pub proof fn law_others_have_no_access(mode: u32)
    requires
        mode == 0o700 || mode == 0o600,
    ensures
        mode & 0o077 == 0,
{
    assert(0o700u32 & 0o077u32 == 0) by (bit_vector);
    assert(0o600u32 & 0o077u32 == 0) by (bit_vector);
}

} // verus!
