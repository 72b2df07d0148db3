//! Uploads: where they are kept and how large they may be.
use vstd::prelude::*;

use crate::ids::{is_id, new_id};
use crate::path::{join_path, joined};

verus! {

/// How many bytes a subtitle may have: 64 MiB.
pub const MAX_UPLOAD_BYTES: usize = 67_108_864;

/// How many more bytes the form around it may have: 1 MiB.
pub const MULTIPART_OVERHEAD_BYTES: usize = 1_048_576;

/// Why an upload is refused.
#[derive(Clone, Copy, Debug, PartialEq, Eq, Structural)]
pub enum UploadError {
    TooLarge,
    Empty,
}

/// How many bytes of an upload have come.
#[derive(Clone, Copy, Debug, PartialEq, Eq, Structural)]
pub struct UploadMeter {
    pub written: usize,
}

impl UploadMeter {
    pub fn new() -> (r: UploadMeter)
        ensures
            r.written == 0,
    {
        UploadMeter { written: 0 }
    }

    /// Takes the next bytes, unless there are too many of them.
    pub fn chunk(&mut self, len: usize) -> (r: Result<(), UploadError>)
        requires
            old(self).written <= MAX_UPLOAD_BYTES,
        ensures
            match r {
                Ok(_) => {
                    &&& final(self).written == old(self).written + len
                    &&& final(self).written <= MAX_UPLOAD_BYTES
                },
                Err(e) => {
                    &&& e == UploadError::TooLarge
                    &&& old(self).written + len > MAX_UPLOAD_BYTES
                    &&& *final(self) == *old(self)
                },
            },
    {
        if len > MAX_UPLOAD_BYTES - self.written {
            return Err(UploadError::TooLarge);
        }
        self.written = self.written + len;
        Ok(())
    }

    /// Whether something came at all.
    pub fn finish(&self) -> (r: Result<(), UploadError>)
        ensures
            match r {
                Ok(_) => self.written > 0,
                Err(e) => self.written == 0 && e == UploadError::Empty,
            },
    {
        if self.written == 0 {
            Err(UploadError::Empty)
        } else {
            Ok(())
        }
    }
}

/// A directory for an upload, with a name of its own.
pub fn new_upload_dir(data_dir: &str) -> (r: String)
    ensures
        exists|id: Seq<char>|
            is_id(id) && r@ == #[trigger] joined(joined(data_dir@, "uploads"@), id),
{
    let all = join_path(data_dir, "uploads");
    let id = new_id();
    let r = join_path(all.as_str(), id.as_str());
    assert(is_id(id@) && r@ == joined(joined(data_dir@, "uploads"@), id@));
    r
}

// ---------------------------------------------------------------------------
// Laws
// ---------------------------------------------------------------------------
/// How many bytes the first `n` parts of an upload have.
pub open spec fn total_upto(parts: Seq<usize>, n: int) -> int
    decreases n,
{
    if n <= 0 {
        0
    } else {
        total_upto(parts, n - 1) + parts[n - 1]
    }
}

/// Whether the first `n` parts of an upload are taken.
pub open spec fn taken_upto(parts: Seq<usize>, n: int) -> bool
    decreases n,
{
    n <= 0 || (taken_upto(parts, n - 1) && total_upto(parts, n) <= MAX_UPLOAD_BYTES)
}

/// An upload is taken if and only if it is not too large as a whole.
pub proof fn law_upload_bounded(parts: Seq<usize>, n: int)
    requires
        0 <= n <= parts.len(),
    ensures
        taken_upto(parts, n) <==> total_upto(parts, n) <= MAX_UPLOAD_BYTES,
    decreases n,
{
    if n > 0 {
        law_upload_bounded(parts, n - 1);
    }
}

/// An upload of 64 mebibytes is taken, and one of a byte more is not, however it is
/// divided into parts.
pub proof fn law_upload_limit(parts: Seq<usize>)
    ensures
        taken_upto(parts, parts.len() as int) <==> total_upto(parts, parts.len() as int) <= 64 * 1024
            * 1024,
{
    law_upload_bounded(parts, parts.len() as int);
}

/// Each part counts once in the size of an upload.
pub proof fn law_each_part_counts(parts: Seq<usize>, n: int)
    requires
        0 < n <= parts.len(),
    ensures
        total_upto(parts, n) - total_upto(parts, n - 1) == parts[n - 1],
        total_upto(parts, 0) == 0,
{
}

} // verus!
