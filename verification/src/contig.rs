//! The contiguity engine: allocate and verify contiguous, fully-allocated
//! files.
//!
//! Some consumers of a file do not read it through the filesystem. They map
//! its extents once and then stream sectors straight off the block device. For
//! those, two properties matter and neither is visible through ordinary file
//! APIs: the file is **fully allocated**, and it occupies a **single
//! contiguous extent**. The modules here decide both from what the kernel
//! reported, and say what to do next while a file is being laid down.

pub mod allocation;
pub mod copy;
pub mod error;
pub mod extents;
pub mod fsinfo;
pub mod laydown;
pub mod report;
pub mod volume;

use vstd::prelude::*;

pub use error::{Error, Result, Run};
pub use extents::{Extent, ExtentMap};

verus! {

/// Everything a caller needs to judge a file, gathered in one pass.
#[derive(Debug, Clone)]
pub struct FileFacts {
    pub size: u64,
    /// `st_blocks * 512`.
    pub allocated: u64,
    pub map: ExtentMap,
    /// `statfs` `f_type`, when obtainable.
    pub fs_magic: Option<i64>,
    /// `Some(true)` when NTFS compression is set, `None` when the filesystem
    /// does not expose the attribute.
    pub compressed: Option<bool>,
}

impl FileFacts {
    /// Fewer bytes are allocated than the file is long.
    pub open spec fn sparse(&self) -> bool {
        self.size > 0 && self.allocated < self.size
    }

    /// The facts that the system reported about a file: its length and blocks,
    /// its extent map, and the magic and inode flags where obtainable.
    pub fn gather(
        size: u64,
        blocks: u64,
        map: ExtentMap,
        fs_magic: Option<i64>,
        flags: Option<i64>,
    ) -> (f: FileFacts)
        ensures
            f.size == size,
            f.allocated == fsinfo::sat_mul(blocks, 512),
            f.map == map,
            f.fs_magic == fs_magic,
            f.compressed == if fs_magic == Some(fsinfo::NTFS3_MAGIC) && flags is Some {
                Some(flags->0 & fsinfo::FS_COMPR_FL != 0)
            } else {
                None
            },
    {
        FileFacts {
            size,
            allocated: fsinfo::saturating_product(blocks, 512),
            map,
            fs_magic,
            compressed: fsinfo::is_compressed(fs_magic, flags),
        }
    }

    /// True when the file is sparse: fewer bytes allocated than its length.
    pub fn is_sparse(&self) -> (r: bool)
        ensures
            r == self.sparse(),
    {
        self.size > 0 && self.allocated < self.size
    }

    /// True when the file occupies exactly one physically contiguous run.
    pub fn is_contiguous(&self) -> (r: bool)
        ensures
            r == (self.map.runs@.len() == 1),
    {
        self.map.is_contiguous()
    }
}

/// The facts about a file are those that the system reported: blocks count 512
/// bytes each, and a file is sparse exactly when fewer bytes are allocated than
/// it is long.
pub proof fn law_facts_are_what_was_reported(
    size: u64,
    blocks: u64,
    map: ExtentMap,
    fs_magic: Option<i64>,
    flags: Option<i64>,
    f: FileFacts,
    sparse: bool,
    whole: bool,
)
    requires
        call_ensures(FileFacts::gather, (size, blocks, map, fs_magic, flags), f),
        call_ensures(FileFacts::is_sparse, (&f,), sparse),
        call_ensures(FileFacts::is_contiguous, (&f,), whole),
    ensures
        f.size == size && f.map == map && f.fs_magic == fs_magic,
        sparse <==> blocks * 512 < size,
        whole <==> map.runs@.len() == 1,
        f.compressed == Some(true) <==> fs_magic == Some(0x7366_746ei64) && (flags matches Some(b)
            && b & 4 != 0),
{
}

} // verus!
