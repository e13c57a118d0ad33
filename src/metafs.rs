//! The server's root listing: one directory entry per configured mount.
use vstd::prelude::*;
use vstd::slice::slice_to_vec;
use vstd::utf8::encode_utf8;

verus! {

/// The file system at the root of the server, which lists the mounts.
#[derive(Clone, Copy, Debug)]
pub struct MetaFs;

/// One mount, listed as a directory.
#[derive(Clone, Debug)]
pub struct MetaFsEntry {
    name: Vec<u8>,
}

/// What the root listing says of every entry: an empty directory.
#[derive(Clone, Copy, Debug)]
pub struct MetaFsMetadata;

impl MetaFsEntry {
    pub closed spec fn name_bytes(&self) -> Seq<u8> {
        self.name@
    }

    /// The entry's name, as UTF-8 bytes.
    pub fn name(&self) -> (r: Vec<u8>)
        ensures
            r@ == self.name_bytes(),
    {
        slice_to_vec(self.name.as_slice())
    }

    pub fn metadata(&self) -> MetaFsMetadata {
        MetaFsMetadata
    }
}

impl MetaFsMetadata {
    pub fn len(&self) -> (r: u64)
        ensures
            r == 0,
    {
        0
    }

    pub fn is_dir(&self) -> (r: bool)
        ensures
            r,
    {
        true
    }
}

impl MetaFs {
    /// One directory entry for each mount name, in the order given.
    pub fn read_dir(&self, mounts: &[String]) -> (r: Vec<MetaFsEntry>)
        ensures
            r@.len() == mounts@.len(),
            forall|i: int|
                0 <= i < mounts@.len() ==> #[trigger] r@[i].name_bytes() == encode_utf8(
                    mounts@[i]@,
                ),
    {
        let mut r: Vec<MetaFsEntry> = Vec::with_capacity(mounts.len());
        let mut i: usize = 0;
        while i < mounts.len()
            invariant
                i <= mounts@.len(),
                r@.len() == i,
                forall|j: int|
                    0 <= j < i ==> #[trigger] r@[j].name_bytes() == encode_utf8(mounts@[j]@),
            decreases mounts.len() - i,
        {
            let name = slice_to_vec(mounts[i].as_str().as_bytes());
            r.push(MetaFsEntry { name });
            i += 1;
        }
        r
    }
}

} // verus!
