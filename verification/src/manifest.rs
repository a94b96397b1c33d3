//! The package manifest: a compressed payload on disk, decompressed by an
//! external filter, held here as plain bytes. The holder is stateless
//! storage, so re-reading the manifest is always possible and yields the
//! same sequence of entries; decoding the entry format itself is an
//! external collaborator's job.

use vstd::prelude::*;

verus! {

/// Decompressed manifest bytes, restartable storage.
#[derive(Clone, Debug, PartialEq, Eq)]
pub struct MTree {
    raw: Vec<u8>,
}

impl View for MTree {
    type V = Seq<u8>;

    closed spec fn view(&self) -> Seq<u8> {
        self.raw@
    }
}

impl MTree {
    /// Wrap the decompressed payload of a manifest file.
    pub fn new(raw: Vec<u8>) -> (r: MTree)
        ensures
            r@ == raw@,
    {
        MTree { raw }
    }

    /// The decompressed manifest bytes, for a reader to enumerate.
    pub fn bytes(&self) -> (r: &Vec<u8>)
        ensures
            r@ == self@,
    {
        &self.raw
    }
}

} // verus!
