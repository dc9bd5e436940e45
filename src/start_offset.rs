//! The checkpoint: the last confirmed write cursor of the active commit-log
//! segment, kept in the first 8 bytes of a mapping of its own. Recovery
//! starts its replay there, so it may lag behind the true cursor but must
//! never pass it.

use crate::le_bytes::{le_u64, lemma_u64_round_trip, push_u64, read_u64, u64_le};
use crate::mmap::{mapped_bytes, mapping_len, mapping_read, mapping_write, splice};
use memmap2::MmapMut;
use vstd::prelude::*;

verus! {

/// The cursor that the checkpoint's bytes hold; 0 where they are too few.
pub open spec fn stored_offset(d: Seq<u8>) -> u64 {
    if d.len() < 8 {
        0
    } else {
        u64_le(d.subrange(0, 8))
    }
}

/// The checkpoint of a commit log.
pub struct StartOffset {
    pub map: MmapMut,
}

impl StartOffset {
    pub open spec fn bytes(&self) -> Seq<u8> {
        mapped_bytes(self.map)
    }

    pub fn new(map: MmapMut) -> (r: StartOffset)
        ensures
            r.bytes() == mapped_bytes(map),
    {
        StartOffset { map }
    }

    /// Stores `offset`; a mapping too small to hold it is left as it is.
    pub fn write(&mut self, offset: u64)
        ensures
            old(self).bytes().len() >= 8 ==> final(self).bytes() == splice(
                old(self).bytes(),
                0,
                le_u64(offset),
            ),
            old(self).bytes().len() >= 8 ==> stored_offset(final(self).bytes()) == offset,
            old(self).bytes().len() < 8 ==> final(self).bytes() == old(self).bytes(),
    {
        if mapping_len(&self.map) < 8 {
            return;
        }
        let mut v: Vec<u8> = Vec::new();
        push_u64(&mut v, offset);
        assert(v@ =~= le_u64(offset));
        mapping_write(&mut self.map, 0, v.as_slice());
        proof {
            assert(self.bytes().subrange(0, 8) =~= le_u64(offset));
            lemma_u64_round_trip(offset);
        }
    }

    /// The stored cursor, or 0 where the mapping cannot hold one.
    pub fn read(&self) -> (r: u64)
        ensures
            r == stored_offset(self.bytes()),
    {
        if mapping_len(&self.map) < 8 {
            return 0;
        }
        let head = mapping_read(&self.map, 0, 8);
        assert(head@.subrange(0, 8) =~= head@);
        read_u64(head.as_slice(), 0)
    }
}

} // verus!
