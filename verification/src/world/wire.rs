use vstd::prelude::*;

use crate::net::codec::{
    be_bytes, varint_bytes, write_i64_to, write_u8_to, write_var, WriteError,
};
use crate::world::chunks::BlockStorage;

verus! {

/// Why a section's blocks could not be written.
#[derive(Debug, Clone, Copy, PartialEq, Eq, Structural)]
pub enum ContainerError {
    /// The entry width is none the protocol knows for blocks.
    InvalidBits(u8),
}

/// The VarInts of a list of palette entries, one after another.
pub open spec fn varints(vals: Seq<u16>) -> Seq<u8>
    decreases vals.len(),
{
    if vals.len() == 0 {
        Seq::empty()
    } else {
        varints(vals.drop_last()) + varint_bytes(vals.last() as u32)
    }
}

/// The packed words, each as its eight big-endian bytes, one after another.
pub open spec fn word_bytes(data: Seq<i64>) -> Seq<u8>
    decreases data.len(),
{
    if data.len() == 0 {
        Seq::empty()
    } else {
        word_bytes(data.drop_last()) + be_bytes((data.last() as u64) as nat, 8)
    }
}

/// Entry widths that the protocol's paletted container takes for blocks: 0 (a single
/// value) and 4 to 8 (an indirect palette).
pub open spec fn width_known(bits: u8) -> bool {
    bits == 0 || (4 <= bits && bits <= 8)
}

/// A section's blocks as the protocol sends them: the entry width, then for width 0 the
/// one palette entry, for widths 4 to 8 the palette's length and entries and the packed
/// words.
pub open spec fn container_bytes(s: BlockStorage) -> Seq<u8> {
    let bits = s.bits_per_block;
    if bits == 0 {
        seq![bits] + varint_bytes(s.palette@[0] as u32)
    } else {
        seq![bits] + varint_bytes((s.palette@.len() as i32) as u32) + varints(s.palette@)
            + word_bytes(s.data@)
    }
}

impl BlockStorage {
    /// Appends the section's blocks in the protocol's paletted-container form. An entry
    /// width the protocol does not take is refused, after the width byte was written;
    /// any other succeeds.
    pub fn write_paletted_container(&self, w: &mut Vec<u8>) -> (r: Result<(), ContainerError>)
        requires
            self.bits_per_block != 15,
            self.palette@.len() >= 1,
        ensures
            r is Ok ==> width_known(self.bits_per_block) && final(w)@ == old(w)@ + container_bytes(
                *self,
            ),
            r matches Err(ContainerError::InvalidBits(b)) ==> b == self.bits_per_block
                && !width_known(self.bits_per_block) && final(w)@ == old(w)@.push(b),
            width_known(self.bits_per_block) ==> r is Ok,
            !width_known(self.bits_per_block) ==> r == Err::<(), ContainerError>(
                ContainerError::InvalidBits(self.bits_per_block),
            ),
    {
        let bits = self.bits_per_block;
        let ghost start = w@;
        let _ = write_u8_to(w, bits);
        if bits == 0 {
            write_var(w, self.palette[0] as i32);
            assert((self.palette@[0] as i32) as u32 == self.palette@[0] as u32);
            assert(w@ =~= start + container_bytes(*self));
            return Ok(());
        }
        if !(4 <= bits && bits <= 8) {
            return Err(ContainerError::InvalidBits(bits));
        }
        write_var(w, self.palette.len() as i32);
        let ghost head = w@;
        let mut i: usize = 0;
        assert(self.palette@.subrange(0, 0) =~= Seq::<u16>::empty());
        while i < self.palette.len()
            invariant
                i <= self.palette@.len(),
                w@ == head + varints(self.palette@.subrange(0, i as int)),
            decreases self.palette@.len() - i,
        {
            let v = self.palette[i];
            write_var(w, v as i32);
            proof {
                assert(self.palette@.subrange(0, i + 1).drop_last() =~= self.palette@.subrange(
                    0,
                    i as int,
                ));
                assert((v as i32) as u32 == v as u32);
                assert(w@ =~= head + varints(self.palette@.subrange(0, i + 1)));
            }
            i = i + 1;
        }
        assert(self.palette@.subrange(0, i as int) =~= self.palette@);
        let ghost body = w@;
        let mut j: usize = 0;
        assert(self.data@.subrange(0, 0) =~= Seq::<i64>::empty());
        while j < self.data.len()
            invariant
                j <= self.data@.len(),
                w@ == body + word_bytes(self.data@.subrange(0, j as int)),
            decreases self.data@.len() - j,
        {
            let ghost before = w@;
            let _ = write_i64_to(w, self.data[j]);
            proof {
                assert(self.data@.subrange(0, j + 1).drop_last() =~= self.data@.subrange(
                    0,
                    j as int,
                ));
                assert(w@ =~= body + word_bytes(self.data@.subrange(0, j + 1)));
            }
            j = j + 1;
        }
        assert(self.data@.subrange(0, j as int) =~= self.data@);
        assert(w@ =~= start + container_bytes(*self));
        Ok(())
    }
}

} // verus!
