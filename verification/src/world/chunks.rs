use vstd::prelude::*;

use crate::world::packing::{
    entry_in_bounds, lemma_mask_facts, lemma_read_after_write, lemma_read_range,
    lemma_write_frame, lemma_write_len, mask64, packed_read, packed_write, write_hazard,
};

verus! {

/// Number of block positions in a 16x16x16 section.
pub const SECTION_VOLUME: usize = 4096;

/// Palette indices of one section, packed `bits_per_block` bits apiece into 64-bit words.
pub struct BlockStorage {
    pub palette: Vec<u16>,
    pub bits_per_block: u8,
    pub data: Vec<i64>,
}

/// The words laid down by writing `vals[0..n]` one after another, from entry 0 up,
/// into a zeroed buffer of `len` words with entries `bits` wide.
pub open spec fn repacked(vals: Seq<u16>, bits: nat, len: nat, n: nat) -> Seq<i64>
    decreases n,
{
    if n == 0 {
        Seq::new(len, |i: int| 0i64)
    } else {
        packed_write(repacked(vals, bits, len, (n - 1) as nat), bits, (n - 1) as nat, vals[n - 1])
    }
}

/// The palette indices that the 4096 entries of `data` read as, entries `bits` wide.
pub open spec fn section_reads(data: Seq<i64>, bits: nat) -> Seq<u16> {
    Seq::new(SECTION_VOLUME as nat, |i: int| packed_read(data, bits, i as nat))
}

/// Every entry below `n` of a buffer laid down by `repacked` reads back as the value
/// written to it, cut to the entry width, unless that write ran into the sign-bit hazard.
pub proof fn lemma_repacked_reads(vals: Seq<u16>, bits: nat, n: nat)
    requires
        1 <= bits < 63,
        n <= SECTION_VOLUME,
        vals.len() >= n,
    ensures
        repacked(vals, bits, 64 * bits, n).len() == 64 * bits,
        forall|j: nat|
            j < n && !write_hazard(bits, j, vals[j as int]) ==> #[trigger] packed_read(
                repacked(vals, bits, 64 * bits, n),
                bits,
                j,
            ) == (((vals[j as int] as i64) & mask64(bits as u64)) as u16),
    decreases n,
{
    if n > 0 {
        let m = (n - 1) as nat;
        lemma_repacked_reads(vals, bits, m);
        let prev = repacked(vals, bits, 64 * bits, m);
        lemma_in_bounds(bits, m);
        lemma_write_len(prev, bits, m, vals[m as int]);
        assert forall|j: nat|
            j < n && !write_hazard(bits, j, vals[j as int]) implies #[trigger] packed_read(
                repacked(vals, bits, 64 * bits, n),
                bits,
                j,
            ) == (((vals[j as int] as i64) & mask64(bits as u64)) as u16) by {
            if j == m {
                lemma_read_after_write(prev, bits, m, vals[m as int]);
            } else {
                lemma_in_bounds(bits, j);
                lemma_write_frame(prev, bits, m, j, vals[m as int]);
            }
        }
    }
}

/// Entry `idx` of a section lies inside a buffer of `64 * bits` words.
pub proof fn lemma_in_bounds(bits: nat, idx: nat)
    requires
        idx < SECTION_VOLUME,
    ensures
        entry_in_bounds(64 * bits, bits, idx),
        idx * bits + bits <= SECTION_VOLUME * bits,
{
    if bits > 0 {
        assert(idx * bits + bits <= 4096 * bits) by (nonlinear_arith)
            requires
                idx < 4096,
        ;
        assert((idx * bits + bits - 1) / 64 < 64 * bits) by (nonlinear_arith)
            requires
                idx * bits + bits <= 4096 * bits,
                bits >= 1,
        ;
    }
}

/// The block that entry `idx` reads as: the palette entry that its index names, or
/// air (0) where the index lies past the palette.
pub open spec fn block_in(data: Seq<i64>, bits: nat, palette: Seq<u16>, idx: nat) -> u16 {
    let p = packed_read(data, bits, idx);
    if (p as int) < palette.len() {
        palette[p as int]
    } else {
        0
    }
}

impl BlockStorage {
    /// The storage holds a full section: every one of its 4096 entries lies inside `data`.
    pub open spec fn wf(&self) -> bool {
        &&& self.bits_per_block < 63
        &&& self.data@.len() == 64 * self.bits_per_block
    }

    /// The palette index that entry `idx` reads as.
    pub open spec fn index_at(&self, idx: nat) -> u16 {
        packed_read(self.data@, self.bits_per_block as nat, idx)
    }

    /// The block that entry `idx` reads as.
    pub open spec fn block_at(&self, idx: nat) -> u16 {
        block_in(self.data@, self.bits_per_block as nat, self.palette@, idx)
    }

    pub fn new() -> (s: Self)
        ensures
            s.palette@ == seq![0u16],
            s.bits_per_block == 0,
            s.data@.len() == 0,
            s.wf(),
    {
        BlockStorage { palette: vec![0], bits_per_block: 0, data: Vec::new() }
    }

    /// Reads entry `idx` of the packed data as if entries were `bits` wide.
    pub fn get_palette_index(&self, idx: usize, bits: usize) -> (r: u16)
        requires
            bits < 63,
            idx * bits + bits <= usize::MAX,
            entry_in_bounds(self.data@.len(), bits as nat, idx as nat),
        ensures
            r == packed_read(self.data@, bits as nat, idx as nat),
    {
        if bits == 0 {
            return 0;
        }
        let bit_idx = idx * bits;
        let data_idx = bit_idx / 64;
        let bit_offset = bit_idx % 64;
        assert(data_idx < self.data@.len()) by {
            assert(bit_idx as int / 64 <= (bit_idx + bits - 1) / 64);
        }
        assert(1i64 << bits >= 1) by (bit_vector)
            requires
                1 <= bits < 63,
        ;
        let mask = (1i64 << bits) - 1;
        let mut value = (self.data[data_idx] >> bit_offset) & mask;
        if bit_offset + bits > 64 {
            let extra_bits = bit_offset + bits - 64;
            assert(data_idx + 1 < self.data@.len()) by {
                assert((bit_idx + bits - 1) / 64 >= data_idx + 1);
            }
            assert(1i64 << extra_bits >= 1) by (bit_vector)
                requires
                    1 <= extra_bits < 63,
            ;
            value = value | ((self.data[data_idx + 1] & ((1i64 << extra_bits) - 1)) << (bits
                - extra_bits));
        }
        value as u16
    }

    /// Re-lays the 4096 entries at `new_bits_per_block` bits apiece: reads each entry at
    /// the old width, then writes them all, in order, into a zeroed buffer of the new size.
    pub fn resize_and_repack(&mut self, new_bits_per_block: u8)
        requires
            old(self).wf(),
            new_bits_per_block < 63,
        ensures
            final(self).wf(),
            final(self).palette == old(self).palette,
            final(self).bits_per_block == new_bits_per_block,
            final(self).data@ == repacked(
                section_reads(old(self).data@, old(self).bits_per_block as nat),
                new_bits_per_block as nat,
                (64 * new_bits_per_block) as nat,
                SECTION_VOLUME as nat,
            ),
            forall|j: nat|
                j < SECTION_VOLUME && new_bits_per_block > 0 && !write_hazard(
                    new_bits_per_block as nat,
                    j,
                    old(self).index_at(j),
                ) ==> #[trigger] final(self).index_at(j) == (((old(self).index_at(j) as i64)
                    & mask64(new_bits_per_block as u64)) as u16),
    {
        let old_bits = self.bits_per_block as usize;
        let new_bits = new_bits_per_block as usize;
        let ghost old_data = self.data@;
        let ghost vals = section_reads(old_data, old_bits as nat);

        let mut indices: Vec<u16> = Vec::with_capacity(SECTION_VOLUME);
        let mut i: usize = 0;
        while i < SECTION_VOLUME
            invariant
                i <= SECTION_VOLUME,
                self.data@ == old_data,
                vals == section_reads(old_data, old_bits as nat),
                self.palette == old(self).palette,
                self.bits_per_block as usize == old_bits,
                old_bits < 63,
                old_data.len() == 64 * old_bits,
                indices@.len() == i,
                forall|k: int| 0 <= k < i ==> indices@[k] == vals[k],
            decreases SECTION_VOLUME - i,
        {
            proof {
                lemma_in_bounds(old_bits as nat, i as nat);
            }
            let p = self.get_palette_index(i, old_bits);
            assert(vals[i as int] == p);
            indices.push(p);
            i = i + 1;
        }

        let new_size = (SECTION_VOLUME * new_bits + 63) / 64;
        assert(new_size == 64 * new_bits);
        let mut data: Vec<i64> = Vec::new();
        let mut k: usize = 0;
        while k < new_size
            invariant
                k <= new_size,
                data@ == Seq::new(k as nat, |i: int| 0i64),
            decreases new_size - k,
        {
            data.push(0);
            k = k + 1;
            assert(data@ =~= Seq::new(k as nat, |i: int| 0i64));
        }
        self.data = data;
        self.bits_per_block = new_bits_per_block;

        let mut j: usize = 0;
        while j < SECTION_VOLUME
            invariant
                j <= SECTION_VOLUME,
                self.bits_per_block == new_bits_per_block,
                self.palette == old(self).palette,
                new_bits == new_bits_per_block as usize,
                new_bits < 63,
                indices@.len() == SECTION_VOLUME,
                vals == section_reads(old_data, old_bits as nat),
                forall|k: int| 0 <= k < SECTION_VOLUME ==> indices@[k] == vals[k],
                self.data@ == repacked(vals, new_bits as nat, 64 * new_bits as nat, j as nat),
                self.data@.len() == 64 * new_bits,
            decreases SECTION_VOLUME - j,
        {
            proof {
                lemma_in_bounds(new_bits as nat, j as nat);
                lemma_write_len(self.data@, new_bits as nat, j as nat, indices@[j as int]);
            }
            self.set_palette_index(j, indices[j]);
            j = j + 1;
        }
        proof {
            if new_bits > 0 {
                lemma_repacked_reads(vals, new_bits as nat, SECTION_VOLUME as nat);
            }
        }
    }

    /// Stores `palette_index` in entry `idx`; does nothing while the storage holds no bits.
    pub fn set_palette_index(&mut self, idx: usize, palette_index: u16)
        requires
            old(self).bits_per_block < 63,
            idx * old(self).bits_per_block + old(self).bits_per_block <= usize::MAX,
            entry_in_bounds(
                old(self).data@.len(),
                old(self).bits_per_block as nat,
                idx as nat,
            ),
        ensures
            final(self).palette == old(self).palette,
            final(self).bits_per_block == old(self).bits_per_block,
            final(self).data@ == packed_write(
                old(self).data@,
                old(self).bits_per_block as nat,
                idx as nat,
                palette_index,
            ),
    {
        if self.bits_per_block == 0 {
            return;
        }
        let bits = self.bits_per_block as usize;
        let bit_idx = idx * bits;
        let data_idx = bit_idx / 64;
        let bit_offset = bit_idx % 64;
        assert(data_idx < self.data@.len()) by {
            assert(bit_idx as int / 64 <= (bit_idx + bits - 1) / 64);
        }
        assert(1i64 << bits >= 1) by (bit_vector)
            requires
                1 <= bits < 63,
        ;
        let mask = (1i64 << bits) - 1;
        let w0 = self.data[data_idx];
        self.data.set(
            data_idx,
            (w0 & !(mask << bit_offset)) | (((palette_index as i64) & mask) << bit_offset),
        );
        if bit_offset + bits > 64 {
            let extra_bits = bit_offset + bits - 64;
            assert(data_idx + 1 < self.data@.len()) by {
                assert((bit_idx + bits - 1) / 64 >= data_idx + 1);
            }
            assert(1i64 << extra_bits >= 1) by (bit_vector)
                requires
                    1 <= extra_bits < 63,
            ;
            let extra_mask = (1i64 << extra_bits) - 1;
            let w1 = self.data[data_idx + 1];
            self.data.set(
                data_idx + 1,
                (w1 & !extra_mask) | (((palette_index as i64) >> (bits - extra_bits))
                    & extra_mask),
            );
        }
    }
}

/// The entry width a section uses for a palette of `n` blocks: none for a single
/// block, at least 4 bits, enough bits to number every palette entry up to 8 bits,
/// and 15 bits beyond that.
pub open spec fn bits_for_palette(n: nat) -> u8 {
    if n == 1 {
        0
    } else if n <= 16 {
        4
    } else if n <= 32 {
        5
    } else if n <= 64 {
        6
    } else if n <= 128 {
        7
    } else if n <= 256 {
        8
    } else {
        15
    }
}

/// Position of block (`x`, `y`, `z`) inside a section's 4096 entries.
pub open spec fn section_index(x: int, y: int, z: int) -> int {
    y * 256 + z * 16 + x
}

/// The first position at which `v` occurs in `s`, or -1 where it does not occur.
pub open spec fn first_position(s: Seq<u16>, v: u16) -> int
    decreases s.len(),
{
    if s.len() == 0 {
        -1
    } else if s[0] == v {
        0
    } else {
        let r = first_position(s.drop_first(), v);
        if r < 0 {
            -1
        } else {
            r + 1
        }
    }
}

proof fn lemma_first_position_props(s: Seq<u16>, v: u16)
    ensures
        first_position(s, v) >= 0 ==> first_position(s, v) < s.len() && s[first_position(s, v)]
            == v,
        first_position(s, v) < 0 ==> first_position(s, v) == -1 && !s.contains(v),
    decreases s.len(),
{
    if s.len() > 0 && s[0] != v {
        lemma_first_position_props(s.drop_first(), v);
        if first_position(s, v) < 0 {
            assert forall|k: int| 0 <= k < s.len() implies s[k] != v by {
                if k > 0 {
                    assert(s.drop_first()[k - 1] == s[k]);
                }
            }
        }
    }
}

proof fn lemma_first_position(s: Seq<u16>, v: u16, i: int)
    requires
        0 <= i <= s.len(),
        forall|k: int| 0 <= k < i ==> s[k] != v,
    ensures
        i < s.len() && s[i] == v ==> first_position(s, v) == i,
        i == s.len() ==> first_position(s, v) == -1,
    decreases s.len(),
{
    if s.len() > 0 && i > 0 {
        assert(s[0] != v);
        lemma_first_position(s.drop_first(), v, i - 1);
    }
}

/// The palette slot that a block takes: its first position in the palette, or the
/// end of the palette, where it is appended.
pub open spec fn slot_for(palette: Seq<u16>, b: u16) -> int {
    let p = first_position(palette, b);
    if p < 0 {
        palette.len() as int
    } else {
        p
    }
}

/// The palette once `b` has been placed: `b` appended where it was missing.
pub open spec fn palette_after(palette: Seq<u16>, b: u16) -> Seq<u16> {
    if first_position(palette, b) < 0 {
        palette.push(b)
    } else {
        palette
    }
}

/// Placing `b` grows the palette past what `bits`-wide entries were chosen for.
pub open spec fn grows_entries(palette: Seq<u16>, bits: u8, b: u16) -> bool {
    first_position(palette, b) < 0 && bits_for_palette(palette.len() + 1) > bits
}

/// The entry width once `b` has been placed.
pub open spec fn bits_after(palette: Seq<u16>, bits: u8, b: u16) -> u8 {
    if grows_entries(palette, bits, b) {
        bits_for_palette(palette.len() + 1)
    } else {
        bits
    }
}

/// The non-air count once a block that read as `old_block` is replaced by `b`.
pub open spec fn count_after(count: i16, old_block: u16, b: u16) -> int {
    if old_block == 0 && b != 0 {
        count + 1
    } else if old_block != 0 && b == 0 {
        count - 1
    } else {
        count as int
    }
}

/// What `set_block` does to the blocks that a section reads as: the placed block reads
/// back where its placement is exact, and every other entry that is kept reads as before.
pub proof fn lemma_placement(s: Section, idx: nat, b: u16)
    requires
        s.wf(),
        idx < SECTION_VOLUME,
    ensures
        s.placement_exact(idx, b) ==> block_in(
            s.data_after(idx, b),
            bits_after(s.blocks.palette@, s.blocks.bits_per_block, b) as nat,
            palette_after(s.blocks.palette@, b),
            idx,
        ) == b,
        forall|j: nat|
            j < SECTION_VOLUME && j != idx && s.entry_kept(j, b) ==> #[trigger] block_in(
                s.data_after(idx, b),
                bits_after(s.blocks.palette@, s.blocks.bits_per_block, b) as nat,
                palette_after(s.blocks.palette@, b),
                j,
            ) == s.blocks.block_at(j),
{
    let palette = s.blocks.palette@;
    let ob = s.blocks.bits_per_block;
    let nb = bits_after(palette, ob, b);
    let slot = slot_for(palette, b);
    let np = palette_after(palette, b);
    let grows = grows_entries(palette, ob, b);
    let reads = section_reads(s.blocks.data@, ob as nat);
    let base = if grows {
        repacked(reads, nb as nat, (64 * nb) as nat, SECTION_VOLUME as nat)
    } else {
        s.blocks.data@
    };
    let fd = s.data_after(idx, b);
    lemma_first_position_props(palette, b);
    assert(0 <= slot < np.len() && np[slot] == b);
    assert(nb <= 15);
    if grows {
        lemma_repacked_reads(reads, nb as nat, SECTION_VOLUME as nat);
    }
    assert(base.len() == 64 * nb);
    if nb == 0 {
        assert(slot == 0);
    } else {
        lemma_in_bounds(nb as nat, idx);
        if s.placement_exact(idx, b) {
            lemma_read_after_write(base, nb as nat, idx, slot as u16);
            lemma_mask_facts(slot as i64, nb as u64, 15);
            lemma_mask_facts(slot as i64, nb as u64, nb as u64);
            assert(mask64(15) == 32767) by (bit_vector);
            assert((slot as u16) as i64 == slot);
            assert(packed_read(fd, nb as nat, idx) == slot as u16);
        }
    }
    assert forall|j: nat|
        j < SECTION_VOLUME && j != idx && s.entry_kept(j, b) implies #[trigger] block_in(
        fd,
        nb as nat,
        np,
        j,
    ) == s.blocks.block_at(j) by {
        let oi = s.blocks.index_at(j);
        assert(fd == packed_write(base, nb as nat, idx, slot as u16));
        if nb > 0 {
            lemma_in_bounds(nb as nat, j);
            lemma_in_bounds(nb as nat, idx);
            lemma_write_frame(base, nb as nat, idx, j, slot as u16);
            if grows {
                assert(packed_read(base, nb as nat, j) == (((reads[j as int] as i64) & mask64(
                    nb as u64,
                )) as u16));
                assert(reads[j as int] == oi);
                if ob > 0 {
                    lemma_in_bounds(ob as nat, j);
                    lemma_read_range(s.blocks.data@, ob as nat, j);
                    lemma_mask_facts(oi as i64, ob as u64, nb as u64);
                } else {
                    lemma_mask_facts(oi as i64, 0, nb as u64);
                    assert(mask64(0) == 0) by (bit_vector);
                }
                assert(((oi as i64) & mask64(nb as u64)) == oi as i64);
            } else {
                assert(base == s.blocks.data@);
                assert(nb == ob);
            }
        }
        assert(packed_read(fd, nb as nat, j) == oi);
        assert(np[oi as int] == palette[oi as int]);
    }
}

/// The laws of `lemma_placement`, read off a section that holds what `set_block` leaves.
pub proof fn lemma_set_block_effect(s: Section, t: Section, idx: nat, b: u16)
    requires
        s.wf(),
        idx < SECTION_VOLUME,
        t.blocks.palette@ == palette_after(s.blocks.palette@, b),
        t.blocks.bits_per_block == bits_after(s.blocks.palette@, s.blocks.bits_per_block, b),
        t.blocks.data@ == s.data_after(idx, b),
    ensures
        s.placement_exact(idx, b) ==> t.blocks.block_at(idx) == b,
        forall|j: nat|
            j < SECTION_VOLUME && j != idx && s.entry_kept(j, b) ==> #[trigger] t.blocks.block_at(
                j,
            ) == s.blocks.block_at(j),
{
    lemma_placement(s, idx, b);
    assert forall|j: nat|
        j < SECTION_VOLUME && j != idx && s.entry_kept(j, b) implies #[trigger] t.blocks.block_at(
        j,
    ) == s.blocks.block_at(j) by {
        assert(t.blocks.block_at(j) == block_in(
            s.data_after(idx, b),
            bits_after(s.blocks.palette@, s.blocks.bits_per_block, b) as nat,
            palette_after(s.blocks.palette@, b),
            j,
        ));
    }
}

/// `t` is what `set_block` leaves of section `s` once block `b` is placed at entry `idx`.
pub open spec fn placed(s: Section, t: Section, idx: nat, b: u16) -> bool {
    &&& t.y == s.y
    &&& t.block_count == count_after(s.block_count, s.blocks.block_at(idx), b)
    &&& t.blocks.palette@ == palette_after(s.blocks.palette@, b)
    &&& t.blocks.bits_per_block == bits_after(s.blocks.palette@, s.blocks.bits_per_block, b)
    &&& t.blocks.data@ == s.data_after(idx, b)
}

/// A 16x16x16 block of the world, stored as a palette and packed palette indices.
pub struct Section {
    pub y: i32,
    pub blocks: BlockStorage,
    pub block_count: i16,
}

impl Section {
    pub fn new(y: i32) -> (s: Self)
        ensures
            s.y == y,
            s.blocks.palette@ == seq![0u16],
            s.blocks.bits_per_block == 0,
            s.blocks.data@.len() == 0,
            s.block_count == 0,
            s.blocks.wf(),
    {
        Section { y, blocks: BlockStorage::new(), block_count: 0 }
    }

    pub open spec fn wf(&self) -> bool {
        &&& self.blocks.wf()
        &&& self.blocks.bits_per_block <= 15
        &&& self.blocks.palette@.len() >= 1
        &&& self.blocks.bits_per_block == 0 ==> self.blocks.palette@.len() == 1
    }

    /// Placing `b` at entry `idx` stores a palette slot that fits the entry width and
    /// whose write does not run into the sign-bit hazard.
    pub open spec fn placement_exact(&self, idx: nat, b: u16) -> bool {
        let nb = bits_after(self.blocks.palette@, self.blocks.bits_per_block, b);
        let slot = slot_for(self.blocks.palette@, b);
        &&& !write_hazard(nb as nat, idx, slot as u16)
        &&& slot <= mask64(nb as u64)
    }

    /// Entry `j` keeps its block while `b` is placed elsewhere: its index names a
    /// palette entry, and, where the entries are re-laid, its re-write does not run
    /// into the sign-bit hazard.
    pub open spec fn entry_kept(&self, j: nat, b: u16) -> bool {
        let nb = bits_after(self.blocks.palette@, self.blocks.bits_per_block, b);
        &&& (self.blocks.index_at(j) as int) < self.blocks.palette@.len()
        &&& grows_entries(self.blocks.palette@, self.blocks.bits_per_block, b) ==> !write_hazard(
            nb as nat,
            j,
            self.blocks.index_at(j),
        )
    }

    /// The packed words after `b` is placed at entry `idx`: when the palette outgrows the
    /// entry width, every entry is first re-laid at the new width; then the block's
    /// palette slot is written to entry `idx`.
    pub open spec fn data_after(&self, idx: nat, b: u16) -> Seq<i64> {
        let palette = self.blocks.palette@;
        let bits = self.blocks.bits_per_block;
        let nb = bits_after(palette, bits, b);
        let base = if grows_entries(palette, bits, b) {
            repacked(
                section_reads(self.blocks.data@, bits as nat),
                nb as nat,
                (64 * nb) as nat,
                SECTION_VOLUME as nat,
            )
        } else {
            self.blocks.data@
        };
        packed_write(base, nb as nat, idx, slot_for(palette, b) as u16)
    }

    /// Places block `block_id` at (`x`, `y`, `z`): appends it to the palette where it is
    /// missing, widens the entries where the palette outgrows them, stores its palette
    /// slot, and counts the section's non-air blocks up or down.
    pub fn set_block(&mut self, x: u8, y: u8, z: u8, block_id: u16)
        requires
            old(self).wf(),
            (x < 16 && y < 16 && z < 16) || (old(self).blocks.bits_per_block == 0
                && first_position(old(self).blocks.palette@, block_id) >= 0),
            count_after(
                old(self).block_count,
                old(self).blocks.block_at(section_index(x as int, y as int, z as int) as nat),
                block_id,
            ) >= i16::MIN,
            count_after(
                old(self).block_count,
                old(self).blocks.block_at(section_index(x as int, y as int, z as int) as nat),
                block_id,
            ) <= i16::MAX,
        ensures
            final(self).wf(),
            final(self).y == old(self).y,
            final(self).block_count == count_after(
                old(self).block_count,
                old(self).blocks.block_at(section_index(x as int, y as int, z as int) as nat),
                block_id,
            ),
            final(self).blocks.palette@ == palette_after(old(self).blocks.palette@, block_id),
            final(self).blocks.bits_per_block == bits_after(
                old(self).blocks.palette@,
                old(self).blocks.bits_per_block,
                block_id,
            ),
            final(self).blocks.data@ == old(self).data_after(
                section_index(x as int, y as int, z as int) as nat,
                block_id,
            ),
            placed(
                *old(self),
                *final(self),
                section_index(x as int, y as int, z as int) as nat,
                block_id,
            ),
            x < 16 && y < 16 && z < 16 && old(self).placement_exact(
                section_index(x as int, y as int, z as int) as nat,
                block_id,
            ) ==> final(self).blocks.block_at(section_index(x as int, y as int, z as int) as nat)
                == block_id,
            forall|j: nat|
                x < 16 && y < 16 && z < 16 && j < SECTION_VOLUME && j != section_index(
                    x as int,
                    y as int,
                    z as int,
                ) && old(self).entry_kept(j, block_id) ==> #[trigger] final(self).blocks.block_at(
                    j,
                ) == old(self).blocks.block_at(j),
    {
        let idx = (y as usize * 16 * 16) + (z as usize * 16) + (x as usize);
        let bits = self.blocks.bits_per_block as usize;
        proof {
            if idx < SECTION_VOLUME {
                lemma_in_bounds(bits as nat, idx as nat);
            } else {
                assert(idx * bits == 0) by (nonlinear_arith)
                    requires
                        bits == 0,
                ;
            }
        }
        let old_palette_idx = self.blocks.get_palette_index(idx, bits);
        let old_block = if (old_palette_idx as usize) < self.blocks.palette.len() {
            self.blocks.palette[old_palette_idx as usize]
        } else {
            0
        };

        let ghost old_palette = self.blocks.palette@;
        let plen = self.blocks.palette.len();
        let mut i: usize = 0;
        while i < plen && self.blocks.palette[i] != block_id
            invariant
                i <= plen,
                plen == self.blocks.palette@.len(),
                forall|k: int| 0 <= k < i ==> self.blocks.palette@[k] != block_id,
            decreases plen - i,
        {
            i = i + 1;
        }
        proof {
            lemma_first_position(self.blocks.palette@, block_id, i as int);
        }

        if old_block == 0 && block_id != 0 {
            self.block_count = self.block_count + 1;
        } else if old_block != 0 && block_id == 0 {
            self.block_count = self.block_count - 1;
        }

        let palette_index = if i < plen {
            i
        } else {
            self.blocks.palette.push(block_id);
            let p = self.blocks.palette.len() - 1;
            let new_bits_per_block = Self::calculate_bits_per_block(self.blocks.palette.len());
            if new_bits_per_block > self.blocks.bits_per_block {
                self.blocks.resize_and_repack(new_bits_per_block);
            }
            p
        };
        assert(self.blocks.palette@ == palette_after(old_palette, block_id));
        let nbits = self.blocks.bits_per_block as usize;
        assert(nbits < 63);
        proof {
            if idx < SECTION_VOLUME {
                lemma_in_bounds(nbits as nat, idx as nat);
            }
        }
        self.blocks.set_palette_index(idx, palette_index as u16);
        proof {
            if idx < SECTION_VOLUME {
                lemma_set_block_effect(*old(self), *self, idx as nat, block_id);
            }
        }
    }

    /// The entry width for a palette of `palette_size` blocks.
    pub fn calculate_bits_per_block(palette_size: usize) -> (r: u8)
        ensures
            r == bits_for_palette(palette_size as nat),
    {
        if palette_size == 1 {
            return 0;
        }
        // the least number of bits that can number `palette_size` entries
        let mut min_bits: u64 = 0;
        while min_bits < 64 && (1u64 << min_bits) < palette_size as u64
            invariant
                min_bits <= 64,
                forall|j: u64| j < min_bits ==> (1u64 << j) < palette_size as u64,
            decreases 64 - min_bits,
        {
            min_bits = min_bits + 1;
        }
        assert((1u64 << 4u64) == 16 && (1u64 << 5u64) == 32 && (1u64 << 6u64) == 64 && (1u64
            << 7u64) == 128 && (1u64 << 8u64) == 256 && (1u64 << 3u64) == 8) by (bit_vector);
        assert(forall|j: u64| j <= 8 && j < min_bits ==> (1u64 << j) < palette_size as u64);
        if min_bits < 64 {
            assert(forall|a: u64, b: u64| a <= b && b < 64 ==> (1u64 << a) <= (1u64 << b))
                by (bit_vector);
        }
        let bits = if min_bits > 4 { min_bits } else { 4 };
        if bits <= 8 {
            bits as u8
        } else {
            15
        }
    }
}

/// Index in a chunk's sections of the section that holds height `y`: sections are 16
/// blocks tall and the lowest one starts at y = -64.
pub open spec fn section_slot(y: int) -> int {
    y / 16 + 4
}

/// `y` divided by 16, rounded down.
pub fn floor_div16(y: i32) -> (r: i32)
    ensures
        r == y / 16,
{
    assert((y >> 4) == y / 16) by (bit_vector);
    y >> 4
}

/// `y` modulo 16, in 0..16.
pub fn low4(y: i32) -> (r: u8)
    ensures
        r == y % 16,
{
    assert((y & 15) == y % 16) by (bit_vector);
    assert(0 <= (y & 15) < 16) by (bit_vector);
    (y & 15) as u8
}

/// `d` is what `set_block` leaves of chunk `c` once block `b` is placed at (`x`, `y`, `z`).
pub open spec fn chunk_placed(c: Chunk, d: Chunk, x: int, y: int, z: int, b: u16) -> bool {
    let si = section_slot(y);
    &&& d.x == c.x
    &&& d.z == c.z
    &&& d.sections@.len() == c.sections@.len()
    &&& forall|i: int|
        0 <= i < c.sections@.len() && i != si ==> #[trigger] d.sections@[i] == c.sections@[i]
    &&& 0 <= si < c.sections@.len() ==> placed(
        c.sections@[si],
        d.sections@[si],
        section_index(x, y % 16, z) as nat,
        b,
    )
    &&& !(0 <= si < c.sections@.len()) ==> d.sections@ == c.sections@
}

proof fn lemma_position_unique(x: int, y: int, z: int, x2: int, y2: int, z2: int)
    requires
        0 <= x < 16,
        0 <= z < 16,
        0 <= x2 < 16,
        0 <= z2 < 16,
        section_slot(y) == section_slot(y2),
        section_index(x, y % 16, z) == section_index(x2, y2 % 16, z2),
    ensures
        x == x2 && y == y2 && z == z2,
{
    assert(0 <= y % 16 < 16 && 0 <= y2 % 16 < 16);
    assert(y == 16 * (y / 16) + y % 16 && y2 == 16 * (y2 / 16) + y2 % 16);
}

/// Read-after-write for chunks: once `set_block` has placed `b` at (`x`, `y`, `z`),
/// that position reads as `b` wherever the placement in its section is exact, and every
/// other position of the chunk's 16x16 area reads as before, unless it shares the
/// section and is not kept there.
pub proof fn lemma_chunk_set_get(c: Chunk, d: Chunk, x: int, y: int, z: int, b: u16)
    requires
        c.wf(),
        0 <= x < 16,
        0 <= z < 16,
        chunk_placed(c, d, x, y, z, b),
    ensures
        0 <= section_slot(y) < c.sections@.len() && c.sections@[section_slot(
            y,
        )].placement_exact(section_index(x, y % 16, z) as nat, b) ==> d.block_at(x, y, z) == b,
        forall|x2: int, y2: int, z2: int|
            0 <= x2 < 16 && 0 <= z2 < 16 && !(x2 == x && y2 == y && z2 == z) && (section_slot(y2)
                != section_slot(y) || c.sections@[section_slot(y)].entry_kept(
                section_index(x2, y2 % 16, z2) as nat,
                b,
            )) ==> #[trigger] d.block_at(x2, y2, z2) == c.block_at(x2, y2, z2),
{
    let si = section_slot(y);
    let idx = section_index(x, y % 16, z);
    assert(0 <= y % 16 < 16);
    if 0 <= si < c.sections@.len() {
        assert(c.sections@[si].wf());
        lemma_set_block_effect(c.sections@[si], d.sections@[si], idx as nat, b);
    }
    assert forall|x2: int, y2: int, z2: int|
        0 <= x2 < 16 && 0 <= z2 < 16 && !(x2 == x && y2 == y && z2 == z) && (section_slot(y2)
            != section_slot(y) || c.sections@[section_slot(y)].entry_kept(
            section_index(x2, y2 % 16, z2) as nat,
            b,
        )) implies #[trigger] d.block_at(x2, y2, z2) == c.block_at(x2, y2, z2) by {
        let si2 = section_slot(y2);
        let idx2 = section_index(x2, y2 % 16, z2);
        assert(0 <= y2 % 16 < 16);
        if si2 == si && 0 <= si < c.sections@.len() {
            if idx2 == idx {
                lemma_position_unique(x, y, z, x2, y2, z2);
            }
            assert(0 <= idx2 < SECTION_VOLUME);
        }
    }
}

/// The highest height `k'` in 0..=`k` at which column (`x`, `z`) of section `s` reads as
/// a block other than air, or -1 where there is none.
pub open spec fn section_column_top(s: Section, x: int, z: int, k: int) -> int
    decreases k + 1,
{
    if k < 0 {
        -1
    } else if s.blocks.block_at(section_index(x, k, z) as nat) != 0 {
        k
    } else {
        section_column_top(s, x, z, k - 1)
    }
}

/// The height of the topmost non-air block of column (`x`, `z`), searching the sections
/// from the last one down, each at the height its `y` names; -64 where the column is
/// all air.
pub open spec fn column_surface(sections: Seq<Section>, x: int, z: int) -> int
    decreases sections.len(),
{
    if sections.len() == 0 {
        -64
    } else {
        let s = sections.last();
        let t = section_column_top(s, x, z, 15);
        if t >= 0 {
            s.y * 16 + t - 64
        } else {
            column_surface(sections.drop_last(), x, z)
        }
    }
}

/// The first index of a chunk at (`x`, `z`) in `chunks`, or -1 where there is none.
pub open spec fn chunk_index(chunks: Seq<Chunk>, x: int, z: int) -> int
    decreases chunks.len(),
{
    if chunks.len() == 0 {
        -1
    } else if chunks[0].x == x && chunks[0].z == z {
        0
    } else {
        let r = chunk_index(chunks.drop_first(), x, z);
        if r < 0 {
            -1
        } else {
            r + 1
        }
    }
}

proof fn lemma_chunk_index(chunks: Seq<Chunk>, x: int, z: int, i: int)
    requires
        0 <= i <= chunks.len(),
        forall|k: int| 0 <= k < i ==> !(chunks[k].x == x && chunks[k].z == z),
    ensures
        i < chunks.len() && chunks[i].x == x && chunks[i].z == z ==> chunk_index(chunks, x, z)
            == i,
        i == chunks.len() ==> chunk_index(chunks, x, z) == -1,
    decreases chunks.len(),
{
    if chunks.len() > 0 && i > 0 {
        lemma_chunk_index(chunks.drop_first(), x, z, i - 1);
    }
}

/// A 32x32-chunk part of the world, saved as one file.
pub struct Region {
    pub x: i32,
    pub z: i32,
    pub chunks: Vec<Chunk>,
}

impl Region {
    pub fn new(x: i32, z: i32) -> (r: Self)
        ensures
            r.x == x,
            r.z == z,
            r.chunks@.len() == 0,
    {
        Region { x, z, chunks: Vec::new() }
    }

    /// The first chunk of the region at chunk coordinates (`x`, `z`).
    pub fn get_chunk(&self, x: i32, z: i32) -> (r: Option<&Chunk>)
        ensures
            chunk_index(self.chunks@, x as int, z as int) < 0 ==> r.is_none(),
            chunk_index(self.chunks@, x as int, z as int) >= 0 ==> r == Some(
                &self.chunks@[chunk_index(self.chunks@, x as int, z as int)],
            ),
    {
        let n = self.chunks.len();
        let mut i: usize = 0;
        while i < n && !(self.chunks[i].x == x && self.chunks[i].z == z)
            invariant
                i <= n,
                n == self.chunks@.len(),
                forall|k: int|
                    0 <= k < i ==> !(self.chunks@[k].x == x && self.chunks@[k].z == z),
            decreases n - i,
        {
            i = i + 1;
        }
        proof {
            lemma_chunk_index(self.chunks@, x as int, z as int, i as int);
        }
        if i < n {
            Some(&self.chunks[i])
        } else {
            None
        }
    }
}

/// The height of the highest non-air block of column (`x`, `z`) of chunk `c` at or
/// below `y` and at or above -64, or -64 where there is none.
pub open spec fn surface_below(c: Chunk, x: int, y: int, z: int) -> int
    decreases y + 65,
{
    if y < -64 {
        -64
    } else if c.block_at(x, y, z) != 0 {
        y
    } else {
        surface_below(c, x, y - 1, z)
    }
}

/// The surface below a height is the highest non-air block there: every block above it
/// up to `y` is air, and it is itself non-air unless the whole column up to `y` is air
/// (then it is -64).
pub proof fn lemma_surface_below(c: Chunk, x: int, y: int, z: int)
    ensures
        -64 <= surface_below(c, x, y, z),
        y >= -64 ==> surface_below(c, x, y, z) <= y,
        forall|h: int| surface_below(c, x, y, z) < h <= y ==> #[trigger] c.block_at(x, h, z) == 0,
        c.block_at(x, surface_below(c, x, y, z), z) != 0 || (forall|h: int|
            -64 <= h <= y ==> #[trigger] c.block_at(x, h, z) == 0),
    decreases y + 65,
{
    if y >= -64 && c.block_at(x, y, z) == 0 {
        lemma_surface_below(c, x, y - 1, z);
    }
}

proof fn lemma_below_in_section(c: Chunk, x: int, z: int, n: int, k: int)
    requires
        1 <= n <= c.sections@.len(),
        -1 <= k <= 15,
    ensures
        ({
            let s = c.sections@[n - 1];
            let base = 16 * (n - 1) - 64;
            let t = section_column_top(s, x, z, k);
            surface_below(c, x, base + k, z) == if t >= 0 {
                base + t
            } else {
                surface_below(c, x, base - 1, z)
            }
        }),
    decreases k + 1,
{
    let base = 16 * (n - 1) - 64;
    if k >= 0 {
        let h = base + k;
        assert(section_slot(h) == n - 1 && h % 16 == k) by {
            assert(h == 16 * (n - 5) + k);
        }
        assert(base + k >= -64);
        lemma_below_in_section(c, x, z, n, k - 1);
    }
}

proof fn lemma_surface_prefix(c: Chunk, x: int, z: int, n: int)
    requires
        0 <= n <= c.sections@.len(),
        forall|i: int| 0 <= i < c.sections@.len() ==> (#[trigger] c.sections@[i]).y == i,
    ensures
        column_surface(c.sections@.subrange(0, n), x, z) == surface_below(c, x, 16 * n - 65, z),
    decreases n,
{
    let pre = c.sections@.subrange(0, n);
    if n > 0 {
        lemma_surface_prefix(c, x, z, n - 1);
        assert(pre.drop_last() =~= c.sections@.subrange(0, n - 1));
        assert(pre.last() == c.sections@[n - 1]);
        lemma_below_in_section(c, x, z, n, 15);
        assert(16 * (n - 1) - 64 + 15 == 16 * n - 65);
        assert(16 * (n - 1) - 64 - 1 == 16 * (n - 1) - 65);
    }
}

proof fn lemma_below_above_top(c: Chunk, x: int, y: int, z: int)
    requires
        y >= 16 * c.sections@.len() - 65,
    ensures
        surface_below(c, x, y, z) == surface_below(c, x, 16 * c.sections@.len() - 65, z),
    decreases y - (16 * c.sections@.len() - 65),
{
    let top = 16 * c.sections@.len() - 65;
    if y > top {
        assert(section_slot(y) >= c.sections@.len()) by {
            assert(y >= 16 * (c.sections@.len() - 4));
        }
        assert(c.block_at(x, y, z) == 0);
        if y >= -64 {
            lemma_below_above_top(c, x, y - 1, z);
        }
    }
}

/// Searched from the chunk's top (or above it), the surface below a height is the
/// chunk's surface: where each section stands at the height its position names, both
/// searches find the same block.
pub proof fn lemma_surface_agrees(c: Chunk, x: int, y: int, z: int)
    requires
        forall|i: int| 0 <= i < c.sections@.len() ==> (#[trigger] c.sections@[i]).y == i,
        y >= 16 * c.sections@.len() - 65,
    ensures
        surface_below(c, x, y, z) == column_surface(c.sections@, x, z),
{
    lemma_below_above_top(c, x, y, z);
    lemma_surface_prefix(c, x, z, c.sections@.len() as int);
    assert(c.sections@.subrange(0, c.sections@.len() as int) =~= c.sections@);
}

/// A 16-block-wide column of the world, made of sections stacked from y = -64 up.
pub struct Chunk {
    pub x: i32,
    pub z: i32,
    pub sections: Vec<Section>,
}

impl Chunk {
    pub open spec fn wf(&self) -> bool {
        forall|i: int| 0 <= i < self.sections@.len() ==> (#[trigger] self.sections@[i]).wf()
    }

    /// The block that position (`x`, `y`, `z`) of the chunk reads as: air outside the
    /// chunk's sections.
    pub open spec fn block_at(&self, x: int, y: int, z: int) -> u16 {
        let si = section_slot(y);
        if 0 <= si < self.sections@.len() {
            self.sections@[si].blocks.block_at(section_index(x, y % 16, z) as nat)
        } else {
            0
        }
    }

    /// A read at (`x`, `y`, `z`) stays inside its section's data: the position lies
    /// outside the sections, or inside the section's 16x16 area, or the section holds
    /// no packed data at all.
    pub open spec fn readable(&self, x: int, y: int, z: int) -> bool {
        let si = section_slot(y);
        ||| !(0 <= si < self.sections@.len())
        ||| (0 <= x < 16 && 0 <= z < 16)
        ||| self.sections@[si].blocks.bits_per_block == 0
    }

    /// Whether every section is well formed: entries at most 15 bits wide, a full
    /// section's worth of data, a palette that is not empty and holds a single entry
    /// where the width is 0.
    pub fn is_wf(&self) -> (r: bool)
        ensures
            r == self.wf(),
    {
        let mut i: usize = 0;
        while i < self.sections.len()
            invariant
                i <= self.sections@.len(),
                forall|k: int| 0 <= k < i ==> (#[trigger] self.sections@[k]).wf(),
            decreases self.sections@.len() - i,
        {
            let b = &self.sections[i].blocks;
            let bits = b.bits_per_block;
            let ok = bits <= 15 && b.data.len() == 64 * (bits as usize) && b.palette.len() >= 1 && (
            bits != 0 || b.palette.len() == 1);
            if !ok {
                assert(!self.sections@[i as int].wf());
                return false;
            }
            i = i + 1;
        }
        true
    }

    /// A read at (`x`, `y`, `z`) finds its entry inside the section's data: where a
    /// section holds height `y`, its entries are narrower than 63 bits and the data is
    /// long enough for the entry the position names.
    pub open spec fn reads_within(&self, x: int, y: int, z: int) -> bool {
        let si = section_slot(y);
        let b = self.sections@[si].blocks;
        0 <= si < self.sections@.len() ==> {
            &&& b.bits_per_block < 63
            &&& entry_in_bounds(b.data@.len(), b.bits_per_block as nat, section_index(x, y % 16, z) as nat)
        }
    }

    /// In a well-formed chunk every readable position reads within its section's data.
    pub proof fn lemma_reads_within(&self, x: int, y: int, z: int)
        requires
            self.wf(),
            self.readable(x, y, z),
        ensures
            self.reads_within(x, y, z),
    {
        let si = section_slot(y);
        if 0 <= si < self.sections@.len() {
            assert(self.sections@[si].wf());
            let bits = self.sections@[si].blocks.bits_per_block as nat;
            if bits > 0 {
                assert(0 <= y % 16 < 16);
                lemma_in_bounds(bits, section_index(x, y % 16, z) as nat);
            }
        }
    }

    /// Placing `b` at (`x`, `y`, `z`) keeps to what the section's `set_block` asks:
    /// a position inside the 16x16 area (or a block already in an unpacked palette),
    /// and a non-air count that stays within `i16`.
    pub open spec fn settable(&self, x: int, y: int, z: int, b: u16) -> bool {
        let si = section_slot(y);
        let s = self.sections@[si];
        let idx = section_index(x, y % 16, z);
        0 <= si < self.sections@.len() ==> {
            &&& (0 <= x < 16 && 0 <= z < 16) || (s.blocks.bits_per_block == 0 && first_position(
                s.blocks.palette@,
                b,
            ) >= 0)
            &&& i16::MIN <= count_after(s.block_count, s.blocks.block_at(idx as nat), b)
                <= i16::MAX
        }
    }

    /// Places block `block_id` at (`x`, `y`, `z`); does nothing where no section holds
    /// height `y`.
    pub fn set_block(&mut self, x: u8, y: i32, z: u8, block_id: u16)
        requires
            old(self).wf(),
            old(self).settable(x as int, y as int, z as int, block_id),
        ensures
            final(self).wf(),
            final(self).x == old(self).x,
            final(self).z == old(self).z,
            final(self).sections@.len() == old(self).sections@.len(),
            forall|i: int|
                0 <= i < old(self).sections@.len() && i != section_slot(y as int)
                    ==> #[trigger] final(self).sections@[i] == old(self).sections@[i],
            0 <= section_slot(y as int) < old(self).sections@.len() ==> placed(
                old(self).sections@[section_slot(y as int)],
                final(self).sections@[section_slot(y as int)],
                section_index(x as int, (y as int) % 16, z as int) as nat,
                block_id,
            ),
            !(0 <= section_slot(y as int) < old(self).sections@.len()) ==> final(self).sections@
                == old(self).sections@,
            chunk_placed(*old(self), *final(self), x as int, y as int, z as int, block_id),
    {
        let section_idx = floor_div16(y) + 4;
        if section_idx >= 0 && (section_idx as usize) < self.sections.len() {
            let si = section_idx as usize;
            let ghost old_sections = self.sections@;
            let mut section = self.sections.remove(si);
            assert(section == old_sections[si as int]);
            section.set_block(x, low4(y), z, block_id);
            self.sections.insert(si, section);
            assert(self.sections@ =~= old_sections.update(si as int, section));
        }
    }

    /// Every section can be read at column (`x`, `z`).
    pub open spec fn column_readable(&self, x: int, z: int) -> bool {
        ||| (0 <= x < 16 && 0 <= z < 16)
        ||| forall|i: int|
            0 <= i < self.sections@.len() ==> (#[trigger] self.sections@[i]).blocks.bits_per_block
                == 0
    }

    /// The surface heights that the sections holding a block in column (`x`, `z`) give
    /// fit in an `i32`.
    pub open spec fn surface_fits(&self, x: int, z: int) -> bool {
        forall|i: int|
            0 <= i < self.sections@.len() && section_column_top(
                #[trigger] self.sections@[i],
                x,
                z,
                15,
            ) >= 0 ==> {
                let s = self.sections@[i];
                let t = section_column_top(s, x, z, 15);
                &&& i32::MIN <= s.y * 16 - 64
                &&& s.y * 16 + t <= i32::MAX
            }
    }

    /// Height of the topmost non-air block of column (`x`, `z`), -64 where it is all air.
    #[verifier::loop_isolation(false)]
    pub fn get_surface_y(&self, x: u8, z: u8) -> (r: i32)
        requires
            self.wf(),
            self.column_readable(x as int, z as int),
            self.surface_fits(x as int, z as int),
        ensures
            r == column_surface(self.sections@, x as int, z as int),
    {
        let mut si = self.sections.len();
        assert(self.sections@.subrange(0, si as int) =~= self.sections@);
        while si > 0
            invariant
                si <= self.sections@.len(),
                self.wf(),
                self.column_readable(x as int, z as int),
                self.surface_fits(x as int, z as int),
                column_surface(self.sections@, x as int, z as int) == column_surface(
                    self.sections@.subrange(0, si as int),
                    x as int,
                    z as int,
                ),
            decreases si,
        {
            let section = &self.sections[si - 1];
            assert(section.wf());
            let ghost prefix = self.sections@.subrange(0, si as int);
            assert(prefix.last() == *section);
            assert(prefix.drop_last() =~= self.sections@.subrange(0, si - 1));
            let bits = section.blocks.bits_per_block as usize;
            let mut y: i32 = 15;
            while y >= 0
                invariant
                    -1 <= y <= 15,
                    section.wf(),
                    bits == section.blocks.bits_per_block,
                    (0 <= x < 16 && 0 <= z < 16) || bits == 0,
                    section_column_top(*section, x as int, z as int, 15) == section_column_top(
                        *section,
                        x as int,
                        z as int,
                        y as int,
                    ),
                decreases y + 1,
            {
                let idx = (y as usize * 16 * 16) + (z as usize * 16) + (x as usize);
                proof {
                    if idx < SECTION_VOLUME {
                        lemma_in_bounds(bits as nat, idx as nat);
                    } else {
                        assert(idx * bits == 0) by (nonlinear_arith)
                            requires
                                bits == 0,
                        ;
                    }
                }
                let palette_idx = section.blocks.get_palette_index(idx, bits);
                let block_id = if (palette_idx as usize) < section.blocks.palette.len() {
                    section.blocks.palette[palette_idx as usize]
                } else {
                    0
                };
                if block_id != 0 {
                    assert(section_column_top(*section, x as int, z as int, y as int) == y);
                    assert(section_column_top(self.sections@[si - 1], x as int, z as int, 15) >= 0);
                    return (section.y * 16) + y - 64;
                }
                y = y - 1;
            }
            si = si - 1;
        }
        -64
    }

    /// The height of the highest non-air block of column (`x`, `z`) at or below `y`,
    /// -64 where there is none.
    pub fn get_surface_y_below_point(&self, x: u8, y: i32, z: u8) -> (r: i32)
        requires
            self.wf(),
            self.column_readable(x as int, z as int),
        ensures
            r == surface_below(*self, x as int, y as int, z as int),
    {
        let mut current_y = y;
        while current_y >= -64
            invariant
                self.wf(),
                self.column_readable(x as int, z as int),
                current_y >= -65 || current_y == y,
                surface_below(*self, x as int, y as int, z as int) == surface_below(
                    *self,
                    x as int,
                    current_y as int,
                    z as int,
                ),
            decreases current_y + 65,
        {
            proof { self.lemma_reads_within(x as int, current_y as int, z as int); }
            let block_id = self.get_block(x, current_y, z);
            if block_id != 0 {
                return current_y;
            }
            current_y = current_y - 1;
        }
        -64
    }

    /// The block at (`x`, `y`, `z`), air where no section holds height `y`.
    pub fn get_block(&self, x: u8, y: i32, z: u8) -> (r: u16)
        requires
            self.reads_within(x as int, y as int, z as int),
        ensures
            r == self.block_at(x as int, y as int, z as int),
    {
        let section_idx = floor_div16(y) + 4;
        if section_idx >= 0 && (section_idx as usize) < self.sections.len() {
            let section = &self.sections[section_idx as usize];
            let idx = (low4(y) as usize * 16 * 16) + (z as usize * 16) + (x as usize);
            let bits = section.blocks.bits_per_block as usize;
            proof {
                assert(idx * bits + bits <= 8192 * 63) by (nonlinear_arith)
                    requires
                        idx < 8192,
                        bits < 63,
                ;
            }
            let palette_idx = section.blocks.get_palette_index(idx, bits);
            if (palette_idx as usize) < section.blocks.palette.len() {
                return section.blocks.palette[palette_idx as usize];
            }
            return 0;
        }
        0
    }
}

} // verus!
