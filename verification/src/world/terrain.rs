use vstd::prelude::*;

use crate::world::chunks::{
    bits_after, block_in, count_after, grows_entries, palette_after, placed, repacked,
    section_index, section_reads, section_slot, slot_for, Chunk, Section, SECTION_VOLUME,
};
use crate::world::packing::packed_write;
use crate::world::worldgen::{MIN_Y, SEA_LEVEL};

verus! {

/// What a section holds, as plain values: its height, non-air count, palette, entry
/// width and packed words.
pub struct SectionModel {
    pub y: i32,
    pub count: i16,
    pub palette: Seq<u16>,
    pub bits: u8,
    pub data: Seq<i64>,
}

/// What a chunk holds, section by section.
pub type ChunkModel = Seq<SectionModel>;

/// A section's contents.
pub open spec fn section_model(s: Section) -> SectionModel {
    SectionModel {
        y: s.y,
        count: s.block_count,
        palette: s.blocks.palette@,
        bits: s.blocks.bits_per_block,
        data: s.blocks.data@,
    }
}

/// A chunk's contents.
pub open spec fn chunk_model(c: Chunk) -> ChunkModel {
    c.sections@.map_values(|s: Section| section_model(s))
}

/// The block a model reads as at (`x`, `y`, `z`), air outside its sections.
pub open spec fn model_block(m: ChunkModel, x: int, y: int, z: int) -> u16 {
    let si = section_slot(y);
    if 0 <= si < m.len() {
        block_in(
            m[si].data,
            m[si].bits as nat,
            m[si].palette,
            section_index(x, y % 16, z) as nat,
        )
    } else {
        0
    }
}

/// The packed words after `b` is placed at entry `idx`, as `Section::data_after` gives
/// them, from the section's words, palette and entry width.
pub open spec fn data_placed(data: Seq<i64>, palette: Seq<u16>, bits: u8, idx: nat, b: u16) -> Seq<i64> {
    let nb = bits_after(palette, bits, b);
    let base = if grows_entries(palette, bits, b) {
        repacked(section_reads(data, bits as nat), nb as nat, (64 * nb) as nat, SECTION_VOLUME as nat)
    } else {
        data
    };
    packed_write(base, nb as nat, idx, slot_for(palette, b) as u16)
}

/// The section after block `b` is placed at entry `idx`, as `Section::set_block` leaves it.
pub open spec fn model_place(s: SectionModel, idx: nat, b: u16) -> SectionModel {
    SectionModel {
        y: s.y,
        count: count_after(s.count, block_in(s.data, s.bits as nat, s.palette, idx), b) as i16,
        palette: palette_after(s.palette, b),
        bits: bits_after(s.palette, s.bits, b),
        data: data_placed(s.data, s.palette, s.bits, idx, b),
    }
}

/// The chunk after block `b` is placed at (`x`, `y`, `z`), as `Chunk::set_block` leaves
/// it: nothing changes where no section holds height `y`.
pub open spec fn model_set(m: ChunkModel, x: int, y: int, z: int, b: u16) -> ChunkModel {
    let si = section_slot(y);
    if 0 <= si < m.len() {
        m.update(si, model_place(m[si], section_index(x, y % 16, z) as nat, b))
    } else {
        m
    }
}

/// A chunk's contents once `set_block` has placed `b` at (`x`, `y`, `z`).
pub proof fn lemma_set_model(c: Chunk, d: Chunk, x: int, y: int, z: int, b: u16)
    requires
        crate::world::chunks::chunk_placed(c, d, x, y, z, b),
        i16::MIN <= ({
            let si = section_slot(y);
            if 0 <= si < c.sections@.len() {
                count_after(
                    c.sections@[si].block_count,
                    c.sections@[si].blocks.block_at(section_index(x, y % 16, z) as nat),
                    b,
                )
            } else {
                0
            }
        }) <= i16::MAX,
    ensures
        chunk_model(d) == model_set(chunk_model(c), x, y, z, b),
{
    let si = section_slot(y);
    let mc = chunk_model(c);
    let md = chunk_model(d);
    if 0 <= si < c.sections@.len() {
        let s = c.sections@[si];
        let t = d.sections@[si];
        assert(placed(s, t, section_index(x, y % 16, z) as nat, b));
        assert(section_model(t) == model_place(mc[si], section_index(x, y % 16, z) as nat, b)) by {
            assert(s.data_after(section_index(x, y % 16, z) as nat, b) == data_placed(
                s.blocks.data@,
                s.blocks.palette@,
                s.blocks.bits_per_block,
                section_index(x, y % 16, z) as nat,
                b,
            ));
        }
        assert(md =~= mc.update(si, model_place(mc[si], section_index(x, y % 16, z) as nat, b)));
    } else {
        assert(md =~= mc);
    }
}

/// Every section's non-air count lies within `margin` of zero.
pub open spec fn counts_within(c: Chunk, margin: int) -> bool {
    forall|i: int| 0 <= i < c.sections@.len() ==> -margin <= (#[trigger] c.sections@[i]).block_count <= margin
}

/// Whether every section's non-air count lies within `margin` of zero.
pub fn counts_fit(chunk: &Chunk, margin: i16) -> (r: bool)
    ensures
        r == counts_within(*chunk, margin as int),
{
    let mut i: usize = 0;
    while i < chunk.sections.len()
        invariant
            i <= chunk.sections@.len(),
            forall|k: int| 0 <= k < i ==> -margin <= (#[trigger] chunk.sections@[k]).block_count <= margin,
        decreases chunk.sections@.len() - i,
    {
        let c = chunk.sections[i].block_count;
        if (c as i32) < -(margin as i32) || c > margin {
            return false;
        }
        i = i + 1;
    }
    true
}

/// Whether placing `b` at (`x`, `y`, `z`), inside the chunk's 16x16 area, keeps the
/// section's non-air count within `i16`, as `Chunk::set_block` asks.
pub fn can_set(chunk: &Chunk, x: u8, y: i32, z: u8, b: u16) -> (r: bool)
    requires
        chunk.wf(),
        x < 16,
        z < 16,
    ensures
        r == chunk.settable(x as int, y as int, z as int, b),
{
    let si = crate::world::chunks::floor_div16(y) + 4;
    if si < 0 || si as usize >= chunk.sections.len() {
        return true;
    }
    proof { chunk.lemma_reads_within(x as int, y as int, z as int); }
    let current = chunk.get_block(x, y, z);
    let count = chunk.sections[si as usize].block_count;
    proof {
        assert(chunk.block_at(x as int, y as int, z as int) == chunk.sections@[si as int].blocks.block_at(
            section_index(x as int, (y as int) % 16, z as int) as nat,
        ));
    }
    if current == 0 && b != 0 {
        count < 32767
    } else if current != 0 && b == 0 {
        count > -32768
    } else {
        true
    }
}

/// A chunk's model reads as the chunk does.
pub proof fn lemma_model_block(c: Chunk, x: int, y: int, z: int)
    ensures
        model_block(chunk_model(c), x, y, z) == c.block_at(x, y, z),
{
}

/// The chunk after column (`x`, `z`) is filled with `water` from height `y` up to `top`.
pub open spec fn water_column(m: ChunkModel, x: int, z: int, y: int, top: int, water: u16) -> ChunkModel
    decreases top - y + 1,
{
    if y > top {
        m
    } else {
        water_column(model_set(m, x, y, z, water), x, z, y + 1, top, water)
    }
}

/// The chunk after columns `k..256` (column `k` is x = k / 16, z = k % 16) are filled
/// with `water` from above their terrain height up to the sea level.
pub open spec fn water_from(m: ChunkModel, heights: Seq<Seq<i32>>, k: int, water: u16) -> ChunkModel
    decreases 256 - k,
{
    if k >= 256 {
        m
    } else {
        let x = k / 16;
        let z = k % 16;
        water_from(
            water_column(m, x, z, heights[x][z] + 1, SEA_LEVEL as int, water),
            heights,
            k + 1,
            water,
        )
    }
}

/// The heights table as plain values.
pub open spec fn heights_of(h: [[i32; 16]; 16]) -> Seq<Seq<i32>> {
    h@.map_values(|row: [i32; 16]| row@)
}

/// The largest non-air count a section may start with for a full pass of water filling.
pub const FLUID_MARGIN: i16 = 28671;

/// Fills every column with `water` from just above its terrain height up to the sea
/// level, column by column (x outer, z inner), each from the bottom up.
pub fn fill_fluids(chunk: &mut Chunk, heights: &[[i32; 16]; 16], water: u16)
    requires
        old(chunk).wf(),
        counts_within(*old(chunk), FLUID_MARGIN as int),
        forall|x: int, z: int| 0 <= x < 16 && 0 <= z < 16 ==> heights@[x]@[z] < i32::MAX,
    ensures
        final(chunk).wf(),
        final(chunk).x == old(chunk).x,
        final(chunk).z == old(chunk).z,
        chunk_model(*final(chunk)) == water_from(chunk_model(*old(chunk)), heights_of(*heights), 0, water),
{
    let ghost hs = heights_of(*heights);
    let ghost m0 = chunk_model(*chunk);
    let ghost n = chunk.sections@.len();
    let mut x: u8 = 0;
    while x < 16
        invariant
            x <= 16,
            chunk.wf(),
            chunk.x == old(chunk).x,
            chunk.z == old(chunk).z,
            chunk.sections@.len() == n,
            hs == heights_of(*heights),
            forall|a: int, b: int| 0 <= a < 16 && 0 <= b < 16 ==> heights@[a]@[b] < i32::MAX,
            counts_within(*chunk, FLUID_MARGIN + 256 * x),
            water_from(chunk_model(*chunk), hs, 16 * x, water) == water_from(m0, hs, 0, water),
        decreases 16 - x,
    {
        let mut z: u8 = 0;
        while z < 16
            invariant
                x < 16,
                z <= 16,
                chunk.wf(),
                chunk.x == old(chunk).x,
                chunk.z == old(chunk).z,
                chunk.sections@.len() == n,
                hs == heights_of(*heights),
                forall|a: int, b: int| 0 <= a < 16 && 0 <= b < 16 ==> heights@[a]@[b] < i32::MAX,
                counts_within(*chunk, FLUID_MARGIN + 256 * x + 16 * z),
                water_from(chunk_model(*chunk), hs, 16 * x + z, water) == water_from(m0, hs, 0, water),
            decreases 16 - z,
        {
            let h = heights[x as usize][z as usize];
            proof {
                assert(hs[x as int][z as int] == h);
            }
            let ghost start = chunk_model(*chunk);
            let ghost base = FLUID_MARGIN + 256 * x + 16 * z;
            let mut y: i32 = h + 1;
            let ghost mut used: Seq<int> = Seq::new(n, |i: int| 0);
            while y <= SEA_LEVEL
                invariant
                    x < 16,
                    z < 16,
                    h + 1 <= y,
                    y > h + 1 ==> y <= SEA_LEVEL + 1,
                    chunk.wf(),
                    chunk.x == old(chunk).x,
                    chunk.z == old(chunk).z,
                    chunk.sections@.len() == n,
                    used.len() == n,
                    base == FLUID_MARGIN + 256 * x + 16 * z,
                    forall|i: int|
                        0 <= i < n ==> -(base + used[i]) <= (#[trigger] chunk.sections@[i]).block_count
                            <= base + used[i],
                    forall|i: int|
                        0 <= i < n ==> 0 <= #[trigger] used[i] <= (if y <= 16 * (i - 4) {
                            0
                        } else if y >= 16 * (i - 4) + 16 {
                            16
                        } else {
                            y - 16 * (i - 4)
                        }),
                    water_column(chunk_model(*chunk), x as int, z as int, y as int, SEA_LEVEL as int, water)
                        == water_column(start, x as int, z as int, h + 1, SEA_LEVEL as int, water),
                decreases SEA_LEVEL + 1 - y,
            {
                let ghost before = *chunk;
                let ghost si = section_slot(y as int);
                proof {
                    if 0 <= si < n {
                        assert(16 * (si - 4) <= y < 16 * (si - 4) + 16);
                        assert(used[si] <= y - 16 * (si - 4));
                        assert(base + used[si] <= 28671 + 256 * 15 + 16 * 15 + 15);
                    }
                }
                chunk.set_block(x, y, z, water);
                proof {
                    lemma_set_model(before, *chunk, x as int, y as int, z as int, water);
                    if 0 <= si < n {
                        used = used.update(si, used[si] + 1);
                    }
                }
                y = y + 1;
            }
            proof {
                assert forall|i: int| 0 <= i < n implies -(FLUID_MARGIN + 256 * x + 16 * (z + 1))
                    <= (#[trigger] chunk.sections@[i]).block_count <= FLUID_MARGIN + 256 * x + 16 * (z
                    + 1) by {
                    assert(used[i] <= 16);
                }
                let mb = chunk_model(*chunk);
                assert(water_column(mb, x as int, z as int, y as int, SEA_LEVEL as int, water) == mb);
                let k = 16 * x + z;
                assert(k / 16 == x && k % 16 == z);
            }
            z = z + 1;
        }
        x = x + 1;
    }
}

/// The blocks that cover the terrain.
#[derive(Clone, Copy, Debug)]
pub struct SurfaceBlocks {
    pub bedrock: u16,
    pub sand: u16,
    pub grass_block: u16,
    pub dirt: u16,
}

/// The chunk after the solid blocks of column (`x`, `z`) from height `y` up to below `h`
/// become `under` (air, and heights at or below the world's floor, are left alone).
pub open spec fn under_fill(m: ChunkModel, x: int, z: int, y: int, h: int, under: u16) -> ChunkModel
    decreases h - y,
{
    if y >= h {
        m
    } else {
        let m2 = if y <= MIN_Y || model_block(m, x, y, z) == 0 {
            m
        } else {
            model_set(m, x, y, z, under)
        };
        under_fill(m2, x, z, y + 1, h, under)
    }
}

/// The chunk after column (`x`, `z`), whose terrain tops out at `h`, gets its surface:
/// bedrock at the world's floor; then, above the floor, a top block at `h` (sand on a
/// beach, up to one above the sea, else grass) and the three blocks under it, where
/// solid, turned to sand on a beach and dirt elsewhere.
pub open spec fn surface_column(m: ChunkModel, x: int, z: int, h: int, ids: SurfaceBlocks) -> ChunkModel {
    let m1 = model_set(m, x, MIN_Y as int, z, ids.bedrock);
    if h <= MIN_Y {
        m1
    } else {
        let beach = h <= SEA_LEVEL + 1;
        let top = if beach {
            ids.sand
        } else {
            ids.grass_block
        };
        let under = if beach {
            ids.sand
        } else {
            ids.dirt
        };
        under_fill(model_set(m1, x, h, z, top), x, z, h - 3, h, under)
    }
}

/// The chunk after columns `k..256` get their surface.
pub open spec fn surface_from(m: ChunkModel, heights: Seq<Seq<i32>>, k: int, ids: SurfaceBlocks) -> ChunkModel
    decreases 256 - k,
{
    if k >= 256 {
        m
    } else {
        let x = k / 16;
        let z = k % 16;
        surface_from(surface_column(m, x, z, heights[x][z] as int, ids), heights, k + 1, ids)
    }
}

/// The largest non-air count a section may start with for a full pass of surfacing.
pub const SURFACE_MARGIN: i16 = 31487;

/// Gives every column its surface (see `surface_column`), x outer, z inner.
pub fn apply_surface(chunk: &mut Chunk, heights: &[[i32; 16]; 16], ids: &SurfaceBlocks)
    requires
        old(chunk).wf(),
        counts_within(*old(chunk), SURFACE_MARGIN as int),
    ensures
        final(chunk).wf(),
        final(chunk).x == old(chunk).x,
        final(chunk).z == old(chunk).z,
        chunk_model(*final(chunk)) == surface_from(chunk_model(*old(chunk)), heights_of(*heights), 0, *ids),
{
    let ghost hs = heights_of(*heights);
    let ghost m0 = chunk_model(*chunk);
    let ghost n = chunk.sections@.len();
    let mut x: u8 = 0;
    while x < 16
        invariant
            x <= 16,
            chunk.wf(),
            chunk.x == old(chunk).x,
            chunk.z == old(chunk).z,
            chunk.sections@.len() == n,
            hs == heights_of(*heights),
            counts_within(*chunk, SURFACE_MARGIN + 80 * x),
            surface_from(chunk_model(*chunk), hs, 16 * x, *ids) == surface_from(m0, hs, 0, *ids),
        decreases 16 - x,
    {
        let mut z: u8 = 0;
        while z < 16
            invariant
                x < 16,
                z <= 16,
                chunk.wf(),
                chunk.x == old(chunk).x,
                chunk.z == old(chunk).z,
                chunk.sections@.len() == n,
                hs == heights_of(*heights),
                counts_within(*chunk, SURFACE_MARGIN + 80 * x + 5 * z),
                surface_from(chunk_model(*chunk), hs, 16 * x + z, *ids) == surface_from(m0, hs, 0, *ids),
            decreases 16 - z,
        {
            let ghost start = chunk_model(*chunk);
            let ghost base = SURFACE_MARGIN + 80 * x + 5 * z;
            let ghost c0 = *chunk;
            chunk.set_block(x, MIN_Y, z, ids.bedrock);
            proof {
                lemma_set_model(c0, *chunk, x as int, MIN_Y as int, z as int, ids.bedrock);
                assert(counts_within(*chunk, base + 1));
            }
            let h = heights[x as usize][z as usize];
            proof {
                assert(hs[x as int][z as int] == h);
                let k = 16 * x + z;
                assert(k / 16 == x && k % 16 == z);
            }
            if h > MIN_Y {
                let beach = h <= SEA_LEVEL + 1;
                let top = if beach {
                    ids.sand
                } else {
                    ids.grass_block
                };
                let under = if beach {
                    ids.sand
                } else {
                    ids.dirt
                };
                let ghost c1 = *chunk;
                chunk.set_block(x, h, z, top);
                proof {
                    lemma_set_model(c1, *chunk, x as int, h as int, z as int, top);
                    assert(counts_within(*chunk, base + 2));
                }
                let ghost mid = chunk_model(*chunk);
                let mut y: i32 = h - 3;
                let ghost mut done: int = 2;
                while y < h
                    invariant
                        x < 16,
                        z < 16,
                        h - 3 <= y <= h,
                        MIN_Y < h,
                        done == 2 + (y - (h - 3)),
                        chunk.wf(),
                        chunk.x == old(chunk).x,
                        chunk.z == old(chunk).z,
                        chunk.sections@.len() == n,
                        base == SURFACE_MARGIN + 80 * x + 5 * z,
                        counts_within(*chunk, base + done),
                        under_fill(chunk_model(*chunk), x as int, z as int, y as int, h as int, under)
                            == under_fill(mid, x as int, z as int, h - 3, h as int, under),
                    decreases h - y,
                {
                    if y > MIN_Y {
                        proof { chunk.lemma_reads_within(x as int, y as int, z as int); }
                        let current = chunk.get_block(x, y, z);
                        proof {
                            lemma_model_block(*chunk, x as int, y as int, z as int);
                        }
                        if current != 0 {
                            let ghost c2 = *chunk;
                            chunk.set_block(x, y, z, under);
                            proof {
                                lemma_set_model(c2, *chunk, x as int, y as int, z as int, under);
                            }
                        }
                    }
                    proof {
                        done = done + 1;
                    }
                    y = y + 1;
                }
                proof {
                    assert(under_fill(chunk_model(*chunk), x as int, z as int, y as int, h as int, under)
                        == chunk_model(*chunk));
                }
            }
            z = z + 1;
        }
        x = x + 1;
    }
}

} // verus!
