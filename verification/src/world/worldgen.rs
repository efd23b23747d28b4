use vstd::prelude::*;

use std::hash::{Hash, Hasher};

use crate::types::blocks::{deepslate_of, deepslate_variant};
use crate::world::chunks::{chunk_placed, count_after, section_index, Chunk, Section};
use crate::world::terrain::{
    chunk_model, counts_within, lemma_set_model, model_set, section_model, ChunkModel,
    SectionModel,
};

verus! {

/// The height of the sea's surface.
pub const SEA_LEVEL: i32 = 62;

/// The lowest height of the world.
pub const MIN_Y: i32 = -64;

/// The highest height of the world.
pub const MAX_Y: i32 = 319;

/// The seed that decides whether a tree grows at column (`wx`, `wz`): the world seed mixed
/// with both coordinates, then scrambled (64-bit wrapping arithmetic throughout).
pub open spec fn tree_seed_of(world_seed: u64, wx: i32, wz: i32) -> u64 {
    let h0 = world_seed ^ (wx as u64).wrapping_mul(0x9E3779B97F4A7C15) ^ (wz as u64).wrapping_mul(
        0xC2B2AE3D27D4EB4F,
    );
    let h1 = h0 ^ (h0 >> 30u64);
    let h2 = h1.wrapping_mul(0xBF58476D1CE4E5B9);
    h2 ^ (h2 >> 31u64)
}

/// The seed of the tree lottery at column (`wx`, `wz`).
pub fn tree_seed(world_seed: u64, wx: i32, wz: i32) -> (r: u64)
    ensures
        r == tree_seed_of(world_seed, wx, wz),
{
    let mut h = world_seed ^ (wx as u64).wrapping_mul(0x9E3779B97F4A7C15) ^ (wz as u64).wrapping_mul(
        0xC2B2AE3D27D4EB4F,
    );
    h = h ^ (h >> 30u64);
    h = h.wrapping_mul(0xBF58476D1CE4E5B9);
    h ^ (h >> 31u64)
}

/// A scrambled 64-bit hash of a block position (64-bit wrapping arithmetic).
pub open spec fn hash3_of(x: i32, y: i32, z: i32) -> u64 {
    let h0 = (x as u64).wrapping_mul(0x9E3779B97F4A7C15) ^ (y as u64).wrapping_mul(
        0xC2B2AE3D27D4EB4F,
    ) ^ (z as u64).wrapping_mul(0x165667B19E3779F9);
    let h1 = h0 ^ (h0 >> 29u64);
    let h2 = h1.wrapping_mul(0xBF58476D1CE4E5B9);
    h2 ^ (h2 >> 32u64)
}

/// Hashes a block position.
pub fn hash3(x: i32, y: i32, z: i32) -> (r: u64)
    ensures
        r == hash3_of(x, y, z),
{
    let mut h = (x as u64).wrapping_mul(0x9E3779B97F4A7C15) ^ (y as u64).wrapping_mul(
        0xC2B2AE3D27D4EB4F,
    ) ^ (z as u64).wrapping_mul(0x165667B19E3779F9);
    h = h ^ (h >> 29u64);
    h = h.wrapping_mul(0xBF58476D1CE4E5B9);
    h ^ (h >> 32u64)
}

/// Stone turns to deepslate below height 0: always under -8, and between -8 and 0 where
/// the position's hash (its low byte) falls under 32 per block of depth.
pub open spec fn deepslate_at(x: i32, y: i32, z: i32) -> bool {
    if y >= 0 {
        false
    } else if y < -8 {
        true
    } else {
        ((hash3_of(x, y, z) & 0xff) as int) < -y * 32
    }
}

/// Whether the stone at a position is deepslate.
pub fn is_deepslate(x: i32, y: i32, z: i32) -> (r: bool)
    ensures
        r == deepslate_at(x, y, z),
{
    if y >= 0 {
        return false;
    }
    if y < -8 {
        return true;
    }
    let h = hash3(x, y, z);
    let low = h & 0xff;
    assert(low <= 255) by (bit_vector)
        requires
            low == h & 0xff,
    ;
    (low as i32) < -y * 32
}

/// The seed of the noise generator numbered `offset`: the world seed's low 32 bits plus
/// the offset, wrapping.
pub fn seeded(world_seed: u64, offset: u32) -> (r: u32)
    ensures
        r == (world_seed as u32).wrapping_add(offset),
{
    (world_seed as u32).wrapping_add(offset)
}

/// A position lies in the world's height range and in the chunk's 16x16 area.
pub open spec fn in_chunk(x: int, y: int, z: int) -> bool {
    0 <= x < 16 && 0 <= z < 16 && MIN_Y <= y <= MAX_Y
}

/// Places `block` at a chunk position for a tree: nothing outside the chunk or the
/// world's heights, nor (with `only_air`) where the position is not air.
pub fn set(chunk: &mut Chunk, x: i32, y: i32, z: i32, block: u16, only_air: bool)
    requires
        old(chunk).wf(),
        in_chunk(x as int, y as int, z as int) ==> old(chunk).settable(
            x as int,
            y as int,
            z as int,
            block,
        ),
    ensures
        final(chunk).wf(),
        ({
            let goes = in_chunk(x as int, y as int, z as int) && (!only_air || old(chunk).block_at(
                x as int,
                y as int,
                z as int,
            ) == 0);
            &&& goes ==> chunk_placed(*old(chunk), *final(chunk), x as int, y as int, z as int, block)
            &&& !goes ==> *final(chunk) == *old(chunk)
        }),
{
    if !(0 <= x && x < 16) || !(0 <= z && z < 16) || !(MIN_Y <= y && y <= MAX_Y) {
        return;
    }
    proof { chunk.lemma_reads_within((x as u8) as int, y as int, (z as u8) as int); }
    if only_air && chunk.get_block(x as u8, y, z as u8) != 0 {
        return;
    }
    chunk.set_block(x as u8, y, z as u8, block);
}

/// The stone blocks that ores replace and the table of deepslate ore variants.
pub struct OreHost<'a> {
    pub stone: u16,
    pub deepslate: u16,
    pub variants: &'a [(u16, u16)],
}

/// The block an ore becomes where it replaces `current`: its deepslate form in deepslate.
pub open spec fn ore_for(host: OreHost, current: u16, ore: u16) -> u16 {
    if current == host.deepslate {
        deepslate_of(host.variants@, ore)
    } else {
        ore
    }
}

/// Places one block of an ore vein: only inside the chunk and the world's heights, and
/// only into stone or deepslate, in deepslate as the ore's deepslate form.
pub fn try_place(chunk: &mut Chunk, x: i32, y: i32, z: i32, ore: u16, host: &OreHost)
    requires
        old(chunk).wf(),
        in_chunk(x as int, y as int, z as int) ==> {
            let cur = old(chunk).block_at(x as int, y as int, z as int);
            old(chunk).settable(x as int, y as int, z as int, ore_for(*host, cur, ore))
        },
    ensures
        final(chunk).wf(),
        ({
            let cur = old(chunk).block_at(x as int, y as int, z as int);
            let goes = in_chunk(x as int, y as int, z as int) && (cur == host.stone || cur
                == host.deepslate);
            &&& goes ==> chunk_placed(
                *old(chunk),
                *final(chunk),
                x as int,
                y as int,
                z as int,
                ore_for(*host, cur, ore),
            )
            &&& !goes ==> *final(chunk) == *old(chunk)
        }),
{
    if !(0 <= x && x < 16) || !(0 <= z && z < 16) || !(MIN_Y <= y && y <= MAX_Y) {
        return;
    }
    proof { chunk.lemma_reads_within((x as u8) as int, y as int, (z as u8) as int); }
    let current = chunk.get_block(x as u8, y, z as u8);
    if current != host.stone && current != host.deepslate {
        return;
    }
    let block = if current == host.deepslate {
        deepslate_variant(host.variants, ore)
    } else {
        ore
    };
    chunk.set_block(x as u8, y, z as u8, block);
}

/// A fresh section at height index `y`: all air, one palette entry, no packed data.
pub open spec fn fresh_model(y: int) -> SectionModel {
    SectionModel { y: y as i32, count: 0, palette: seq![0u16], bits: 0, data: Seq::empty() }
}

/// The chunk after the floor positions `k..256` (position `k` is x = k / 16, z = k % 16,
/// at the world's lowest height) are set to `block`, in order.
pub open spec fn floor_from(m: ChunkModel, k: int, block: u16) -> ChunkModel
    decreases 256 - k,
{
    if k >= 256 {
        m
    } else {
        floor_from(model_set(m, k / 16, MIN_Y as int, k % 16, block), k + 1, block)
    }
}

/// A new chunk at (`x`, `z`): 24 sections of air, the lowest layer (height -64) then
/// covered with `grass_block`, row by row (x outer, z inner).
pub fn generate(x: i32, z: i32, grass_block: u16) -> (r: Chunk)
    ensures
        r.wf(),
        r.x == x,
        r.z == z,
        chunk_model(r) == floor_from(Seq::new(24, |i: int| fresh_model(i)), 0, grass_block),
{
    let mut sections: Vec<Section> = Vec::new();
    let mut i: i32 = 0;
    while i < 24
        invariant
            0 <= i <= 24,
            sections@.len() == i,
            forall|k: int| 0 <= k < i ==> section_model(#[trigger] sections@[k]) == fresh_model(k),
            forall|k: int| 0 <= k < i ==> (#[trigger] sections@[k]).wf(),
        decreases 24 - i,
    {
        let s = Section::new(i);
        proof {
            assert(s.blocks.data@ =~= Seq::<i64>::empty());
            assert(section_model(s) == fresh_model(i as int));
        }
        sections.push(s);
        i = i + 1;
    }
    let mut chunk = Chunk { x, z, sections };
    let ghost m0 = Seq::new(24, |i: int| fresh_model(i));
    assert(chunk_model(chunk) =~= m0);
    let mut bx: u8 = 0;
    while bx < 16
        invariant
            bx <= 16,
            chunk.wf(),
            chunk.x == x,
            chunk.z == z,
            chunk.sections@.len() == 24,
            counts_within(chunk, 16 * bx),
            floor_from(chunk_model(chunk), 16 * bx, grass_block) == floor_from(m0, 0, grass_block),
        decreases 16 - bx,
    {
        let mut bz: u8 = 0;
        while bz < 16
            invariant
                bx < 16,
                bz <= 16,
                chunk.wf(),
                chunk.x == x,
                chunk.z == z,
                chunk.sections@.len() == 24,
                counts_within(chunk, 16 * bx + bz),
                floor_from(chunk_model(chunk), 16 * bx + bz, grass_block) == floor_from(
                    m0,
                    0,
                    grass_block,
                ),
            decreases 16 - bz,
        {
            let ghost before = chunk;
            chunk.set_block(bx, MIN_Y, bz, grass_block);
            proof {
                lemma_set_model(before, chunk, bx as int, MIN_Y as int, bz as int, grass_block);
                let k = 16 * bx + bz;
                assert(k / 16 == bx && k % 16 == bz);
            }
            bz = bz + 1;
        }
        bx = bx + 1;
    }
    chunk
}

/// The `DefaultHasher` hash of a world seed and a chunk's coordinates.
pub uninterp spec fn seed_hash(world_seed: u64, x: i32, z: i32) -> u64;

/// Hashes the world seed, then `x`, then `z`, into a fresh `std` `DefaultHasher` (whose
/// keys are fixed, so equal inputs give equal hashes) and gives `finish()`. Claims only
/// that the result is a function of those three values.
#[verifier::external_body]
fn hash_seed_and_position(world_seed: u64, x: i32, z: i32) -> (r: u64)
    ensures
        r == seed_hash(world_seed, x, z),
{
    let mut hasher = std::collections::hash_map::DefaultHasher::new();
    world_seed.hash(&mut hasher);
    x.hash(&mut hasher);
    z.hash(&mut hasher);
    hasher.finish()
}

impl Chunk {
    /// The seed of the chunk's own random decisions (ores, plants): the world seed and
    /// the chunk's coordinates hashed together.
    pub fn chunk_seed(&self, world_seed: u64) -> (r: u64)
        ensures
            r == seed_hash(world_seed, self.x, self.z),
    {
        hash_seed_and_position(world_seed, self.x, self.z)
    }
}

} // verus!
