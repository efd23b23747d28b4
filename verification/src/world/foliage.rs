use vstd::prelude::*;

use rand::rngs::SmallRng;
use rand::{Rng, SeedableRng};

use crate::world::chunks::Chunk;
use crate::world::terrain::{
    chunk_model, counts_within, heights_of, lemma_model_block, lemma_set_model, model_block,
    model_set, ChunkModel,
};
use crate::world::worldgen::{MAX_Y, SEA_LEVEL};

verus! {

/// A small, fast pseudo-random generator; nothing is known of its state.
#[verifier::external_type_specification]
#[verifier::external_body]
pub struct ExSmallRng(SmallRng);

/// A generator seeded from `seed`, through `rand`'s `SeedableRng::seed_from_u64` for
/// `SmallRng`. Nothing is claimed of it: `rand` documents that its output may differ
/// between platforms and versions.
#[verifier::external_body]
fn small_rng(seed: u64) -> SmallRng {
    SmallRng::seed_from_u64(seed)
}

/// A number drawn from `lo..hi` through `rand`'s `Rng::gen_range`, which panics on an
/// empty range and otherwise gives a value inside it; that is all that is claimed.
#[verifier::external_body]
fn roll(rng: &mut SmallRng, lo: i32, hi: i32) -> (r: i32)
    requires
        lo < hi,
    ensures
        lo <= r < hi,
{
    rng.gen_range(lo..hi)
}

/// A position drawn from `0..n` through `rand`'s `Rng::gen_range`; claims only that it
/// lies in the range (which must not be empty).
#[verifier::external_body]
fn roll_index(rng: &mut SmallRng, n: usize) -> (r: usize)
    requires
        n > 0,
    ensures
        r < n,
{
    rng.gen_range(0..n)
}

/// A number drawn from `lo..=hi` through `rand`'s `Rng::gen_range`, which panics on an
/// empty range and otherwise gives a value inside it; that is all that is claimed.
#[verifier::external_body]
fn roll_inclusive(rng: &mut SmallRng, lo: i32, hi: i32) -> (r: i32)
    requires
        lo <= hi,
    ensures
        lo <= r <= hi,
{
    rng.gen_range(lo..=hi)
}

/// How the heights of an ore's veins are spread: evenly between two heights, or as the
/// sum of two even draws (most often half-way).
#[derive(Clone, Copy, Debug, PartialEq, Eq, Structural)]
pub enum Height {
    Uniform(i32, i32),
    Triangle(i32, i32),
}

/// One kind of ore vein: its block, how many veins a chunk tries, their size, their
/// heights.
#[derive(Clone, Copy, Debug)]
pub struct OreConfig {
    pub block: u16,
    pub count: i32,
    pub size: i32,
    pub height: Height,
}

/// The spread is drawable: its bounds are in order and their distance fits.
pub open spec fn height_ok(h: Height) -> bool {
    match h {
        Height::Uniform(lo, hi) => lo <= hi,
        Height::Triangle(lo, hi) => lo <= hi && hi - lo <= 0x4000_0000,
    }
}

/// The draws a vein's height is made of: for an even spread one draw between the bounds
/// (the second unused, 0); for a triangular one two draws from 0 up to half the spread.
pub open spec fn height_draws_ok(h: Height, a: int, b: int) -> bool {
    match h {
        Height::Uniform(lo, hi) => lo <= a <= hi && b == 0,
        Height::Triangle(lo, hi) => 0 <= a <= (hi - lo) / 2 && 0 <= b <= (hi - lo) / 2,
    }
}

/// The height the draws `a` and `b` give: the draw itself for an even spread, the low
/// bound plus both draws for a triangular one.
pub open spec fn height_of_draws(h: Height, a: int, b: int) -> int {
    match h {
        Height::Uniform(_, _) => a,
        Height::Triangle(lo, _) => lo + a + b,
    }
}

/// The height of a vein made of the draws `a` and `b`.
pub fn height_from_draws(h: Height, a: i32, b: i32) -> (r: i32)
    requires
        height_ok(h),
        height_draws_ok(h, a as int, b as int),
    ensures
        r == height_of_draws(h, a as int, b as int),
{
    match h {
        Height::Uniform(_, _) => a,
        Height::Triangle(lo, _) => lo + a + b,
    }
}

/// Draws the height of a vein: for an even spread a height between its bounds; for a
/// triangular one the low bound plus two draws from 0 up to half the spread.
pub fn sample_height(rng: &mut SmallRng, h: Height) -> (r: i32)
    requires
        height_ok(h),
    ensures
        exists|a: int, b: int| height_draws_ok(h, a, b) && r == height_of_draws(h, a, b),
        match h {
            Height::Uniform(lo, hi) => lo <= r <= hi,
            Height::Triangle(lo, hi) => lo <= r <= lo + 2 * ((hi - lo) / 2),
        },
{
    match h {
        Height::Uniform(lo, hi) => {
            let a = roll_inclusive(rng, lo, hi);
            let r = height_from_draws(h, a, 0);
            assert(height_draws_ok(h, a as int, 0));
            r
        },
        Height::Triangle(lo, hi) => {
            let half = (hi - lo) / 2;
            let a = roll_inclusive(rng, 0, half);
            let b = roll_inclusive(rng, 0, half);
            let r = height_from_draws(h, a, b);
            assert(height_draws_ok(h, a as int, b as int));
            r
        },
    }
}

/// The ore blocks, by kind.
#[derive(Clone, Copy, Debug)]
pub struct OreBlocks {
    pub coal: u16,
    pub iron: u16,
    pub copper: u16,
    pub gold: u16,
    pub redstone: u16,
    pub diamond: u16,
    pub lapis: u16,
}

/// The veins a chunk tries, in order: block, tries, size, height spread.
pub open spec fn ore_table(o: OreBlocks) -> Seq<OreConfig> {
    seq![
        OreConfig { block: o.coal, count: 30i32, size: 17i32, height: Height::Uniform(136i32, 320i32) },
        OreConfig { block: o.coal, count: 20i32, size: 17i32, height: Height::Triangle(0i32, 192i32) },
        OreConfig { block: o.iron, count: 90i32, size: 9i32, height: Height::Triangle(80i32, 384i32) },
        OreConfig { block: o.iron, count: 10i32, size: 9i32, height: Height::Triangle(-24i32, 56i32) },
        OreConfig { block: o.iron, count: 10i32, size: 4i32, height: Height::Uniform(-64i32, 72i32) },
        OreConfig { block: o.copper, count: 16i32, size: 10i32, height: Height::Triangle(-16i32, 112i32) },
        OreConfig { block: o.gold, count: 4i32, size: 9i32, height: Height::Triangle(-64i32, 32i32) },
        OreConfig { block: o.gold, count: 1i32, size: 9i32, height: Height::Uniform(-64i32, -48i32) },
        OreConfig { block: o.redstone, count: 4i32, size: 8i32, height: Height::Uniform(-64i32, 15i32) },
        OreConfig { block: o.redstone, count: 8i32, size: 8i32, height: Height::Triangle(-96i32, -32i32) },
        OreConfig { block: o.diamond, count: 7i32, size: 4i32, height: Height::Triangle(-144i32, 16i32) },
        OreConfig { block: o.diamond, count: 4i32, size: 8i32, height: Height::Uniform(-64i32, -4i32) },
        OreConfig { block: o.lapis, count: 2i32, size: 7i32, height: Height::Triangle(-32i32, 32i32) },
        OreConfig { block: o.lapis, count: 4i32, size: 7i32, height: Height::Uniform(-64i32, 64i32) },
    ]
}

/// Every ore kind has veins of its own block, with the sizes, counts and heights the
/// game gives them: coal at 136..320 (30 tries, size 17) and around 96 (20, 17); iron
/// around 232 (90, 9), around 16 (10, 9) and at -64..72 (10, 4); copper around 48 (16, 10);
/// gold around -16 (4, 9) and at -64..-48 (1, 9); redstone at -64..15 (4, 8) and around
/// -64 (8, 8); diamond around -64 (7, 4) and at -64..-4 (4, 8); lapis around 0 (2, 7) and
/// at -64..64 (4, 7). The table holds these fourteen and nothing else.
pub proof fn lemma_ore_veins(o: OreBlocks)
    ensures
        ore_table(o).len() == 14,
        ore_table(o).contains(OreConfig { block: o.coal, count: 30i32, size: 17i32, height: Height::Uniform(136i32, 320i32) }),
        ore_table(o).contains(OreConfig { block: o.coal, count: 20i32, size: 17i32, height: Height::Triangle(0i32, 192i32) }),
        ore_table(o).contains(OreConfig { block: o.iron, count: 90i32, size: 9i32, height: Height::Triangle(80i32, 384i32) }),
        ore_table(o).contains(OreConfig { block: o.iron, count: 10i32, size: 9i32, height: Height::Triangle(-24i32, 56i32) }),
        ore_table(o).contains(OreConfig { block: o.iron, count: 10i32, size: 4i32, height: Height::Uniform(-64i32, 72i32) }),
        ore_table(o).contains(OreConfig { block: o.copper, count: 16i32, size: 10i32, height: Height::Triangle(-16i32, 112i32) }),
        ore_table(o).contains(OreConfig { block: o.gold, count: 4i32, size: 9i32, height: Height::Triangle(-64i32, 32i32) }),
        ore_table(o).contains(OreConfig { block: o.gold, count: 1i32, size: 9i32, height: Height::Uniform(-64i32, -48i32) }),
        ore_table(o).contains(OreConfig { block: o.redstone, count: 4i32, size: 8i32, height: Height::Uniform(-64i32, 15i32) }),
        ore_table(o).contains(OreConfig { block: o.redstone, count: 8i32, size: 8i32, height: Height::Triangle(-96i32, -32i32) }),
        ore_table(o).contains(OreConfig { block: o.diamond, count: 7i32, size: 4i32, height: Height::Triangle(-144i32, 16i32) }),
        ore_table(o).contains(OreConfig { block: o.diamond, count: 4i32, size: 8i32, height: Height::Uniform(-64i32, -4i32) }),
        ore_table(o).contains(OreConfig { block: o.lapis, count: 2i32, size: 7i32, height: Height::Triangle(-32i32, 32i32) }),
        ore_table(o).contains(OreConfig { block: o.lapis, count: 4i32, size: 7i32, height: Height::Uniform(-64i32, 64i32) }),
        forall|k: int| 0 <= k < 14 ==> {
            let b = (#[trigger] ore_table(o)[k]).block;
            b == o.coal || b == o.iron || b == o.copper || b == o.gold || b == o.redstone || b
                == o.diamond || b == o.lapis
        },
        forall|k: int| 0 <= k < 14 ==> height_ok(#[trigger] ore_table(o)[k].height),
{
    let t = ore_table(o);
    assert(t[0] == OreConfig { block: o.coal, count: 30i32, size: 17i32, height: Height::Uniform(136i32, 320i32) });
    assert(t[1] == OreConfig { block: o.coal, count: 20i32, size: 17i32, height: Height::Triangle(0i32, 192i32) });
    assert(t[2] == OreConfig { block: o.iron, count: 90i32, size: 9i32, height: Height::Triangle(80i32, 384i32) });
    assert(t[3] == OreConfig { block: o.iron, count: 10i32, size: 9i32, height: Height::Triangle(-24i32, 56i32) });
    assert(t[4] == OreConfig { block: o.iron, count: 10i32, size: 4i32, height: Height::Uniform(-64i32, 72i32) });
    assert(t[5] == OreConfig { block: o.copper, count: 16i32, size: 10i32, height: Height::Triangle(-16i32, 112i32) });
    assert(t[6] == OreConfig { block: o.gold, count: 4i32, size: 9i32, height: Height::Triangle(-64i32, 32i32) });
    assert(t[7] == OreConfig { block: o.gold, count: 1i32, size: 9i32, height: Height::Uniform(-64i32, -48i32) });
    assert(t[8] == OreConfig { block: o.redstone, count: 4i32, size: 8i32, height: Height::Uniform(-64i32, 15i32) });
    assert(t[9] == OreConfig { block: o.redstone, count: 8i32, size: 8i32, height: Height::Triangle(-96i32, -32i32) });
    assert(t[10] == OreConfig { block: o.diamond, count: 7i32, size: 4i32, height: Height::Triangle(-144i32, 16i32) });
    assert(t[11] == OreConfig { block: o.diamond, count: 4i32, size: 8i32, height: Height::Uniform(-64i32, -4i32) });
    assert(t[12] == OreConfig { block: o.lapis, count: 2i32, size: 7i32, height: Height::Triangle(-32i32, 32i32) });
    assert(t[13] == OreConfig { block: o.lapis, count: 4i32, size: 7i32, height: Height::Uniform(-64i32, 64i32) });
}

/// The veins a chunk tries.
pub fn ore_configs(o: &OreBlocks) -> (r: Vec<OreConfig>)
    ensures
        r@ == ore_table(*o),
{
    let r = vec![
        OreConfig { block: o.coal, count: 30, size: 17, height: Height::Uniform(136, 320) },
        OreConfig { block: o.coal, count: 20, size: 17, height: Height::Triangle(0, 192) },
        OreConfig { block: o.iron, count: 90, size: 9, height: Height::Triangle(80, 384) },
        OreConfig { block: o.iron, count: 10, size: 9, height: Height::Triangle(-24, 56) },
        OreConfig { block: o.iron, count: 10, size: 4, height: Height::Uniform(-64, 72) },
        OreConfig { block: o.copper, count: 16, size: 10, height: Height::Triangle(-16, 112) },
        OreConfig { block: o.gold, count: 4, size: 9, height: Height::Triangle(-64, 32) },
        OreConfig { block: o.gold, count: 1, size: 9, height: Height::Uniform(-64, -48) },
        OreConfig { block: o.redstone, count: 4, size: 8, height: Height::Uniform(-64, 15) },
        OreConfig { block: o.redstone, count: 8, size: 8, height: Height::Triangle(-96, -32) },
        OreConfig { block: o.diamond, count: 7, size: 4, height: Height::Triangle(-144, 16) },
        OreConfig { block: o.diamond, count: 4, size: 8, height: Height::Uniform(-64, -4) },
        OreConfig { block: o.lapis, count: 2, size: 7, height: Height::Triangle(-32, 32) },
        OreConfig { block: o.lapis, count: 4, size: 7, height: Height::Uniform(-64, 64) },
    ];
    assert(r@ =~= ore_table(*o));
    r
}

/// A generator for the ore veins of a chunk, seeded from the chunk's seed.
pub fn ore_rng(chunk: &Chunk, world_seed: u64) -> SmallRng {
    small_rng(chunk.chunk_seed(world_seed).wrapping_add(0x0DE5))
}

/// Draws a column of the chunk (0..16 on each axis) for a vein.
pub fn vein_column(rng: &mut SmallRng) -> (r: (i32, i32))
    ensures
        0 <= r.0 < 16,
        0 <= r.1 < 16,
{
    let x = roll(rng, 0, 16);
    let z = roll(rng, 0, 16);
    (x, z)
}

/// The blocks plants grow on and are.
#[derive(Clone, Copy, Debug)]
pub struct PlantBlocks {
    pub grass_block: u16,
    pub short_grass: u16,
    pub flowers: [u16; 6],
}

/// The plant the draws give: short grass when the first draw (from 0..4) is 0, else
/// flower `i` when the second (from 0..50) is 0, else none.
pub open spec fn plant_of(ids: PlantBlocks, g: int, f: int, i: int) -> Option<u16> {
    if g == 0 {
        Some(ids.short_grass)
    } else if f == 0 {
        Some(ids.flowers@[i])
    } else {
        None
    }
}

/// Draws in their ranges: the first from 0..4, the second from 0..50, the flower's from
/// 0..6.
pub open spec fn plant_draws_ok(g: int, f: int, i: int) -> bool {
    0 <= g < 4 && 0 <= f < 50 && 0 <= i < 6
}

/// What may grow on a column: what some draws in their ranges give.
pub open spec fn choice_ok(ids: PlantBlocks, c: Option<u16>) -> bool {
    exists|g: int, f: int, i: int| plant_draws_ok(g, f, i) && c == plant_of(ids, g, f, i)
}

/// The plant that the draws `g`, `f` and `i` give.
pub fn plant_from_draws(ids: &PlantBlocks, g: i32, f: i32, i: usize) -> (r: Option<u16>)
    requires
        i < 6,
    ensures
        r == plant_of(*ids, g as int, f as int, i as int),
{
    if g == 0 {
        Some(ids.short_grass)
    } else if f == 0 {
        Some(ids.flowers[i])
    } else {
        None
    }
}

/// Draws the plant of one column: the grass draw, then, only where it is not 0, the
/// flower draw, then, only where that is 0, the flower's index.
fn draw_plant(rng: &mut SmallRng, ids: &PlantBlocks) -> (r: Option<u16>)
    ensures
        choice_ok(*ids, r),
{
    let g = roll(rng, 0, 4);
    if g == 0 {
        let r = plant_from_draws(ids, g, 0, 0);
        assert(plant_draws_ok(g as int, 0, 0));
        return r;
    }
    let f = roll(rng, 0, 50);
    let i = if f == 0 {
        roll_index(rng, 6)
    } else {
        0
    };
    let r = plant_from_draws(ids, g, f, i);
    assert(plant_draws_ok(g as int, f as int, i as int));
    r
}

/// Column (`x`, `z`) with terrain top `h` after `c` grows on it: a plant grows only on a
/// grass block at a height from the sea level to below the world's top, with air above.
pub open spec fn plant_column(m: ChunkModel, x: int, z: int, h: int, ids: PlantBlocks, c: Option<u16>) -> ChunkModel {
    if h < SEA_LEVEL || h >= MAX_Y || model_block(m, x, h, z) != ids.grass_block || model_block(
        m,
        x,
        h + 1,
        z,
    ) != 0 {
        m
    } else {
        match c {
            Some(b) => model_set(m, x, h + 1, z, b),
            None => m,
        }
    }
}

/// The chunk after columns `k..256` (x = k / 16, z = k % 16) get the plants `ch` names.
pub open spec fn plants_from(m: ChunkModel, hs: Seq<Seq<i32>>, k: int, ch: Seq<Option<u16>>, ids: PlantBlocks) -> ChunkModel
    decreases 256 - k,
{
    if k >= 256 {
        m
    } else {
        plants_from(plant_column(m, k / 16, k % 16, hs[k / 16][k % 16] as int, ids, ch[k]), hs, k + 1, ch, ids)
    }
}

/// The largest non-air count a section may start with for a pass of planting.
pub const PLANT_MARGIN: i16 = 32511;

/// Grows short grass and flowers on the chunk's grass, drawing from a generator seeded
/// by the chunk's seed: each suitable column gets short grass one time in four, else a
/// flower one time in fifty. Whatever the draws give, the chunk is what growing, on each
/// column in order, the plant (or none) that some draws in their ranges give.
pub fn place_plants(chunk: &mut Chunk, heights: &[[i32; 16]; 16], world_seed: u64, ids: &PlantBlocks)
    requires
        old(chunk).wf(),
        counts_within(*old(chunk), PLANT_MARGIN as int),
    ensures
        final(chunk).wf(),
        final(chunk).x == old(chunk).x,
        final(chunk).z == old(chunk).z,
        exists|ch: Seq<Option<u16>>|
            ch.len() == 256 && (forall|k: int| 0 <= k < 256 ==> choice_ok(*ids, #[trigger] ch[k])) && chunk_model(*final(chunk)) == plants_from(
                chunk_model(*old(chunk)),
                heights_of(*heights),
                0,
                ch,
                *ids,
            ),
{
    let seed = chunk.chunk_seed(world_seed).wrapping_add(0xF01A);
    let mut rng = small_rng(seed);
    let ghost hs = heights_of(*heights);
    let ghost m0 = chunk_model(*chunk);
    let ghost n = chunk.sections@.len();
    let ghost mut done: Seq<Option<u16>> = Seq::empty();
    let mut x: u8 = 0;
    while x < 16
        invariant
            x <= 16,
            chunk.wf(),
            chunk.x == old(chunk).x,
            chunk.z == old(chunk).z,
            chunk.sections@.len() == n,
            hs == heights_of(*heights),
            counts_within(*chunk, PLANT_MARGIN + 16 * x),
            done.len() == 16 * x,
            forall|k: int| 0 <= k < done.len() ==> choice_ok(*ids, #[trigger] done[k]),
            forall|ch: Seq<Option<u16>>|
                ch.len() == 256 && ch.subrange(0, 16 * x) == done ==> #[trigger] plants_from(m0, hs, 0, ch, *ids)
                    == plants_from(chunk_model(*chunk), hs, 16 * x, ch, *ids),
        decreases 16 - x,
    {
        let mut z: u8 = 0;
        while z < 16
            invariant
                x < 16,
                z <= 16,
                chunk.wf(),
                chunk.x == old(chunk).x,
                chunk.z == old(chunk).z,
                chunk.sections@.len() == n,
                hs == heights_of(*heights),
                counts_within(*chunk, PLANT_MARGIN + 16 * x + z),
                done.len() == 16 * x + z,
                forall|k: int| 0 <= k < done.len() ==> choice_ok(*ids, #[trigger] done[k]),
                forall|ch: Seq<Option<u16>>|
                    ch.len() == 256 && ch.subrange(0, 16 * x + z) == done ==> #[trigger] plants_from(m0, hs, 0, ch, *ids)
                        == plants_from(chunk_model(*chunk), hs, 16 * x + z, ch, *ids),
            decreases 16 - z,
        {
            let h = heights[x as usize][z as usize];
            let ghost before = *chunk;
            let ghost mb = chunk_model(*chunk);
            let ghost k = 16 * x + z;
            proof {
                assert(hs[x as int][z as int] == h);
                assert(k / 16 == x && k % 16 == z);
            }
            let mut choice: Option<u16> = None;
            if SEA_LEVEL <= h && h < MAX_Y {
                proof { chunk.lemma_reads_within(x as int, h as int, z as int); }
                let on = chunk.get_block(x, h, z);
                proof { chunk.lemma_reads_within(x as int, h + 1, z as int); }
                let above = chunk.get_block(x, h + 1, z);
                proof {
                    lemma_model_block(*chunk, x as int, h as int, z as int);
                    lemma_model_block(*chunk, x as int, h + 1, z as int);
                }
                if on == ids.grass_block && above == 0 {
                    choice = draw_plant(&mut rng, ids);
                    if let Some(b) = choice {
                        chunk.set_block(x, h + 1, z, b);
                        proof {
                            lemma_set_model(before, *chunk, x as int, h + 1, z as int, b);
                        }
                    }
                }
            }
            proof {
                if choice is None {
                    assert(plant_draws_ok(1, 1, 0) && choice == plant_of(*ids, 1, 1, 0));
                }
                assert(choice_ok(*ids, choice));
                assert(chunk_model(*chunk) == plant_column(mb, x as int, z as int, h as int, *ids, choice));
                let d2 = done.push(choice);
                assert forall|ch: Seq<Option<u16>>|
                    ch.len() == 256 && ch.subrange(0, k + 1) == d2 implies #[trigger] plants_from(m0, hs, 0, ch, *ids)
                        == plants_from(chunk_model(*chunk), hs, k + 1, ch, *ids) by {
                    assert(ch.subrange(0, k) =~= done) by {
                        assert(ch.subrange(0, k) =~= ch.subrange(0, k + 1).subrange(0, k));
                    }
                    assert(ch[k] == choice) by {
                        assert(ch.subrange(0, k + 1)[k] == ch[k]);
                    }
                }
                done = d2;
            }
            z = z + 1;
        }
        x = x + 1;
    }
    proof {
        assert(done.subrange(0, 256) =~= done);
        assert(plants_from(m0, hs, 0, done, *ids) == plants_from(chunk_model(*chunk), hs, 256, done, *ids));
    }
}

} // verus!
