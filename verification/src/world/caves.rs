use vstd::prelude::*;

use crate::world::chunks::Chunk;
use crate::world::terrain::{
    chunk_model, heights_of, lemma_model_block, lemma_set_model, model_block, model_set,
    ChunkModel,
};

verus! {

/// The lowest height caves reach.
pub const CAVE_FLOOR: i32 = -60;

/// Column (`x`, `z`) after heights `y..=top` are carved, from the bottom up: a height
/// whose mark (mark `h + 60` for height `h`) is set and that holds a block other than air
/// becomes `cave_air`.
pub open spec fn carve_from(
    m: ChunkModel,
    x: int,
    z: int,
    y: int,
    top: int,
    marks: Seq<bool>,
    cave_air: u16,
) -> ChunkModel
    decreases top - y + 1,
{
    if y > top {
        m
    } else {
        let m2 = if model_block(m, x, y, z) != 0 && marks[y + 60] {
            model_set(m, x, y, z, cave_air)
        } else {
            m
        };
        carve_from(m2, x, z, y + 1, top, marks, cave_air)
    }
}

/// The chunk after columns `k..256` (x = k / 16, z = k % 16) are carved from the cave
/// floor up to their cave tops, each with its own marks.
pub open spec fn caves_from(
    m: ChunkModel,
    tops: Seq<Seq<i32>>,
    marks: Seq<Seq<bool>>,
    k: int,
    cave_air: u16,
) -> ChunkModel
    decreases 256 - k,
{
    if k >= 256 {
        m
    } else {
        caves_from(
            carve_from(m, k / 16, k % 16, CAVE_FLOOR as int, tops[k / 16][k % 16] as int, marks[k], cave_air),
            tops,
            marks,
            k + 1,
            cave_air,
        )
    }
}

/// Every column's marks cover its heights from the cave floor to its cave top.
pub open spec fn marks_cover(tops: Seq<Seq<i32>>, marks: Seq<Seq<bool>>) -> bool {
    &&& marks.len() == 256
    &&& forall|k: int|
        0 <= k < 256 ==> #[trigger] marks[k].len() >= tops[k / 16][k % 16] + 61
}

/// Carves caves: column by column (x outer, z inner), from the cave floor up to the
/// column's cave top, every block other than air whose position the column's marks
/// select becomes `cave_air`. The marks are where the cave noise runs below its
/// threshold.
pub fn carve_caves(chunk: &mut Chunk, cave_tops: &[[i32; 16]; 16], marks: &[Vec<bool>], cave_air: u16)
    requires
        old(chunk).wf(),
        cave_air != 0,
        marks_cover(heights_of(*cave_tops), marks@.map_values(|v: Vec<bool>| v@)),
        forall|x: int, z: int| 0 <= x < 16 && 0 <= z < 16 ==> cave_tops@[x]@[z] < i32::MAX,
    ensures
        final(chunk).wf(),
        final(chunk).x == old(chunk).x,
        final(chunk).z == old(chunk).z,
        chunk_model(*final(chunk)) == caves_from(
            chunk_model(*old(chunk)),
            heights_of(*cave_tops),
            marks@.map_values(|v: Vec<bool>| v@),
            0,
            cave_air,
        ),
{
    let ghost tops = heights_of(*cave_tops);
    let ghost ms = marks@.map_values(|v: Vec<bool>| v@);
    let ghost m0 = chunk_model(*chunk);
    let mut x: usize = 0;
    while x < 16
        invariant
            x <= 16,
            chunk.wf(),
            chunk.x == old(chunk).x,
            chunk.z == old(chunk).z,
            cave_air != 0,
            tops == heights_of(*cave_tops),
            ms == marks@.map_values(|v: Vec<bool>| v@),
            marks_cover(tops, ms),
            forall|a: int, b: int| 0 <= a < 16 && 0 <= b < 16 ==> cave_tops@[a]@[b] < i32::MAX,
            caves_from(m0, tops, ms, 0, cave_air) == caves_from(
                chunk_model(*chunk),
                tops,
                ms,
                16 * x,
                cave_air,
            ),
        decreases 16 - x,
    {
        let mut z: usize = 0;
        while z < 16
            invariant
                x < 16,
                z <= 16,
                chunk.wf(),
                chunk.x == old(chunk).x,
                chunk.z == old(chunk).z,
                cave_air != 0,
                tops == heights_of(*cave_tops),
                ms == marks@.map_values(|v: Vec<bool>| v@),
                marks_cover(tops, ms),
                forall|a: int, b: int| 0 <= a < 16 && 0 <= b < 16 ==> cave_tops@[a]@[b] < i32::MAX,
                caves_from(m0, tops, ms, 0, cave_air) == caves_from(
                    chunk_model(*chunk),
                    tops,
                    ms,
                    16 * x + z,
                    cave_air,
                ),
            decreases 16 - z,
        {
            let k = 16 * x + z;
            let top = cave_tops[x][z];
            let col = &marks[k];
            let ghost mk = chunk_model(*chunk);
            proof {
                assert(k / 16 == x && k % 16 == z);
                assert(tops[x as int][z as int] == top);
                assert(ms[k as int] == col@);
                assert(col@.len() >= top + 61);
            }
            let mut y: i32 = CAVE_FLOOR;
            while y <= top
                invariant
                    x < 16,
                    z < 16,
                    k == 16 * x + z,
                    CAVE_FLOOR <= y,
                    y <= top + 1 || y == CAVE_FLOOR,
                    top < i32::MAX,
                    col@.len() >= top + 61,
                    chunk.wf(),
                    chunk.x == old(chunk).x,
                    chunk.z == old(chunk).z,
                    cave_air != 0,
                    carve_from(mk, x as int, z as int, CAVE_FLOOR as int, top as int, col@, cave_air)
                        == carve_from(chunk_model(*chunk), x as int, z as int, y as int, top as int, col@, cave_air),
                decreases top - y + 1,
            {
                let ghost before = *chunk;
                proof {
                    chunk.lemma_reads_within(x as int, y as int, z as int);
                    lemma_model_block(*chunk, x as int, y as int, z as int);
                }
                let current = chunk.get_block(x as u8, y, z as u8);
                if current != 0 && col[((y as i64) + 60) as usize] {
                    chunk.set_block(x as u8, y, z as u8, cave_air);
                    proof {
                        lemma_set_model(before, *chunk, x as int, y as int, z as int, cave_air);
                    }
                }
                y = y + 1;
            }
            z = z + 1;
        }
        x = x + 1;
    }
}

} // verus!
