use mist::world::foliage::{place_plants, PlantBlocks};
use mist::world::terrain::{can_set, counts_fit};
use mist::world::chunks::{BlockStorage, Chunk, Region, Section};
use mist::world::loading::{cells_to_load, chunk_radius, sort_by_distance};
use mist::world::terrain::{apply_surface, SurfaceBlocks};
use mist::world::wire::ContainerError;
use mist::world::worldgen::{
    generate, hash3, is_deepslate, seeded, tree_seed, try_place, OreHost,
};

fn empty_chunk(x: i32, z: i32) -> Chunk {
    Chunk { x, z, sections: (0..24).map(Section::new).collect() }
}

#[test]
fn chunk_reads_back_what_was_set() {
    let mut c = empty_chunk(0, 0);
    assert_eq!(c.get_block(3, 70, 5), 0);
    c.set_block(3, 70, 5, 9);
    assert_eq!(c.get_block(3, 70, 5), 9);
    assert_eq!(c.get_block(4, 70, 5), 0);
    c.set_block(0, -64, 0, 1);
    c.set_block(15, 319, 15, 2);
    assert_eq!(c.get_block(0, -64, 0), 1);
    assert_eq!(c.get_block(15, 319, 15), 2);
    assert_eq!(c.get_block(3, 70, 5), 9);
    // heights outside the sections read as air and are not stored
    c.set_block(1, 400, 1, 7);
    assert_eq!(c.get_block(1, 400, 1), 0);
}

#[test]
fn many_kinds_of_blocks_grow_the_palette() {
    let mut c = empty_chunk(0, 0);
    for i in 0..14u16 {
        c.set_block((i % 16) as u8, 10, (i / 16) as u8, i + 1);
    }
    for i in 0..14u16 {
        assert_eq!(c.get_block((i % 16) as u8, 10, (i / 16) as u8), i + 1);
    }
    let s = &c.sections[4];
    assert_eq!(s.blocks.palette.len(), 15);
    assert_eq!(s.blocks.bits_per_block, 4);
    assert_eq!(s.block_count, 14);
}

#[test]
fn surface_height() {
    let mut c = empty_chunk(0, 0);
    assert_eq!(c.get_surface_y(2, 2), -64);
    c.set_block(2, 10, 2, 1);
    c.set_block(2, 40, 2, 1);
    assert_eq!(c.get_surface_y(2, 2), 40);
    assert_eq!(c.get_surface_y_below_point(2, 39, 2), 10);
}

#[test]
fn bits_per_block_for_palette_sizes() {
    assert_eq!(Section::calculate_bits_per_block(1), 0);
    assert_eq!(Section::calculate_bits_per_block(2), 4);
    assert_eq!(Section::calculate_bits_per_block(16), 4);
    assert_eq!(Section::calculate_bits_per_block(17), 5);
    assert_eq!(Section::calculate_bits_per_block(256), 8);
    assert_eq!(Section::calculate_bits_per_block(257), 15);
}

#[test]
fn repacking_keeps_entries() {
    let mut s = BlockStorage::new();
    s.resize_and_repack(4);
    s.set_palette_index(0, 3);
    s.set_palette_index(4095, 9);
    s.resize_and_repack(7);
    assert_eq!(s.get_palette_index(0, 7), 3);
    assert_eq!(s.get_palette_index(4095, 7), 9);
    assert_eq!(s.get_palette_index(1, 7), 0);
    assert_eq!(s.data.len(), 64 * 7);
}

#[test]
fn region_finds_its_chunks() {
    let mut r = Region::new(0, 0);
    assert!(r.get_chunk(1, 1).is_none());
    r.chunks.push(empty_chunk(1, 1));
    r.chunks.push(empty_chunk(2, 1));
    assert_eq!(r.get_chunk(2, 1).map(|c| c.x), Some(2));
}

#[test]
fn paletted_container_bytes() {
    let single = BlockStorage::new();
    let mut out = Vec::new();
    single.write_paletted_container(&mut out).unwrap();
    assert_eq!(out, vec![0, 0]);
    let mut s = BlockStorage::new();
    s.palette = vec![0, 300];
    s.resize_and_repack(4);
    s.set_palette_index(0, 1);
    let mut out = Vec::new();
    s.write_paletted_container(&mut out).unwrap();
    assert_eq!(&out[..5], &[4, 2, 0, 0xac, 0x02]);
    assert_eq!(out.len(), 5 + 8 * 256);
    assert_eq!(&out[5..13], &[0, 0, 0, 0, 0, 0, 0, 1]);
    let mut odd = BlockStorage::new();
    odd.bits_per_block = 3;
    odd.data = vec![0; 192];
    let mut out = Vec::new();
    assert_eq!(odd.write_paletted_container(&mut out), Err(ContainerError::InvalidBits(3)));
    assert_eq!(out, vec![3]);
}

#[test]
fn generated_chunk_has_grass_floor() {
    let c = generate(3, -2, 8);
    assert_eq!((c.x, c.z, c.sections.len()), (3, -2, 24));
    assert_eq!(c.sections[0].block_count, 256);
    for x in 0..16u8 {
        for z in 0..16u8 {
            assert_eq!(c.get_block(x, -64, z), 8);
            assert_eq!(c.get_block(x, -63, z), 0);
        }
    }
}

#[test]
fn hashes_and_seeds_are_fixed_formulas() {
    assert_eq!(hash3(0, 0, 0), 0);
    assert_eq!(tree_seed(0, 0, 0), 0);
    let a = tree_seed(1234, 5, -7);
    assert_eq!(a, tree_seed(1234, 5, -7));
    assert_ne!(a, tree_seed(1234, -7, 5));
    assert_eq!(seeded(u64::MAX, 1), 0);
    assert_eq!(seeded(10, 3), 13);
}

#[test]
fn deepslate_layers() {
    assert!(!is_deepslate(0, 0, 0));
    assert!(!is_deepslate(5, 100, 5));
    assert!(is_deepslate(5, -9, 5));
    assert!(is_deepslate(5, -64, 5));
    let h = hash3(2, -4, 3) & 0xff;
    assert_eq!(is_deepslate(2, -4, 3), (h as i32) < 128);
}

#[test]
fn tree_blocks_only_inside_the_chunk() {
    let mut c = empty_chunk(0, 0);
    mist::world::worldgen::set(&mut c, 16, 70, 0, 5, false);
    mist::world::worldgen::set(&mut c, 0, 320, 0, 5, false);
    assert_eq!(c.get_block(0, 70, 0), 0);
    mist::world::worldgen::set(&mut c, 0, 70, 0, 5, false);
    assert_eq!(c.get_block(0, 70, 0), 5);
    mist::world::worldgen::set(&mut c, 0, 70, 0, 6, true);
    assert_eq!(c.get_block(0, 70, 0), 5);
    mist::world::worldgen::set(&mut c, 0, 70, 0, 6, false);
    assert_eq!(c.get_block(0, 70, 0), 6);
}

#[test]
fn ores_replace_stone_and_deepslate() {
    let variants = [(20u16, 21u16)];
    let host = OreHost { stone: 1, deepslate: 2, variants: &variants };
    let mut c = empty_chunk(0, 0);
    c.set_block(1, 10, 1, 1);
    c.set_block(2, -10, 2, 2);
    try_place(&mut c, 1, 10, 1, 20, &host);
    try_place(&mut c, 2, -10, 2, 20, &host);
    try_place(&mut c, 3, 10, 3, 20, &host);
    assert_eq!(c.get_block(1, 10, 1), 20);
    assert_eq!(c.get_block(2, -10, 2), 21);
    assert_eq!(c.get_block(3, 10, 3), 0);
}

#[test]
fn loading_radius_and_new_cells() {
    assert_eq!(chunk_radius(10), 13);
    assert_eq!(chunk_radius(0), 3);
    let cells = cells_to_load((0, 0), (1, 0), 1);
    assert_eq!(cells, vec![(2, -1), (2, 0), (2, 1)]);
    let same = cells_to_load((4, 4), (4, 4), 2);
    assert!(same.is_empty());
    let far = cells_to_load((100, 100), (0, 0), 1);
    assert_eq!(far.len(), 9);
}

#[test]
fn sorting_by_distance_is_stable() {
    let cells = [(2, 0), (0, 1), (1, 1), (0, 0), (-1, 0), (0, -2)];
    let sorted = sort_by_distance(&cells, (0, 0));
    assert_eq!(sorted, vec![(0, 0), (0, 1), (-1, 0), (1, 1), (2, 0), (0, -2)]);
}

#[test]
fn water_fills_up_to_sea_level() {
    let mut c = empty_chunk(0, 0);
    let mut heights = [[60i32; 16]; 16];
    heights[3][4] = 70;
    mist::world::terrain::fill_fluids(&mut c, &heights, 34);
    assert_eq!(c.get_block(0, 61, 0), 34);
    assert_eq!(c.get_block(0, 62, 0), 34);
    assert_eq!(c.get_block(0, 60, 0), 0);
    assert_eq!(c.get_block(0, 63, 0), 0);
    assert_eq!(c.get_block(3, 62, 4), 0);
    assert_eq!(c.sections[7].block_count, 255 * 2);
}

#[test]
fn surface_layers() {
    let ids = SurfaceBlocks { bedrock: 7, sand: 12, grass_block: 9, dirt: 10 };
    let mut c = empty_chunk(0, 0);
    for y in 60..=70 {
        c.set_block(1, y, 1, 1);
        c.set_block(2, y, 2, 1);
    }
    let mut heights = [[-64i32; 16]; 16];
    heights[1][1] = 70;
    heights[2][2] = 62;
    apply_surface(&mut c, &heights, &ids);
    assert_eq!(c.get_block(0, -64, 0), 7);
    assert_eq!(c.get_block(1, 70, 1), 9);
    assert_eq!(c.get_block(1, 69, 1), 10);
    assert_eq!(c.get_block(1, 67, 1), 10);
    assert_eq!(c.get_block(1, 66, 1), 1);
    assert_eq!(c.get_block(2, 62, 2), 12);
    assert_eq!(c.get_block(2, 61, 2), 12);
    assert_eq!(c.get_block(2, 60, 2), 12);
    assert_eq!(c.get_block(2, 59, 2), 0);
    assert_eq!(c.get_block(2, 63, 2), 1);
    assert_eq!(c.get_block(5, 0, 5), 0);
}

#[test]
fn plants_grow_only_on_grass_under_air() {
    let ids = PlantBlocks { grass_block: 9, short_grass: 40, flowers: [41, 42, 43, 44, 45, 46] };
    let mut c = empty_chunk(2, 3);
    let mut heights = [[70i32; 16]; 16];
    for x in 0..16u8 {
        for z in 0..16u8 {
            c.set_block(x, 70, z, 9);
        }
    }
    heights[0][0] = 50;
    c.set_block(1, 71, 1, 5);
    place_plants(&mut c, &heights, 77, &ids);
    let mut grown = 0;
    for x in 0..16u8 {
        for z in 0..16u8 {
            let b = c.get_block(x, 71, z);
            assert!(b == 0 || b == 5 || (40..=46).contains(&b));
            if (40..=46).contains(&b) {
                grown += 1;
            }
        }
    }
    assert_eq!(c.get_block(1, 71, 1), 5);
    assert!(grown > 0);
    let mut again = empty_chunk(2, 3);
    for x in 0..16u8 {
        for z in 0..16u8 {
            again.set_block(x, 70, z, 9);
        }
    }
    again.set_block(1, 71, 1, 5);
    place_plants(&mut again, &heights, 77, &ids);
    for x in 0..16u8 {
        for z in 0..16u8 {
            assert_eq!(again.get_block(x, 71, z), c.get_block(x, 71, z));
        }
    }
}

#[test]
fn chunk_seeds_depend_on_position() {
    let a = empty_chunk(1, 2);
    let b = empty_chunk(2, 1);
    assert_eq!(a.chunk_seed(5), empty_chunk(1, 2).chunk_seed(5));
    assert_ne!(a.chunk_seed(5), b.chunk_seed(5));
    assert_ne!(a.chunk_seed(5), a.chunk_seed(6));
}

#[test]
fn count_checks() {
    let mut c = empty_chunk(0, 0);
    assert!(counts_fit(&c, 0));
    c.set_block(0, 0, 0, 3);
    assert!(!counts_fit(&c, 0));
    assert!(counts_fit(&c, 1));
    c.sections[4].block_count = i16::MAX;
    assert!(!can_set(&c, 1, 0, 1, 3));
    assert!(can_set(&c, 0, 0, 0, 4));
    assert!(can_set(&c, 1, 0, 1, 0));
    assert!(can_set(&c, 1, 500, 1, 3));
}
