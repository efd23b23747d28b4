use mist::server::commands::{handle_command, CommandInfo, CommandResponse};
use mist::net::codec::CodecError;
use mist::net::packets::UseItemOnPacket;
use mist::server::handlers::{
    find_item_block, handle_container_click, handle_container_close, handle_player_action,
    handle_set_creative_mode_slot, handle_use_item_on, ActionEffect, UseEffect,
};
use mist::server::interaction::WindowBlocks;
use mist::types::block_entities::{set_lit, BlockEntityData, EntityBlocks};
use mist::types::blocks::{deepslate_pairs, deepslate_variant, Block, DeepslateIds, Property};
use mist::types::items::ItemStack;
use mist::types::player::{Gamemode, WindowType};
use mist::types::recipes::{Recipe, ShapedRecipe};
use mist::world::chunks::{Chunk, Section};

fn stack(item_id: i32, count: u8) -> Option<ItemStack> {
    Some(ItemStack { item_id, count })
}

fn empty_chunk(x: i32, z: i32) -> Chunk {
    Chunk { x, z, sections: (0..24).map(Section::new).collect() }
}

fn registry() -> Vec<Block> {
    let lit = Property { name: "lit".to_string(), values: vec!["true".to_string(), "false".to_string()] };
    let facing = Property {
        name: "facing".to_string(),
        values: vec!["north".to_string(), "south".to_string(), "west".to_string(), "east".to_string()],
    };
    vec![
        Block { name: "minecraft:stone".to_string(), min_state_id: 1, default_state: 1, properties: vec![] },
        Block { name: "minecraft:crafting_table".to_string(), min_state_id: 2, default_state: 2, properties: vec![] },
        Block { name: "minecraft:chest".to_string(), min_state_id: 3, default_state: 3, properties: vec![] },
        // furnace: facing (4 values) x lit (2 values), default facing north, lit false
        Block { name: "minecraft:furnace".to_string(), min_state_id: 10, default_state: 11, properties: vec![facing, lit] },
    ]
}

#[test]
fn creative_slot_packets() {
    let mut inv = [None; 46];
    let body = [0x00, 0x24, 0x02, 0x07, 0x00, 0x00];
    assert_eq!(handle_set_creative_mode_slot(&mut inv, Gamemode::Survival, &body), Ok(None));
    assert_eq!(inv[36], None);
    assert_eq!(handle_set_creative_mode_slot(&mut inv, Gamemode::Creative, &body), Ok(None));
    assert_eq!(inv[36], stack(7, 2));
    let throw = [0xff, 0xff, 0x01, 0x05, 0x00, 0x00];
    assert_eq!(handle_set_creative_mode_slot(&mut inv, Gamemode::Creative, &throw), Ok(stack(5, 1)));
    assert_eq!(handle_set_creative_mode_slot(&mut inv, Gamemode::Creative, &[0x00]), Err(CodecError::UnexpectedEnd));
    // outside creative mode nothing is read, so even a short body is fine
    assert_eq!(handle_set_creative_mode_slot(&mut inv, Gamemode::Survival, &[]), Ok(None));
}

#[test]
fn close_packet_returns_the_table_grid() {
    let mut grid = [None; 10];
    grid[0] = stack(99, 1);
    grid[2] = stack(5, 3);
    let mut window = Some(WindowType::CraftingTable(grid));
    let mut inv = [None; 46];
    assert_eq!(handle_container_close(&mut window, &mut inv, &[0x80]), Err(CodecError::UnexpectedEnd));
    assert!(window.is_some());
    assert_eq!(handle_container_close(&mut window, &mut inv, &[0x01]), Ok(1));
    assert!(window.is_none());
    assert_eq!(inv[36], stack(5, 3));
    assert!(inv.iter().all(|s| s.map_or(true, |st| st.item_id != 99)));
}

#[test]
fn clicks_in_the_inventory_and_in_a_table() {
    let recipes = vec![Recipe::Shaped(ShapedRecipe {
        pattern: [5, 0, 0, 0, 0, 0, 0, 0, 0],
        width: 1,
        height: 1,
        result_id: 6,
        result_count: 4,
    })];
    // window 0, one change: slot 1 gets item 5, then carried item 8
    let body = [0x00, 0x00, 0x00, 0x01, 0x00, 0x00, 0x01, 0x00, 0x01, 0x01, 0x05, 0x01, 0x00, 0x00, 0x01, 0x08, 0x01, 0x00, 0x00];
    let mut window = None;
    let mut inv = [None; 46];
    let mut carried = None;
    assert_eq!(handle_container_click(&mut window, &mut inv, &mut carried, &body, &recipes), Ok(None));
    assert_eq!(inv[1], stack(5, 1));
    assert_eq!(inv[0], stack(6, 4));
    assert_eq!(carried, stack(8, 1));

    let mut window = Some(WindowType::CraftingTable([None; 10]));
    let mut inv = [None; 46];
    let mut carried = None;
    assert_eq!(handle_container_click(&mut window, &mut inv, &mut carried, &body, &recipes), Ok(Some(stack(6, 4))));
    match window {
        Some(WindowType::CraftingTable(g)) => {
            assert_eq!(g[1], stack(5, 1));
            assert_eq!(g[0], stack(6, 4));
        }
        None => panic!("the table stays open"),
    }
    assert_eq!(carried, None);
    assert!(handle_container_click(&mut window, &mut inv, &mut carried, &body[..5], &recipes).is_err());
}

fn action_body(status: u8) -> Vec<u8> {
    let mut b = vec![status];
    b.extend_from_slice(&0i64.to_be_bytes());
    b.push(1);
    b.push(9);
    b
}

#[test]
fn digging_and_dropping() {
    let mut inv = [None; 46];
    inv[37] = stack(3, 10);
    assert_eq!(
        handle_player_action(&mut inv, 1, Gamemode::Survival, &action_body(2)),
        Ok(ActionEffect::Break { x: 0, y: 0, z: 0, sequence: 9, drops: true })
    );
    assert_eq!(handle_player_action(&mut inv, 1, Gamemode::Survival, &action_body(0)), Ok(ActionEffect::Nothing));
    assert_eq!(
        handle_player_action(&mut inv, 1, Gamemode::Creative, &action_body(0)),
        Ok(ActionEffect::Break { x: 0, y: 0, z: 0, sequence: 9, drops: false })
    );
    assert_eq!(
        handle_player_action(&mut inv, 1, Gamemode::Survival, &action_body(4)),
        Ok(ActionEffect::Drop(ItemStack { item_id: 3, count: 1 }))
    );
    assert_eq!(inv[37], stack(3, 9));
    assert_eq!(
        handle_player_action(&mut inv, 1, Gamemode::Survival, &action_body(3)),
        Ok(ActionEffect::Drop(ItemStack { item_id: 3, count: 9 }))
    );
    assert_eq!(inv[37], None);
    assert_eq!(handle_player_action(&mut inv, 1, Gamemode::Survival, &action_body(3)), Ok(ActionEffect::Nothing));
    assert_eq!(handle_player_action(&mut inv, 1, Gamemode::Survival, &[0x02]), Err(CodecError::UnexpectedEnd));
}

fn click(position: (i32, i32, i32), face: u8) -> UseItemOnPacket {
    UseItemOnPacket { hand: 0, position, face, cursor: (0, 0, 0), inside_block: 0, world_border_hit: 0, sequence: 3 }
}

#[test]
fn using_items_on_blocks() {
    let blocks = registry();
    let windows = WindowBlocks { crafting_table: 2, chest: 3, furnace: 11 };
    let kinds = EntityBlocks { furnace: 11, blast_furnace: 50, smoker: 51, chest: 3 };
    let items = vec![(100, 1u16), (101, 11u16)];
    let mut chunk = empty_chunk(0, 0);
    chunk.set_block(4, 64, 4, 2);
    let mut inv = [None; 46];
    inv[36] = stack(100, 2);
    inv[37] = stack(101, 1);
    let mut window = None;
    let mut window_id = 0;
    // a click on the crafting table opens it
    let e = handle_use_item_on(&click((4, 64, 4), 1), &mut chunk, &mut inv, &mut window, &mut window_id, 0, Gamemode::Survival, false, "south", &blocks, &items, &windows, &kinds);
    assert!(matches!(e, UseEffect::OpenCraftingTable));
    assert_eq!(window_id, 1);
    assert!(window.is_some());
    // sneaking places stone on top of it and takes one item
    let mut window = None;
    let e = handle_use_item_on(&click((4, 64, 4), 1), &mut chunk, &mut inv, &mut window, &mut window_id, 0, Gamemode::Survival, true, "south", &blocks, &items, &windows, &kinds);
    assert!(matches!(e, UseEffect::Placed { state: 1, entity: None }));
    assert_eq!(chunk.get_block(4, 65, 4), 1);
    assert_eq!(inv[36], stack(100, 1));
    // a furnace placed facing south: facing index 1, lit index 1 (false)
    let e = handle_use_item_on(&click((4, 65, 4), 5), &mut chunk, &mut inv, &mut window, &mut window_id, 1, Gamemode::Survival, true, "south", &blocks, &items, &windows, &kinds);
    match e {
        UseEffect::Placed { state, entity: Some(BlockEntityData::Furnace { .. }) } => assert_eq!(state, 13),
        _ => panic!("expected a furnace"),
    }
    assert_eq!(chunk.get_block(5, 65, 4), 13);
    assert_eq!(inv[37], None);
    // in creative mode nothing is taken; an empty hand does nothing
    let e = handle_use_item_on(&click((4, 65, 4), 2), &mut chunk, &mut inv, &mut window, &mut window_id, 0, Gamemode::Creative, true, "south", &blocks, &items, &windows, &kinds);
    assert!(matches!(e, UseEffect::Placed { state: 1, .. }));
    assert_eq!(inv[36], stack(100, 1));
    let e = handle_use_item_on(&click((4, 65, 4), 2), &mut chunk, &mut inv, &mut window, &mut window_id, 5, Gamemode::Survival, true, "south", &blocks, &items, &windows, &kinds);
    assert!(matches!(e, UseEffect::Nothing));
    assert_eq!(find_item_block(&items, 101), Some(11));
    assert_eq!(find_item_block(&items, 7), None);
}

#[test]
fn lighting_a_furnace_sets_its_block() {
    let blocks = registry();
    let mut chunk = empty_chunk(0, 0);
    chunk.set_block(1, 10, 1, 13);
    assert_eq!(set_lit(&mut chunk, &blocks, 1, 10, 1, true), 12);
    assert_eq!(chunk.get_block(1, 10, 1), 12);
    assert_eq!(set_lit(&mut chunk, &blocks, 1, 10, 1, false), 13);
    assert_eq!(chunk.get_block(1, 10, 1), 13);
}

#[test]
fn deepslate_forms() {
    let ids = DeepslateIds {
        stone: 1,
        deepslate: 2,
        ores: [10, 11, 12, 13, 14, 15, 16, 17],
        deepslate_ores: [20, 21, 22, 23, 24, 25, 26, 27],
    };
    let table = deepslate_pairs(&ids);
    assert_eq!(table.len(), 9);
    assert_eq!(deepslate_variant(&table, 1), 2);
    assert_eq!(deepslate_variant(&table, 14), 24);
    assert_eq!(deepslate_variant(&table, 17), 27);
    assert_eq!(deepslate_variant(&table, 99), 99);
}

#[test]
fn autosave_comes_every_6001_ticks() {
    let (mut t, saved) = mist::server::session::autosave_step(0);
    assert!(saved);
    for _ in 0..6000 {
        let (next, save) = mist::server::session::autosave_step(t);
        assert!(!save);
        t = next;
    }
    assert_eq!(mist::server::session::autosave_step(t), (6000, true));
}

#[test]
fn no_overrides_give_the_default_state() {
    let blocks = registry();
    assert_eq!(mist::types::blocks::resolve_state(&blocks[3], vec![]), 11);
    assert_eq!(mist::types::blocks::resolve_state(&blocks[3], vec![("lit", "true")]), 10);
    assert_eq!(mist::types::blocks::resolve_from(&blocks[3], 15, vec![("lit", "true")]), 14);
}

#[test]
fn caves_are_carved_only_where_marked_and_solid() {
    let mut chunk = empty_chunk(0, 0);
    for y in -64..-50 {
        chunk.set_block(2, y, 3, 1);
    }
    let mut tops = [[-70; 16]; 16];
    tops[2][3] = -55;
    let mut marks: Vec<Vec<bool>> = vec![Vec::new(); 256];
    // column (2, 3): heights -60..=-55 are marks 0..=5; mark -59, -56 and -55
    marks[2 * 16 + 3] = vec![false, true, false, false, true, true];
    mist::world::caves::carve_caves(&mut chunk, &tops, &marks, 99);
    assert_eq!(chunk.get_block(2, -59, 3), 99);
    assert_eq!(chunk.get_block(2, -56, 3), 99);
    assert_eq!(chunk.get_block(2, -55, 3), 99);
    assert_eq!(chunk.get_block(2, -60, 3), 1);
    assert_eq!(chunk.get_block(2, -54, 3), 1);
    assert_eq!(chunk.get_block(2, -62, 3), 1);
    // an air position stays air even where marked
    let mut air = empty_chunk(0, 0);
    mist::world::caves::carve_caves(&mut air, &tops, &marks, 99);
    assert_eq!(air.get_block(2, -59, 3), 0);
}

#[test]
fn commands_are_answered_or_run() {
    let table = [
        CommandInfo { name: "give", requires_op: true },
        CommandInfo { name: "tps", requires_op: false },
    ];
    let words = |w: &[&str]| w.iter().map(|s| s.to_string()).collect::<Vec<String>>();
    match handle_command(&table, &words(&["fly"]), true) {
        CommandResponse::Reply(m) => assert_eq!(m, "\u{a7}cUnknown command: /fly"),
        _ => panic!("expected a reply"),
    }
    match handle_command(&table, &words(&["give", "stone", "1"]), false) {
        CommandResponse::Reply(m) => assert_eq!(m, "\u{a7}cYou do not have permission to use this command."),
        _ => panic!("expected a reply"),
    }
    assert!(matches!(handle_command(&table, &words(&["give", "stone", "1"]), true), CommandResponse::Run(0)));
    assert!(matches!(handle_command(&table, &words(&["tps"]), false), CommandResponse::Run(1)));
}

#[test]
fn hungry_players_stop_sprinting() {
    assert!(mist::types::player::survival_sprint(true, 6));
    assert!(!mist::types::player::survival_sprint(true, 5));
    assert!(!mist::types::player::survival_sprint(false, 20));
}

#[test]
fn closing_needs_only_the_returned_kinds_capped() {
    let mut grid = [None; 10];
    grid[1] = stack(5, 2);
    let mut window = Some(WindowType::CraftingTable(grid));
    let mut inv = [None; 46];
    inv[10] = stack(9, 100);
    assert_eq!(handle_container_close(&mut window, &mut inv, &[0x00]), Ok(0));
    assert_eq!(inv[36], stack(5, 2));
    assert_eq!(inv[10], stack(9, 100));
}

#[test]
fn moving_a_grid_keeps_its_result() {
    let recipes = vec![Recipe::Shaped(ShapedRecipe {
        pattern: [5, 5, 0, 5, 5, 0, 0, 0, 0],
        width: 2,
        height: 2,
        result_id: 58,
        result_count: 1,
    })];
    let g = [Some(5), Some(5), None, Some(5), Some(5), None, None, None, None];
    let moved = [None, None, None, None, Some(5), Some(5), None, Some(5), Some(5)];
    let r = mist::types::recipes::check_3x3(&recipes, &g);
    assert_eq!(r, Some((58, 1)));
    assert_eq!(mist::types::recipes::check_3x3(&recipes, &moved), r);
}
