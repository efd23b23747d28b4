use mist::types::entity::{item_move_sync, player_move_sync, MoveSync};
use mist::types::player::{inventory_from_save, starter_inventory};
use mist::server::commands::{configured_gamemode, no_permission_reply, unknown_command_reply};
use mist::server::session::WorldSave;
use mist::server::auth::server_hash;
use mist::server::commands::{
    command_outcome, dispatch_command, parse_gamemode, parse_i32, split_words, tps_color, Arg,
    CommandInfo, CommandOutcome, Dispatch, Parser, TpsColor,
};
use mist::server::interaction::{
    block_use, breaks_block, chest_window, death_drops, set_creative_slot, chunk_and_region, consume_one, crafting_table_click,
    drop_held, finish_eating, furnace_window, held_slot, inventory_click, placement_target,
    remove_viewer, return_crafting_grid, starts_eating, BlockUse, WindowBlocks,
};
use mist::server::session::{
    autosave_step, config_step, leave_plan, login_check, ConfigAction, ConfigEvent, LeavePlan,
};
use mist::types::block_entities::{
    fuel_time, get_block_entity, BlockEntityData, CookingTables, EntityBlocks, FuelItems,
    FurnaceType,
};
use mist::types::blocks::{face_to_direction, Block, Property};
use mist::types::entity::{next_entity_id, uuid_bits};
use mist::types::items::ItemStack;
use mist::types::player::{
    give_item, movement_from_flags, survival_timers, Gamemode,
};
use mist::types::recipes::{match_2x2_shaped, match_3x3_shaped, Recipe, ShapedRecipe, ShapelessRecipe};

fn stack(item_id: i32, count: u8) -> Option<ItemStack> {
    Some(ItemStack { item_id, count })
}

fn fuels() -> FuelItems {
    FuelItems { lava_bucket: 100, coal_block: 101, dried_kelp_block: 102, blaze_rod: 103, coal: 104, charcoal: 105 }
}

const PLANKS: &[i32] = &[200, 201];
const WOOL: &[i32] = &[300];
const ITEM_TAGS: &[(&str, &[i32])] = &[("minecraft:planks", PLANKS), ("minecraft:wool", WOOL)];
const TAGS: &[(&str, &[(&str, &[i32])])] = &[("minecraft:block", &[]), ("minecraft:item", ITEM_TAGS)];

fn furnace(input: Option<ItemStack>, fuel: Option<ItemStack>, output: Option<ItemStack>) -> BlockEntityData {
    BlockEntityData::Furnace {
        furnace_type: FurnaceType::Furnace,
        input,
        fuel,
        output,
        currently_cooking: None,
        lit_left: 0,
        lit_total: 0,
        cook_left: 200,
        lit_total_last: 0,
        properties_changed: false,
        slots_changed: false,
        was_lit: false,
    }
}

#[test]
fn fuel_times_fixed_and_tagged() {
    assert_eq!(fuel_time(&fuels(), TAGS, 100), Some(20000));
    assert_eq!(fuel_time(&fuels(), TAGS, 105), Some(1600));
    assert_eq!(fuel_time(&fuels(), TAGS, 201), Some(300));
    assert_eq!(fuel_time(&fuels(), TAGS, 300), Some(100));
    assert_eq!(fuel_time(&fuels(), TAGS, 7), None);
    assert_eq!(fuel_time(&fuels(), &[], 201), None);
}

#[test]
fn block_entities_for_placed_blocks() {
    let blocks = vec![
        Block { name: "minecraft:furnace".to_string(), min_state_id: 10, default_state: 11, properties: vec![Property { name: "lit".to_string(), values: vec!["true".to_string(), "false".to_string()] }] },
        Block { name: "minecraft:chest".to_string(), min_state_id: 12, default_state: 12, properties: vec![] },
        Block { name: "minecraft:stone".to_string(), min_state_id: 13, default_state: 13, properties: vec![] },
    ];
    let ids = EntityBlocks { furnace: 11, blast_furnace: 50, smoker: 51, chest: 12 };
    match get_block_entity(&blocks, &ids, 10) {
        Some(BlockEntityData::Furnace { furnace_type: FurnaceType::Furnace, cook_left, .. }) => assert_eq!(cook_left, 200),
        _ => panic!("expected a furnace"),
    }
    match get_block_entity(&blocks, &ids, 12) {
        Some(e @ BlockEntityData::Chest { .. }) => assert_eq!(e.type_id(), 1),
        _ => panic!("expected a chest"),
    }
    assert!(get_block_entity(&blocks, &ids, 13).is_none());
    assert!(get_block_entity(&blocks, &ids, 99).is_none());
    assert_eq!(furnace(None, None, None).type_id(), 0);
}

#[test]
fn furnace_smelts_one_item() {
    let smelting = [(1, 2)];
    let tables = CookingTables { smelting: &smelting, blasting: &[], smoking: &[], fuels: fuels(), tags: TAGS };
    let mut f = furnace(stack(1, 2), stack(104, 1), None);
    assert_eq!(f.tick(&tables), Some(true));
    match &f {
        BlockEntityData::Furnace { input, fuel, currently_cooking, lit_left, cook_left, .. } => {
            assert_eq!(*fuel, None);
            assert_eq!(*lit_left, 1600);
            assert_eq!(*input, stack(1, 1));
            assert_eq!(*currently_cooking, stack(2, 1));
            assert_eq!(*cook_left, 200);
        }
        _ => unreachable!(),
    }
    for _ in 0..199 {
        assert_eq!(f.tick(&tables), None);
    }
    f.tick(&tables);
    match &f {
        BlockEntityData::Furnace { input, output, currently_cooking, cook_left, .. } => {
            assert_eq!(*output, stack(2, 1));
            assert_eq!(*currently_cooking, None);
            assert_eq!(*input, stack(1, 1));
            assert_eq!(*cook_left, 200);
        }
        _ => unreachable!(),
    }
    f.tick(&tables);
    match &f {
        BlockEntityData::Furnace { input, output, currently_cooking, .. } => {
            assert_eq!(*output, stack(2, 1));
            assert_eq!(*currently_cooking, stack(2, 1));
            assert_eq!(*input, None);
        }
        _ => unreachable!(),
    }
}

#[test]
fn furnace_without_recipe_stays_cold() {
    let tables = CookingTables { smelting: &[], blasting: &[], smoking: &[], fuels: fuels(), tags: TAGS };
    let mut f = furnace(stack(1, 2), stack(104, 3), None);
    assert_eq!(f.tick(&tables), None);
    match &f {
        BlockEntityData::Furnace { fuel, lit_left, .. } => {
            assert_eq!(*fuel, stack(104, 3));
            assert_eq!(*lit_left, 0);
        }
        _ => unreachable!(),
    }
}

#[test]
fn block_entity_nbt_names_its_kind() {
    let mut w = Vec::new();
    furnace(None, None, None).write_nbt(&mut w).unwrap();
    let text = String::from_utf8_lossy(&w).to_string();
    assert!(text.contains("minecraft:furnace"));
    assert!(text.contains("id"));
    let mut w2 = Vec::new();
    BlockEntityData::Chest { items: [None; 27], viewers: vec![] }.write_nbt(&mut w2).unwrap();
    assert!(String::from_utf8_lossy(&w2).contains("minecraft:chest"));
}

#[test]
fn placing_against_faces() {
    assert_eq!(placement_target((1, 2, 3), 0), (1, 1, 3));
    assert_eq!(placement_target((1, 2, 3), 1), (1, 3, 3));
    assert_eq!(placement_target((1, 2, 3), 2), (1, 2, 2));
    assert_eq!(placement_target((1, 2, 3), 3), (1, 2, 4));
    assert_eq!(placement_target((1, 2, 3), 4), (0, 2, 3));
    assert_eq!(placement_target((1, 2, 3), 5), (2, 2, 3));
    assert_eq!(placement_target((1, 2, 3), 9), (1, 2, 3));
    assert_eq!(chunk_and_region(-1, 17), ((-1, 1), (-1, 0)));
    assert_eq!(chunk_and_region(512, -513), ((32, -33), (1, -2)));
}

#[test]
fn clicking_blocks() {
    let ids = WindowBlocks { crafting_table: 1, chest: 2, furnace: 3 };
    assert_eq!(block_use(true, false, Some(1), &ids), BlockUse::OpenCraftingTable);
    assert_eq!(block_use(true, false, Some(2), &ids), BlockUse::OpenChest);
    assert_eq!(block_use(true, false, Some(3), &ids), BlockUse::OpenFurnace);
    assert_eq!(block_use(true, true, Some(2), &ids), BlockUse::Place);
    assert_eq!(block_use(false, false, Some(2), &ids), BlockUse::Place);
    assert_eq!(block_use(true, false, None, &ids), BlockUse::Place);
}

#[test]
fn window_layouts() {
    let mut items = [None; 27];
    items[0] = stack(5, 1);
    let mut inv = [None; 46];
    inv[9] = stack(6, 2);
    inv[44] = stack(7, 3);
    let w = chest_window(&items, &inv);
    assert_eq!(w[0], stack(5, 1));
    assert_eq!(w[27], stack(6, 2));
    assert_eq!(w[62], stack(7, 3));
    let f = furnace_window(stack(1, 1), stack(2, 2), None, &inv);
    assert_eq!((f[0], f[1], f[2], f[3], f[38]), (stack(1, 1), stack(2, 2), None, stack(6, 2), stack(7, 3)));
}

#[test]
fn held_items() {
    assert_eq!(held_slot(0), Some(36));
    assert_eq!(held_slot(8), Some(44));
    assert_eq!(held_slot(-1), None);
    assert_eq!(held_slot(10), None);
    let mut inv = [None; 46];
    inv[36] = stack(4, 2);
    consume_one(&mut inv, 36);
    assert_eq!(inv[36], stack(4, 1));
    consume_one(&mut inv, 36);
    assert_eq!(inv[36], None);
    inv[37] = stack(8, 10);
    assert_eq!(drop_held(&mut inv, 37, false), stack(8, 1));
    assert_eq!(inv[37], stack(8, 9));
    assert_eq!(drop_held(&mut inv, 37, true), stack(8, 9));
    assert_eq!(inv[37], None);
    assert_eq!(drop_held(&mut inv, 37, true), None);
}

#[test]
fn digging_and_eating() {
    assert!(breaks_block(2, Gamemode::Survival));
    assert!(breaks_block(0, Gamemode::Creative));
    assert!(!breaks_block(0, Gamemode::Survival));
    assert!(!breaks_block(1, Gamemode::Creative));
    assert!(starts_eating(stack(1, 1), Some(false), 19));
    assert!(!starts_eating(stack(1, 1), Some(false), 20));
    assert!(starts_eating(stack(1, 1), Some(true), 20));
    assert!(!starts_eating(stack(1, 1), None, 0));
    assert!(!starts_eating(None, Some(true), 0));
    let mut inv = [None; 46];
    inv[36] = stack(1, 3);
    assert_eq!(finish_eating(&mut inv, 36, 15, Some(8)), Some(20));
    assert_eq!(inv[36], stack(1, 2));
    assert_eq!(finish_eating(&mut inv, 36, 5, None), None);
    assert_eq!(inv[36], None);
}

#[test]
fn giving_fills_hotbar_first() {
    let mut inv = [None; 46];
    inv[36] = stack(9, 60);
    give_item(&mut inv, 9, 10);
    assert_eq!(inv[36], stack(9, 64));
    assert_eq!(inv[37], stack(9, 6));
    let mut inv = [None; 46];
    give_item(&mut inv, 3, 64 * 37);
    assert_eq!(inv[36], stack(3, 64));
    assert_eq!(inv[9], stack(3, 64));
    assert_eq!(inv[0], None);
}

#[test]
fn closing_a_crafting_table_returns_its_grid() {
    let mut inv = [None; 46];
    let mut grid = [None; 10];
    grid[0] = stack(50, 1);
    grid[1] = stack(5, 2);
    grid[9] = stack(6, 1);
    return_crafting_grid(&mut inv, &grid);
    assert_eq!(inv[36], stack(5, 2));
    assert_eq!(inv[37], stack(6, 1));
    assert_eq!(inv[38], None);
}

fn planks_recipe() -> Recipe {
    Recipe::Shapeless(ShapelessRecipe { ingredients: vec![17], result_id: 5, result_count: 4 })
}

fn table_recipe() -> Recipe {
    Recipe::Shaped(ShapedRecipe { pattern: [5, 5, 0, 5, 5, 0, 0, 0, 0], width: 2, height: 2, result_id: 58, result_count: 1 })
}

#[test]
fn inventory_click_updates_result() {
    let recipes = vec![planks_recipe(), table_recipe()];
    let mut inv = [None; 46];
    inventory_click(&mut inv, 0, &[(2, stack(17, 1)), (50, stack(1, 1))], &recipes);
    assert_eq!(inv[2], stack(17, 1));
    assert_eq!(inv[0], stack(5, 4));
    inventory_click(&mut inv, 0, &[(2, None), (1, stack(5, 1)), (2, stack(5, 1)), (3, stack(5, 1)), (4, stack(5, 1))], &recipes);
    assert_eq!(inv[0], stack(58, 1));
    inventory_click(&mut inv, 3, &[(1, None)], &recipes);
    assert_eq!(inv[1], stack(5, 1));
}

#[test]
fn crafting_table_click_updates_result() {
    let recipes = vec![planks_recipe(), table_recipe()];
    let mut inv = [None; 46];
    let mut grid = [None; 10];
    let r = crafting_table_click(&mut grid, &mut inv, &[(5, stack(5, 1)), (6, stack(5, 1)), (8, stack(5, 1)), (9, stack(5, 1)), (10, stack(3, 3))], &recipes);
    assert_eq!(r, stack(58, 1));
    assert_eq!(grid[0], stack(58, 1));
    assert_eq!(inv[9], stack(3, 3));
}

#[test]
fn viewers_leave() {
    let mut v = vec!["a".to_string(), "b".to_string(), "a".to_string(), "c".to_string()];
    remove_viewer(&mut v, "a");
    assert_eq!(v, vec!["b".to_string(), "c".to_string()]);
    remove_viewer(&mut v, "zzz");
    assert_eq!(v.len(), 2);
}

#[test]
fn command_words() {
    assert_eq!(split_words("  give  dirt\t64 "), vec!["give", "dirt", "64"]);
    assert_eq!(split_words(""), Vec::<String>::new());
    assert_eq!(split_words("a\u{3000}b"), vec!["a", "b"]);
}

#[test]
fn amounts_parse_like_str_parse() {
    for t in ["0", "64", "+7", "-12", "2147483647", "-2147483648", "", "-", "+", "2147483648", "12a", "99999999999999999999", " 1"] {
        assert_eq!(parse_i32(t), t.parse::<i32>().ok(), "{}", t);
    }
}

#[test]
fn gamemode_names() {
    assert_eq!(parse_gamemode("Survival"), Some(Gamemode::Survival));
    assert_eq!(parse_gamemode("c"), Some(Gamemode::Creative));
    assert_eq!(parse_gamemode("2"), Some(Gamemode::Adventure));
    assert_eq!(parse_gamemode("SP"), Some(Gamemode::Spectator));
    assert_eq!(parse_gamemode("hardcore"), None);
}

fn outcome(cmd: &str) -> CommandOutcome {
    command_outcome(&split_words(cmd))
}

#[test]
fn commands_decide() {
    assert_eq!(outcome("tps"), CommandOutcome::Tps);
    assert_eq!(outcome("version"), CommandOutcome::Version);
    assert_eq!(outcome("give dirt"), CommandOutcome::GiveUsage);
    assert_eq!(outcome("give dirt many"), CommandOutcome::InvalidAmount);
    assert_eq!(outcome("give dirt 32"), CommandOutcome::Give { amount: 32 });
    assert_eq!(outcome("gamemode"), CommandOutcome::GamemodeUsage);
    assert_eq!(outcome("gamemode 1"), CommandOutcome::SetGamemode(Gamemode::Creative));
    assert_eq!(outcome("gamemode x"), CommandOutcome::UnknownGamemode);
    assert_eq!(outcome("fly"), CommandOutcome::Unknown);
    assert_eq!(tps_color(20), TpsColor::Green);
    assert_eq!(tps_color(15), TpsColor::Yellow);
    assert_eq!(tps_color(14), TpsColor::Red);
}

#[test]
fn command_table_dispatch() {
    let table = [CommandInfo { name: "op", requires_op: true }, CommandInfo { name: "tps", requires_op: false }];
    assert_eq!(dispatch_command(&table, "tps", false), Dispatch::Run(1));
    assert_eq!(dispatch_command(&table, "op", false), Dispatch::NoPermission);
    assert_eq!(dispatch_command(&table, "op", true), Dispatch::Run(0));
    assert_eq!(dispatch_command(&table, "nope", true), Dispatch::Unknown);
}

#[test]
fn argument_parsers() {
    let p = Parser::Integer { min: Some(1), max: None };
    assert_eq!(p.id(), 3);
    let mut w = Vec::new();
    p.write_props(&mut w).unwrap();
    assert_eq!(w, vec![0x01, 0, 0, 0, 1]);
    let mut w = Vec::new();
    Parser::Integer { min: Some(-1), max: Some(2) }.write_props(&mut w).unwrap();
    assert_eq!(w, vec![0x03, 0xff, 0xff, 0xff, 0xff, 0, 0, 0, 2]);
    let mut w = vec![0xAA];
    Parser::Integer { min: Some(-1), max: Some(2) }.write_props(&mut w).unwrap();
    assert_eq!(w, vec![0xAA, 0x03, 0xff, 0xff, 0xff, 0xff, 0, 0, 0, 2]);
    let mut w = Vec::new();
    Parser::Gamemode.write_props(&mut w).unwrap();
    assert!(w.is_empty());
    assert_eq!(Parser::GameProfile.id(), 7);
    assert_eq!(Parser::ItemStack.id(), 14);
    assert_eq!(Parser::Gamemode.id(), 42);
    let arg = Arg { name: "amount", parser: p };
    assert_eq!(arg.parser.id(), 3);
}

#[test]
fn server_hashes_match_known_digests() {
    assert_eq!(server_hash(b"Notch", b""), "4ed1f46bbe04bc756bcb17c0c7ce3e4632f06a48");
    assert_eq!(server_hash(b"jeb_", b""), "-7c9d5b0044c130109a5d7b5fb5c317c02b4e28c1");
    assert_eq!(server_hash(b"sim", b"on"), "88e16a1019277b15d58faf0541e11910eb756f6");
}

#[test]
fn entity_ids_and_uuids() {
    let mut counter = 5;
    assert_eq!(next_entity_id(&mut counter), 5);
    assert_eq!(next_entity_id(&mut counter), 6);
    let mut top = i32::MAX;
    assert_eq!(next_entity_id(&mut top), i32::MAX);
    assert_eq!(top, i32::MIN);
    assert_eq!(uuid_bits("069a79f4-44e9-4726-a5be-fca90e38aaf5"), 0x069a79f4_44e9_4726_a5be_fca90e38aaf5);
    assert_eq!(uuid_bits("069A79F444E94726A5BEFCA90E38AAF5"), 0x069a79f4_44e9_4726_a5be_fca90e38aaf5);
}

#[test]
fn player_flags_and_timers() {
    let m = movement_from_flags(0x01 | 0x20 | 0x40);
    assert!(m.forward && m.sneaking && m.sprinting);
    assert!(!m.backward && !m.left && !m.right && !m.jumping);
    assert_eq!(survival_timers(0, 79), (1, 80));
    assert_eq!(survival_timers(80, 200), (80, 80));
}

#[test]
fn session_decisions() {
    let c = login_check(770, 771, 3, 20);
    assert!(c.version_mismatch && !c.full);
    assert!(login_check(771, 771, 20, 20).full);
    assert_eq!(config_step(ConfigEvent::KnownPacks), ConfigAction::SendRegistries);
    assert_eq!(config_step(ConfigEvent::AcknowledgeFinish), ConfigAction::EnterPlay);
    assert_eq!(config_step(ConfigEvent::Failed), ConfigAction::Close);
    assert_eq!(leave_plan(1), LeavePlan::SaveWorldAndUnload);
    assert_eq!(leave_plan(3), LeavePlan::SavePlayerAndNotify);
    assert_eq!(autosave_step(0), (6000, true));
    assert_eq!(autosave_step(5), (4, false));
}

#[test]
fn movement_sync_decisions() {
    assert_eq!(player_move_sync(0, false, false, false), (MoveSync::Nothing, 1));
    assert_eq!(player_move_sync(0, false, false, true), (MoveSync::Rotation, 1));
    assert_eq!(player_move_sync(19, false, false, true), (MoveSync::FullSync, 0));
    assert_eq!(player_move_sync(19, true, false, false), (MoveSync::FullSync, 0));
    assert_eq!(player_move_sync(25, true, true, true), (MoveSync::FullSync, 0));
    assert_eq!(player_move_sync(3, true, true, false), (MoveSync::FullSync, 4));
    assert_eq!(player_move_sync(3, true, false, true), (MoveSync::PositionAndRotation, 4));
    assert_eq!(player_move_sync(3, true, false, false), (MoveSync::Position, 4));
    assert_eq!(item_move_sync(5, false, false), (MoveSync::Nothing, 6));
    assert_eq!(item_move_sync(19, false, false), (MoveSync::FullSync, 0));
    assert_eq!(item_move_sync(2, true, false), (MoveSync::Position, 3));
}

#[test]
fn saved_and_new_inventories() {
    let mut saved = vec![None; 46];
    saved[10] = stack(3, 3);
    let inv = inventory_from_save(saved);
    assert_eq!(inv[10], stack(3, 3));
    let short = inventory_from_save(vec![stack(1, 1); 36]);
    assert!(short.iter().all(|s| s.is_none()));
    let start = starter_inventory(1, 2, 3);
    assert_eq!((start[36], start[37], start[38]), (stack(1, 64), stack(2, 64), stack(3, 64)));
    assert_eq!(start.iter().filter(|s| s.is_some()).count(), 3);
}

#[test]
fn configured_modes_and_world_save() {
    assert_eq!(configured_gamemode("creative"), (Gamemode::Creative, true));
    assert_eq!(configured_gamemode("Creative"), (Gamemode::Survival, false));
    assert_eq!(configured_gamemode("spectator"), (Gamemode::Spectator, true));
    assert_eq!(WorldSave::default().timestamp, 0);
}

#[test]
fn login_uuid_text_reads_back() {
    for u in [0u128, 1, u128::MAX, 0x069a79f4_44e9_4726_a5be_fca90e38aaf5, 1 << 100] {
        assert_eq!(uuid_bits(&mist::net::packets::uuid_to_text(u)), u);
    }
}

#[test]
fn creative_slots() {
    let mut inv = [None; 46];
    let item = stack(10, 3);
    assert_eq!(set_creative_slot(&mut inv, Gamemode::Survival, 36, item), None);
    assert_eq!(inv[36], None);
    assert_eq!(set_creative_slot(&mut inv, Gamemode::Creative, 36, item), None);
    assert_eq!(inv[36], item);
    assert_eq!(set_creative_slot(&mut inv, Gamemode::Creative, -1, stack(4, 1)), stack(4, 1));
    assert_eq!(inv[36], item);
    assert_eq!(set_creative_slot(&mut inv, Gamemode::Creative, 36, None), None);
    assert_eq!(inv[36], None);
}

#[test]
fn dying_empties_the_inventory() {
    let mut inv = [None; 46];
    inv[0] = stack(1, 1);
    inv[20] = stack(2, 5);
    inv[45] = stack(3, 7);
    let drops = death_drops(&mut inv, 1);
    assert_eq!(drops, vec![ItemStack { item_id: 1, count: 1 }, ItemStack { item_id: 2, count: 5 }]);
    assert!(inv[..45].iter().all(|s| s.is_none()));
    assert_eq!(inv[45], stack(3, 7));

    let mut inv2 = [None; 46];
    inv2[3] = stack(9, 9);
    assert!(death_drops(&mut inv2, 32).is_empty());
    assert_eq!(inv2[3], None);
}

#[test]
fn shaped_recipes_fit_at_an_offset() {
    let table = ShapedRecipe { pattern: [5, 5, 0, 5, 5, 0, 0, 0, 0], width: 2, height: 2, result_id: 58, result_count: 1 };
    assert!(match_2x2_shaped(&[Some(5), Some(5), Some(5), Some(5)], &table));
    assert!(!match_2x2_shaped(&[Some(5), Some(5), Some(5), None], &table));
    let g = [None, None, None, None, Some(5), Some(5), None, Some(5), Some(5)];
    assert!(match_3x3_shaped(&g, &table));
    let g2 = [None, None, None, None, Some(5), Some(5), Some(5), Some(5), None];
    assert!(!match_3x3_shaped(&g2, &table));
}

#[test]
fn faces_and_directions() {
    assert_eq!(face_to_direction(0), "down");
    assert_eq!(face_to_direction(1), "up");
    assert_eq!(face_to_direction(3), "south");
    assert_eq!(face_to_direction(5), "east");
    assert_eq!(face_to_direction(9), "north");
}

#[test]
fn command_replies() {
    assert_eq!(unknown_command_reply("fly"), "\u{a7}cUnknown command: /fly");
    assert_eq!(no_permission_reply(), "\u{a7}cYou do not have permission to use this command.");
}
