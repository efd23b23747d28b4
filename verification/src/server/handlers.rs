use vstd::prelude::*;

use crate::net::codec::CodecError;
use crate::net::packets::{
    container_click_at, creative_slot_body, player_action_at, read_container_click,
    read_container_close, read_player_action, read_set_creative_mode_slot, var_value_at,
    PlayerActionPacket,
};
use crate::server::interaction::{
    after_drop, crafting_table_click, drop_held, inventory_changed, inventory_click,
    result_stack, return_crafting_grid, returned_from, set_creative_slot, small_grid,
    grid_kinds_within, table_changed, table_grid,
};
use crate::net::packets::UseItemOnPacket;
use crate::server::interaction::{
    beside, block_use, consume_one, placement_target, position_in_range, use_of, BlockUse,
    WindowBlocks,
};
use crate::types::block_entities::{
    block_of, default_of, entity_for, get_block_entity, BlockEntityData, EntityBlocks,
};
use crate::types::blocks::{
    block_by_state_id, block_index, compute_overrides, lemma_block_found, lemma_resolved_views,
    lookup_fits, override_views, placement_overrides, placement_state, props_ok, resolve_state,
    Block,
};
use crate::types::items::{take_one, ItemStack};
use crate::world::chunks::{chunk_placed, Chunk};
use crate::types::player::{Gamemode, WindowType};
use crate::types::recipes::{crafted, Recipe};

verus! {

/// A set-creative-mode-slot packet from a player in `gamemode`. Outside creative mode
/// nothing is read and nothing changes. In creative mode slot -1 gives the item to
/// throw, and any other slot takes the item.
pub fn handle_set_creative_mode_slot(
    inventory: &mut [Option<ItemStack>; 46],
    gamemode: Gamemode,
    body: &[u8],
) -> (r: Result<Option<ItemStack>, CodecError>)
    requires
        gamemode == Gamemode::Creative ==> (creative_slot_body(body@) matches Ok((slot, _)) ==> slot
            == -1 || 0 <= slot < 46),
    ensures
        gamemode != Gamemode::Creative ==> r == Ok::<Option<ItemStack>, CodecError>(None)
            && final(inventory)@ == old(inventory)@,
        gamemode == Gamemode::Creative ==> match creative_slot_body(body@) {
            Err(e) => r == Err::<Option<ItemStack>, CodecError>(e) && final(inventory)@ == old(
                inventory,
            )@,
            Ok((slot, item)) => if slot == -1 {
                r == Ok::<Option<ItemStack>, CodecError>(item) && final(inventory)@ == old(
                    inventory,
                )@
            } else {
                r == Ok::<Option<ItemStack>, CodecError>(None) && final(inventory)@ == old(
                    inventory,
                )@.update(slot as int, item)
            },
        },
{
    if gamemode != Gamemode::Creative {
        return Ok(None);
    }
    let (slot, item) = match read_set_creative_mode_slot(body) {
        Ok(v) => v,
        Err(e) => return Err(e),
    };
    Ok(set_creative_slot(inventory, gamemode, slot, item))
}

/// The inventory after a window is closed: a crafting table hands its grid (slots
/// 1..=9) back, in slot order.
pub open spec fn closed_inventory(window: Option<WindowType>, inv: Seq<Option<ItemStack>>) -> Seq<
    Option<ItemStack>,
> {
    match window {
        Some(WindowType::CraftingTable(grid)) => returned_from(inv, grid@, 1),
        None => inv,
    }
}

/// A container-close packet: the window is closed, a crafting table's grid going back
/// to the inventory. Gives the id of the window closed.
pub fn handle_container_close(
    window: &mut Option<WindowType>,
    inventory: &mut [Option<ItemStack>; 46],
    body: &[u8],
) -> (r: Result<u32, CodecError>)
    requires
        *old(window) matches Some(WindowType::CraftingTable(grid)) ==> grid_kinds_within(
            old(inventory)@,
            grid@,
            1,
        ),
    ensures
        r == var_value_at(body@, 0),
        r is Err ==> *final(window) == *old(window) && final(inventory)@ == old(inventory)@,
        r is Ok ==> *final(window) is None && final(inventory)@ == closed_inventory(
            *old(window),
            old(inventory)@,
        ),
{
    let id = match read_container_close(body) {
        Ok(v) => v,
        Err(e) => return Err(e),
    };
    if let Some(WindowType::CraftingTable(grid)) = *window {
        return_crafting_grid(inventory, &grid);
    }
    *window = None;
    Ok(id)
}

/// A container-click packet. With no window open, the player's own inventory takes the
/// changes of window 0 and shows what its 2x2 grid makes, and the cursor holds the item
/// reported; nothing is given back. In a crafting table, the table's grid and the
/// inventory take the changes and the table shows what its 3x3 grid makes; gives that
/// result slot, to send.
pub fn handle_container_click(
    window: &mut Option<WindowType>,
    inventory: &mut [Option<ItemStack>; 46],
    carried: &mut Option<ItemStack>,
    body: &[u8],
    recipes: &[Recipe],
) -> (r: Result<Option<Option<ItemStack>>, CodecError>)
    ensures
        match container_click_at(body@) {
            Err(e) => r == Err::<Option<Option<ItemStack>>, CodecError>(e) && *final(window) == *old(
                window,
            ) && final(inventory)@ == old(inventory)@ && *final(carried) == *old(carried),
            Ok((window_id, changes, cursor)) => match *old(window) {
                None => {
                    let changed = inventory_changed(old(inventory)@, window_id, changes);
                    &&& r == Ok::<Option<Option<ItemStack>>, CodecError>(None)
                    &&& *final(window) is None
                    &&& *final(carried) == cursor
                    &&& final(inventory)@ == changed.update(
                        0,
                        result_stack(crafted(recipes@, small_grid(changed), 2)),
                    )
                },
                Some(WindowType::CraftingTable(grid)) => {
                    let (g, v) = table_changed(grid@, old(inventory)@, changes);
                    let made = g.update(0, result_stack(crafted(recipes@, table_grid(g), 3)));
                    &&& final(inventory)@ == v
                    &&& *final(carried) == *old(carried)
                    &&& (*final(window) matches Some(WindowType::CraftingTable(fg)) && fg@ == made)
                    &&& r == Ok::<Option<Option<ItemStack>>, CodecError>(Some(made[0]))
                },
            },
        },
{
    let click = match read_container_click(body) {
        Ok(c) => c,
        Err(e) => return Err(e),
    };
    match *window {
        None => {
            inventory_click(inventory, click.window_id, click.changes.as_slice(), recipes);
            *carried = click.carried;
            Ok(None)
        },
        Some(WindowType::CraftingTable(grid)) => {
            let mut g = grid;
            let result = crafting_table_click(&mut g, inventory, click.changes.as_slice(), recipes);
            *window = Some(WindowType::CraftingTable(g));
            Ok(Some(result))
        },
    }
}

/// What a player action does beyond the inventory.
#[derive(Clone, Copy, Debug, PartialEq, Eq, Structural)]
pub enum ActionEffect {
    /// The block at (`x`, `y`, `z`) is broken (set to air) and the client's `sequence`
    /// acknowledged; its item drops where `drops` (not in creative mode).
    Break { x: i32, y: i32, z: i32, sequence: u32, drops: bool },
    /// This stack was dropped from the held slot.
    Drop(ItemStack),
    /// Nothing happens.
    Nothing,
}

/// What the action `p` does for a player holding hotbar slot `current_slot` in
/// `gamemode`, and the inventory it leaves.
pub open spec fn action_result(
    p: PlayerActionPacket,
    inv: Seq<Option<ItemStack>>,
    current_slot: i16,
    gamemode: Gamemode,
) -> (ActionEffect, Seq<Option<ItemStack>>) {
    if (p.status == 0 && gamemode == Gamemode::Creative) || p.status == 2 {
        (
            ActionEffect::Break {
                x: p.position.0,
                y: p.position.1,
                z: p.position.2,
                sequence: p.sequence,
                drops: gamemode != Gamemode::Creative,
            },
            inv,
        )
    } else if p.status == 3 || p.status == 4 {
        let slot = current_slot + 36;
        let all = p.status == 3;
        match inv[slot] {
            None => (ActionEffect::Nothing, inv),
            Some(st) => (
                ActionEffect::Drop(
                    ItemStack {
                        item_id: st.item_id,
                        count: if all {
                            st.count
                        } else {
                            1
                        },
                    },
                ),
                inv.update(slot, after_drop(st, all)),
            ),
        }
    } else {
        (ActionEffect::Nothing, inv)
    }
}

/// A player-action packet: finished digging (or started it in creative mode) breaks the
/// block; dropping takes the held stack, or one item of it, out of the held slot.
pub fn handle_player_action(
    inventory: &mut [Option<ItemStack>; 46],
    current_slot: i16,
    gamemode: Gamemode,
    body: &[u8],
) -> (r: Result<ActionEffect, CodecError>)
    requires
        player_action_at(body@) matches Ok(p) && (p.status == 3 || p.status == 4) ==> 0
            <= current_slot < 10 && (old(inventory)@[current_slot + 36] matches Some(st)
            ==> st.count >= 1),
    ensures
        match player_action_at(body@) {
            Err(e) => r == Err::<ActionEffect, CodecError>(e) && final(inventory)@ == old(
                inventory,
            )@,
            Ok(p) => {
                let (effect, inv) = action_result(p, old(inventory)@, current_slot, gamemode);
                r == Ok::<ActionEffect, CodecError>(effect) && final(inventory)@ == inv
            },
        },
{
    let p = match read_player_action(body) {
        Ok(p) => p,
        Err(e) => return Err(e),
    };
    if (p.status == 0 && gamemode == Gamemode::Creative) || p.status == 2 {
        return Ok(
            ActionEffect::Break {
                x: p.position.0,
                y: p.position.1,
                z: p.position.2,
                sequence: p.sequence,
                drops: gamemode != Gamemode::Creative,
            },
        );
    }
    if p.status == 3 || p.status == 4 {
        let slot = (current_slot + 36) as usize;
        return match drop_held(inventory, slot, p.status == 3) {
            Some(st) => Ok(ActionEffect::Drop(st)),
            None => Ok(ActionEffect::Nothing),
        };
    }
    Ok(ActionEffect::Nothing)
}

/// The block the item `item` places: the block of the first entry of `table` for that
/// item.
pub open spec fn item_block_of(table: Seq<(i32, u16)>, item: i32) -> Option<u16>
    decreases table.len(),
{
    if table.len() == 0 {
        None
    } else if table[0].0 == item {
        Some(table[0].1)
    } else {
        item_block_of(table.drop_first(), item)
    }
}

/// Looks up the block the item `item` places.
pub fn find_item_block(table: &[(i32, u16)], item: i32) -> (r: Option<u16>)
    ensures
        r == item_block_of(table@, item),
{
    let mut i: usize = 0;
    assert(table@.subrange(0, table@.len() as int) =~= table@);
    while i < table.len()
        invariant
            i <= table@.len(),
            item_block_of(table@, item) == item_block_of(
                table@.subrange(i as int, table@.len() as int),
                item,
            ),
        decreases table@.len() - i,
    {
        let ghost rest = table@.subrange(i as int, table@.len() as int);
        assert(rest[0] == table@[i as int]);
        assert(rest.drop_first() =~= table@.subrange(i + 1, table@.len() as int));
        if table[i].0 == item {
            return Some(table[i].1);
        }
        i = i + 1;
    }
    None
}

/// The stack in hotbar slot `current_slot`, none when the slot names no inventory slot.
pub open spec fn held_of(inv: Seq<Option<ItemStack>>, current_slot: i16) -> Option<ItemStack> {
    if 0 <= current_slot < 10 {
        inv[current_slot + 36]
    } else {
        None
    }
}

/// Where the block placed against the packet's face goes.
pub open spec fn target_of(p: UseItemOnPacket) -> (i32, i32, i32) {
    let t = beside(p.position, p.face);
    (t.0 as i32, t.1 as i32, t.2 as int as i32)
}

/// The default state of the block read at the clicked block's column offsets and height
/// in `chunk`, if the registry has it.
pub open spec fn clicked_default(blocks: Seq<Block>, chunk: Chunk, p: UseItemOnPacket) -> Option<u16> {
    default_of(
        blocks,
        chunk.block_at((p.position.0 & 15) as int, p.position.1 as int, (p.position.2 & 15) as int),
    )
}

/// What a click does, as `block_use` decides it.
pub open spec fn click_use(
    blocks: Seq<Block>,
    chunk: Chunk,
    p: UseItemOnPacket,
    sneaking: bool,
    windows: WindowBlocks,
) -> BlockUse {
    use_of(true, sneaking, clicked_default(blocks, chunk, p), windows)
}

/// The block with state `b` can be placed: the registry has it, its properties are
/// sound, and its placed state is a `u16` the registry can look up.
pub open spec fn placeable(blocks: Seq<Block>, b: u16, face: u8, facing: Seq<char>) -> bool {
    let blk = block_of(blocks, b);
    &&& lookup_fits(blocks, b as int)
    &&& block_index(blocks, b as int) >= 0
    &&& blk.default_state >= blk.min_state_id
    &&& props_ok(blk)
    &&& placement_state(blk, face, facing) <= u16::MAX
    &&& lookup_fits(blocks, placement_state(blk, face, facing) as u16 as int)
}

/// The state placed for the block with state `b`.
pub open spec fn placed_state_of(blocks: Seq<Block>, b: u16, face: u8, facing: Seq<char>) -> u16 {
    placement_state(block_of(blocks, b), face, facing) as u16
}

/// What clicking a block does.
pub enum UseEffect {
    /// A crafting table's window opened.
    OpenCraftingTable,
    /// The clicked block is a chest: its window is to open.
    OpenChest,
    /// The clicked block is a furnace: its window is to open.
    OpenFurnace,
    /// A block was placed in `state` at the target, getting the block entity `entity`.
    Placed { state: u16, entity: Option<BlockEntityData> },
    /// Nothing happens.
    Nothing,
}

/// A use-item-on packet `p` from a player holding hotbar slot `current_slot` and
/// facing `facing`, `chunk` being the chunk that holds the target block. A player who
/// does not sneak and clicks a crafting table, chest or furnace opens its window (a
/// crafting table's at once, with the next window id); otherwise the held item's block
/// is placed at the target in the state its placement gives, outside creative mode
/// taking one item from the held stack.
pub fn handle_use_item_on(
    p: &UseItemOnPacket,
    chunk: &mut Chunk,
    inventory: &mut [Option<ItemStack>; 46],
    window: &mut Option<WindowType>,
    window_id: &mut i32,
    current_slot: i16,
    gamemode: Gamemode,
    sneaking: bool,
    facing: &'static str,
    blocks: &[Block],
    item_blocks: &[(i32, u16)],
    windows: &WindowBlocks,
    kinds: &EntityBlocks,
) -> (r: UseEffect)
    requires
        old(chunk).wf(),
        position_in_range(p.position),
        old(chunk).x == target_of(*p).0 / 16,
        old(chunk).z == target_of(*p).2 / 16,
        !sneaking ==> lookup_fits(
            blocks@,
            old(chunk).block_at(
                (p.position.0 & 15) as int,
                p.position.1 as int,
                (p.position.2 & 15) as int,
            ) as int,
        ),
        click_use(blocks@, *old(chunk), *p, sneaking, *windows) == BlockUse::OpenCraftingTable
            ==> *old(window_id) < i32::MAX,
        click_use(blocks@, *old(chunk), *p, sneaking, *windows) == BlockUse::Place ==> (
        held_of(old(inventory)@, current_slot) matches Some(st) ==> (item_block_of(
            item_blocks@,
            st.item_id,
        ) matches Some(b) ==> {
            &&& placeable(blocks@, b, p.face, facing@)
            &&& old(chunk).settable(
                (target_of(*p).0 & 15) as int,
                target_of(*p).1 as int,
                (target_of(*p).2 & 15) as int,
                placed_state_of(blocks@, b, p.face, facing@),
            )
            &&& gamemode != Gamemode::Creative ==> st.count >= 1
        })),
    ensures
        ({
            let u = click_use(blocks@, *old(chunk), *p, sneaking, *windows);
            let t = target_of(*p);
            if u == BlockUse::OpenCraftingTable {
                &&& r is OpenCraftingTable
                &&& *final(window_id) == *old(window_id) + 1
                &&& *final(window) matches Some(WindowType::CraftingTable(g))
                &&& g@ == Seq::new(10, |i: int| None::<ItemStack>)
                &&& final(inventory)@ == old(inventory)@
                &&& *final(chunk) == *old(chunk)
            } else if u == BlockUse::OpenChest || u == BlockUse::OpenFurnace {
                &&& (if u == BlockUse::OpenChest { r is OpenChest } else { r is OpenFurnace })
                &&& *final(window_id) == *old(window_id)
                &&& *final(window) == *old(window)
                &&& final(inventory)@ == old(inventory)@
                &&& *final(chunk) == *old(chunk)
            } else {
                &&& *final(window_id) == *old(window_id)
                &&& *final(window) == *old(window)
                &&& match held_of(old(inventory)@, current_slot) {
                    None => r is Nothing && final(inventory)@ == old(inventory)@ && *final(chunk)
                        == *old(chunk),
                    Some(st) => match item_block_of(item_blocks@, st.item_id) {
                        None => r is Nothing && final(inventory)@ == old(inventory)@
                            && *final(chunk) == *old(chunk),
                        Some(b) => {
                            let state = placed_state_of(blocks@, b, p.face, facing@);
                            &&& r matches UseEffect::Placed { state: s, entity }
                            &&& s == state
                            &&& entity_for(blocks@, *kinds, state, entity)
                            &&& final(chunk).wf()
                            &&& chunk_placed(
                                *old(chunk),
                                *final(chunk),
                                (t.0 & 15) as int,
                                t.1 as int,
                                (t.2 & 15) as int,
                                state,
                            )
                            &&& final(inventory)@ == if gamemode != Gamemode::Creative {
                                old(inventory)@.update(current_slot + 36, take_one(st))
                            } else {
                                old(inventory)@
                            }
                        },
                    },
                }
            }
        }),
{
    let (x, y, z) = p.position;
    assert(0 <= (x & 15) < 16 && 0 <= (z & 15) < 16) by (bit_vector);
    let default = if sneaking {
        None
    } else {
        proof { chunk.lemma_reads_within(((x & 15) as u8) as int, y as int, ((z & 15) as u8) as int); }
        let clicked = chunk.get_block((x & 15) as u8, y, (z & 15) as u8);
        match block_by_state_id(blocks, clicked) {
            Some(b) => Some(b.default_state),
            None => None,
        }
    };
    proof {
        if !sneaking {
            let s = chunk.block_at((x & 15) as int, y as int, (z & 15) as int);
            lemma_block_found(blocks@, s as int);
            assert(default == clicked_default(blocks@, *chunk, *p));
        }
    }
    let decided = block_use(true, sneaking, default, windows);
    assert(decided == click_use(blocks@, *chunk, *p, sneaking, *windows));
    match decided {
        BlockUse::OpenCraftingTable => {
            *window_id = *window_id + 1;
            *window = Some(WindowType::CraftingTable([None; 10]));
            assert(window->0->0@ =~= Seq::new(10, |i: int| None::<ItemStack>));
            return UseEffect::OpenCraftingTable;
        },
        BlockUse::OpenChest => {
            return UseEffect::OpenChest;
        },
        BlockUse::OpenFurnace => {
            return UseEffect::OpenFurnace;
        },
        BlockUse::Place => {},
    }
    if !(0 <= current_slot && current_slot < 10) {
        return UseEffect::Nothing;
    }
    let slot = (current_slot + 36) as usize;
    let st = match inventory[slot] {
        Some(st) => st,
        None => return UseEffect::Nothing,
    };
    let b = match find_item_block(item_blocks, st.item_id) {
        Some(b) => b,
        None => return UseEffect::Nothing,
    };
    proof {
        lemma_block_found(blocks@, b as int);
    }
    let block = block_by_state_id(blocks, b).unwrap();
    let overrides = compute_overrides(block, p.face, facing);
    proof {
        let chosen = choose|o: Seq<(&'static str, &'static str)>|
            override_views(o) == placement_overrides(*block, p.face, facing@);
        assert(override_views(chosen) == placement_overrides(*block, p.face, facing@));
        lemma_resolved_views(*block, block.default_state as int, overrides@, chosen);
    }
    let state = resolve_state(block, overrides);
    let (tx, ty, tz) = placement_target(p.position, p.face);
    assert(0 <= (tx & 15) < 16 && 0 <= (tz & 15) < 16) by (bit_vector);
    assert((tx, ty, tz) == target_of(*p));
    chunk.set_block((tx & 15) as u8, ty, (tz & 15) as u8, state);
    let entity = get_block_entity(blocks, kinds, state);
    if gamemode != Gamemode::Creative {
        consume_one(inventory, slot);
    }
    UseEffect::Placed { state, entity }
}

} // verus!
