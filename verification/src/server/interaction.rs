use vstd::prelude::*;

use crate::text::text_eq;
use crate::types::blocks::axis_of;
use crate::types::items::{take_one, ItemStack};
use crate::types::player::{give_item, give_order, give_over, give_to_slot, stacks_within_limit, Gamemode};
use crate::types::recipes::{check_2x2, check_3x3, crafted, Recipe};
use crate::world::chunks::floor_div16;

verus! {

/// The coordinates a packed block position can hold: 26-bit x and z, 12-bit y.
pub open spec fn position_in_range(p: (i32, i32, i32)) -> bool {
    &&& -0x200_0000 <= p.0 < 0x200_0000
    &&& -0x800 <= p.1 < 0x800
    &&& -0x200_0000 <= p.2 < 0x200_0000
}

/// The block next to `p` across face `face` (0 below, 1 above, 2 north, 3 south, 4 west,
/// 5 east); `p` itself for any other face.
pub open spec fn beside(p: (i32, i32, i32), face: u8) -> (int, int, int) {
    if face == 0 {
        (p.0 as int, p.1 - 1, p.2 as int)
    } else if face == 1 {
        (p.0 as int, p.1 + 1, p.2 as int)
    } else if face == 2 {
        (p.0 as int, p.1 as int, p.2 - 1)
    } else if face == 3 {
        (p.0 as int, p.1 as int, p.2 + 1)
    } else if face == 4 {
        (p.0 - 1, p.1 as int, p.2 as int)
    } else if face == 5 {
        (p.0 + 1, p.1 as int, p.2 as int)
    } else {
        (p.0 as int, p.1 as int, p.2 as int)
    }
}

/// A block placed against a face lies along that face's normal: the axis is "y" for the
/// faces that move the target up or down, "z" for those that move it along z (north,
/// south), and "x" for those that move it along x (west, east).
pub proof fn lemma_axis_is_normal(p: (i32, i32, i32), face: u8)
    requires
        face < 6,
    ensures
        (axis_of(face) == "y"@) <==> beside(p, face).1 != p.1,
        (axis_of(face) == "z"@) <==> beside(p, face).2 != p.2,
        (axis_of(face) == "x"@) <==> beside(p, face).0 != p.0,
{
    reveal_strlit("x");
    reveal_strlit("y");
    reveal_strlit("z");
    assert("x"@ != "y"@ && "x"@ != "z"@ && "y"@ != "z"@) by {
        assert("x"@[0] != "y"@[0] && "x"@[0] != "z"@[0] && "y"@[0] != "z"@[0]);
    }
}

/// Where a block placed against face `face` of the block at `p` goes.
pub fn placement_target(p: (i32, i32, i32), face: u8) -> (r: (i32, i32, i32))
    requires
        position_in_range(p),
    ensures
        (r.0 as int, r.1 as int, r.2 as int) == beside(p, face),
{
    let (mut x, mut y, mut z) = p;
    if face == 0 {
        y = y - 1;
    } else if face == 1 {
        y = y + 1;
    } else if face == 2 {
        z = z - 1;
    } else if face == 3 {
        z = z + 1;
    } else if face == 4 {
        x = x - 1;
    } else if face == 5 {
        x = x + 1;
    }
    (x, y, z)
}

/// The chunk that holds block column (`x`, `z`), and the region that holds that chunk:
/// chunks are 16 blocks wide, regions 32 chunks wide, both counted from 0 down and up.
pub fn chunk_and_region(x: i32, z: i32) -> (r: ((i32, i32), (i32, i32)))
    ensures
        r.0.0 == x / 16,
        r.0.1 == z / 16,
        r.1.0 == r.0.0 / 32,
        r.1.1 == r.0.1 / 32,
{
    let cx = floor_div16(x);
    let cz = floor_div16(z);
    assert((cx >> 5) == cx / 32) by (bit_vector);
    assert((cz >> 5) == cz / 32) by (bit_vector);
    ((cx, cz), (cx >> 5, cz >> 5))
}

/// What a click on a block face does.
#[derive(Clone, Copy, Debug, PartialEq, Eq, Structural)]
pub enum BlockUse {
    OpenCraftingTable,
    OpenChest,
    OpenFurnace,
    Place,
}

/// The default states of the blocks that open a window when clicked.
#[derive(Clone, Copy, Debug)]
pub struct WindowBlocks {
    pub crafting_table: u16,
    pub chest: u16,
    pub furnace: u16,
}

/// What clicking a block does: a player who does not sneak opens the window of a
/// crafting table, chest or furnace in a loaded chunk (the clicked block's default state
/// decides, 0 for a state the registry lacks); anything else places the held block.
pub open spec fn use_of(
    loaded: bool,
    sneaking: bool,
    clicked_default: Option<u16>,
    ids: WindowBlocks,
) -> BlockUse {
    let d = match clicked_default {
        Some(d) => d,
        None => 0,
    };
    if !loaded || sneaking {
        BlockUse::Place
    } else if d == ids.crafting_table {
        BlockUse::OpenCraftingTable
    } else if d == ids.chest {
        BlockUse::OpenChest
    } else if d == ids.furnace {
        BlockUse::OpenFurnace
    } else {
        BlockUse::Place
    }
}

/// Decides what clicking a block does.
pub fn block_use(loaded: bool, sneaking: bool, clicked_default: Option<u16>, ids: &WindowBlocks) -> (r:
    BlockUse)
    ensures
        r == use_of(loaded, sneaking, clicked_default, *ids),
{
    if !loaded || sneaking {
        return BlockUse::Place;
    }
    let d = match clicked_default {
        Some(d) => d,
        None => 0,
    };
    if d == ids.crafting_table {
        BlockUse::OpenCraftingTable
    } else if d == ids.chest {
        BlockUse::OpenChest
    } else if d == ids.furnace {
        BlockUse::OpenFurnace
    } else {
        BlockUse::Place
    }
}

/// The slots of an open chest window: the chest's 27, then the player's main inventory
/// and hotbar (inventory slots 9..45).
pub open spec fn chest_window_of(items: Seq<Option<ItemStack>>, inv: Seq<Option<ItemStack>>) -> Seq<
    Option<ItemStack>,
> {
    items + inv.subrange(9, 45)
}

/// Lays out the slots of an open chest window.
pub fn chest_window(items: &[Option<ItemStack>; 27], inventory: &[Option<ItemStack>; 46]) -> (r: [Option<
    ItemStack,
>; 63])
    ensures
        r@ == chest_window_of(items@, inventory@),
{
    let mut w: [Option<ItemStack>; 63] = [None; 63];
    let mut i: usize = 0;
    while i < 27
        invariant
            i <= 27,
            w@.len() == 63,
            forall|k: int| 0 <= k < i ==> w@[k] == items@[k],
        decreases 27 - i,
    {
        w[i] = items[i];
        i = i + 1;
    }
    let mut j: usize = 9;
    while j <= 44
        invariant
            9 <= j <= 45,
            w@.len() == 63,
            forall|k: int| 0 <= k < 27 ==> w@[k] == items@[k],
            forall|k: int| 9 <= k < j ==> w@[k + 18] == inventory@[k],
        decreases 45 - j,
    {
        w[j + 18] = inventory[j];
        j = j + 1;
    }
    assert(w@ =~= chest_window_of(items@, inventory@)) by {
        assert forall|k: int| 27 <= k < 63 implies w@[k] == chest_window_of(
            items@,
            inventory@,
        )[k] by {
            assert(w@[(k - 18) + 18] == inventory@[k - 18]);
        }
    }
    w
}

/// The slots of an open furnace window: input, fuel and output, then the player's main
/// inventory and hotbar (inventory slots 9..45).
pub open spec fn furnace_window_of(
    input: Option<ItemStack>,
    fuel: Option<ItemStack>,
    output: Option<ItemStack>,
    inv: Seq<Option<ItemStack>>,
) -> Seq<Option<ItemStack>> {
    seq![input, fuel, output] + inv.subrange(9, 45)
}

/// Lays out the slots of an open furnace window.
pub fn furnace_window(
    input: Option<ItemStack>,
    fuel: Option<ItemStack>,
    output: Option<ItemStack>,
    inventory: &[Option<ItemStack>; 46],
) -> (r: [Option<ItemStack>; 39])
    ensures
        r@ == furnace_window_of(input, fuel, output, inventory@),
{
    let mut w: [Option<ItemStack>; 39] = [None; 39];
    w[0] = input;
    w[1] = fuel;
    w[2] = output;
    let mut j: usize = 9;
    while j <= 44
        invariant
            9 <= j <= 45,
            w@.len() == 39,
            w@[0] == input,
            w@[1] == fuel,
            w@[2] == output,
            forall|k: int| 9 <= k < j ==> w@[k - 6] == inventory@[k],
        decreases 45 - j,
    {
        w[j - 6] = inventory[j];
        j = j + 1;
    }
    assert(w@ =~= furnace_window_of(input, fuel, output, inventory@)) by {
        assert forall|k: int| 3 <= k < 39 implies w@[k] == furnace_window_of(
            input,
            fuel,
            output,
            inventory@,
        )[k] by {
            assert(w@[(k + 6) - 6] == inventory@[k + 6]);
        }
    }
    w
}

/// The inventory slot of hotbar slot `current_slot` (0..=8 are the hotbar; 9 is one past
/// it but still a slot of the inventory), if it names one.
pub fn held_slot(current_slot: i16) -> (r: Option<usize>)
    ensures
        0 <= current_slot < 10 ==> r == Some((current_slot + 36) as usize),
        !(0 <= current_slot < 10) ==> r is None,
{
    if 0 <= current_slot && current_slot < 10 {
        Some(current_slot as usize + 36)
    } else {
        None
    }
}

/// Takes one item from inventory slot `slot`, as placing a block from it does.
pub fn consume_one(inventory: &mut [Option<ItemStack>; 46], slot: usize)
    requires
        slot < 46,
        old(inventory)@[slot as int] matches Some(st) && st.count >= 1,
    ensures
        final(inventory)@ == old(inventory)@.update(
            slot as int,
            take_one(old(inventory)@[slot as int]->0),
        ),
{
    let st = inventory[slot].unwrap();
    if st.count - 1 == 0 {
        inventory[slot] = None;
    } else {
        inventory[slot] = Some(ItemStack { item_id: st.item_id, count: st.count - 1 });
    }
}

/// What dropping from a slot leaves in the slot: the whole stack goes, or one item.
pub open spec fn after_drop(s: ItemStack, drop_all: bool) -> Option<ItemStack> {
    if drop_all {
        None
    } else {
        take_one(s)
    }
}

/// Drops the stack held in `slot` (all of it, or one item): gives what is dropped, none
/// when the slot is empty.
pub fn drop_held(inventory: &mut [Option<ItemStack>; 46], slot: usize, drop_all: bool) -> (r: Option<
    ItemStack,
>)
    requires
        slot < 46,
        old(inventory)@[slot as int] matches Some(st) ==> st.count >= 1,
    ensures
        match old(inventory)@[slot as int] {
            None => r is None && final(inventory)@ == old(inventory)@,
            Some(st) => r == Some(
                ItemStack {
                    item_id: st.item_id,
                    count: if drop_all {
                        st.count
                    } else {
                        1
                    },
                },
            ) && final(inventory)@ == old(inventory)@.update(
                slot as int,
                after_drop(st, drop_all),
            ),
        },
{
    match inventory[slot] {
        None => None,
        Some(st) => {
            let count = if drop_all {
                st.count
            } else {
                1
            };
            let left = st.count - count;
            if left == 0 {
                inventory[slot] = None;
            } else {
                inventory[slot] = Some(ItemStack { item_id: st.item_id, count: left });
            }
            Some(ItemStack { item_id: st.item_id, count })
        },
    }
}

/// A creative-mode slot packet applied to the inventory of a player in `gamemode`:
/// ignored outside creative mode; slot -1 leaves the inventory as it is and gives the
/// item to drop; any other slot takes the item.
pub fn set_creative_slot(
    inventory: &mut [Option<ItemStack>; 46],
    gamemode: Gamemode,
    slot: i16,
    item: Option<ItemStack>,
) -> (r: Option<ItemStack>)
    requires
        gamemode == Gamemode::Creative ==> slot == -1 || 0 <= slot < 46,
    ensures
        gamemode != Gamemode::Creative ==> r is None && final(inventory)@ == old(inventory)@,
        gamemode == Gamemode::Creative && slot == -1 ==> r == item && final(inventory)@ == old(
            inventory,
        )@,
        gamemode == Gamemode::Creative && slot != -1 ==> r is None && final(inventory)@ == old(
            inventory,
        )@.update(slot as int, item),
{
    if gamemode != Gamemode::Creative {
        return None;
    }
    if slot == -1 {
        return item;
    }
    inventory[slot as usize] = item;
    None
}

/// The inventory of a player who died: every slot but the off hand (45) emptied.
pub open spec fn emptied_for_death(inv: Seq<Option<ItemStack>>) -> Seq<Option<ItemStack>> {
    Seq::new(46, |i: int| if i < 45 { None } else { inv[i] })
}

/// The items of slots 0..45 that hold one, in slot order.
pub open spec fn held_items(inv: Seq<Option<ItemStack>>, n: int) -> Seq<ItemStack>
    decreases n,
{
    if n <= 0 {
        Seq::empty()
    } else {
        let prev = held_items(inv, n - 1);
        match inv[n - 1] {
            Some(st) => prev.push(st),
            None => prev,
        }
    }
}

/// Empties the inventory of a player who died, but for the off hand, and gives the
/// items to drop around it: those it held, unless the damage came from the void
/// (damage type 32), which takes them with the player.
pub fn death_drops(inventory: &mut [Option<ItemStack>; 46], source_type_id: i32) -> (r: Vec<ItemStack>)
    ensures
        final(inventory)@ == emptied_for_death(old(inventory)@),
        source_type_id != 32 ==> r@ == held_items(old(inventory)@, 45),
        source_type_id == 32 ==> r@.len() == 0,
{
    let ghost before = inventory@;
    let mut drops: Vec<ItemStack> = Vec::new();
    let mut i: usize = 0;
    while i < 45
        invariant
            i <= 45,
            inventory@.len() == 46,
            forall|k: int| 0 <= k < i ==> inventory@[k] is None,
            forall|k: int| i <= k < 46 ==> inventory@[k] == before[k],
            source_type_id != 32 ==> drops@ == held_items(before, i as int),
            source_type_id == 32 ==> drops@.len() == 0,
        decreases 45 - i,
    {
        let taken = inventory[i];
        inventory[i] = None;
        if let Some(item) = taken {
            if source_type_id != 32 {
                drops.push(item);
            }
        }
        i = i + 1;
    }
    assert(inventory@ =~= emptied_for_death(before));
    drops
}

/// A player-action status breaks the block: digging finished, or (in creative mode)
/// digging started.
pub fn breaks_block(status: u32, gamemode: Gamemode) -> (r: bool)
    ensures
        r == ((status == 0 && gamemode == Gamemode::Creative) || status == 2),
{
    (status == 0 && gamemode == Gamemode::Creative) || status == 2
}

/// The player starts eating what it holds: a food it can always eat, or any food while
/// not full (hunger under 20). `always_edible` is the food data's flag, none when the
/// held item is not a food.
pub fn starts_eating(held: Option<ItemStack>, always_edible: Option<bool>, hunger: i32) -> (r: bool)
    ensures
        r == (held is Some && always_edible is Some && (always_edible->0 || hunger < 20)),
{
    match held {
        Some(_) => match always_edible {
            Some(always) => always || hunger < 20,
            None => false,
        },
        None => false,
    }
}

/// The end of eating from `slot`: the item is taken from the slot; if it is a food
/// (`food_hunger` its hunger points) the hunger rises, capped at 20, and the rest of the
/// stack goes back. Gives the new hunger, none when nothing was eaten.
pub fn finish_eating(
    inventory: &mut [Option<ItemStack>; 46],
    slot: usize,
    hunger: i32,
    food_hunger: Option<i32>,
) -> (r: Option<i32>)
    requires
        slot < 46,
        food_hunger matches Some(f) ==> -0x4000_0000 < hunger < 0x4000_0000 && -0x4000_0000 < f
            < 0x4000_0000,
    ensures
        match (old(inventory)@[slot as int], food_hunger) {
            (Some(st), Some(f)) => r == Some(if hunger + f < 20 {
                (hunger + f) as i32
            } else {
                20i32
            }) && final(inventory)@ == old(inventory)@.update(slot as int, take_one(st)),
            _ => r is None && final(inventory)@ == old(inventory)@.update(slot as int, None),
        },
{
    let taken = inventory[slot];
    inventory[slot] = None;
    match taken {
        Some(st) => match food_hunger {
            Some(f) => {
                let h = if hunger + f < 20 {
                    hunger + f
                } else {
                    20
                };
                if st.count > 1 {
                    inventory[slot] = Some(ItemStack { item_id: st.item_id, count: st.count - 1 });
                }
                Some(h)
            },
            None => None,
        },
        None => None,
    }
}

/// Every stack in the slots that receive items holds at most 64 items.
pub open spec fn stacks_capped(inv: Seq<Option<ItemStack>>) -> bool {
    forall|k: int| 9 <= k < 45 && (#[trigger] inv[k]) is Some ==> inv[k]->0.count <= 64
}

/// Handing items out never makes a stack in the receiving slots hold more than 64.
pub proof fn lemma_give_keeps_capped(
    inv: Seq<Option<ItemStack>>,
    order: Seq<int>,
    item_id: i32,
    remaining: int,
)
    requires
        inv.len() == 46,
        stacks_capped(inv),
        forall|k: int| 0 <= k < order.len() ==> 9 <= #[trigger] order[k] < 45,
    ensures
        stacks_capped(give_over(inv, order, item_id, remaining).0),
        give_over(inv, order, item_id, remaining).0.len() == 46,
    decreases order.len(),
{
    if remaining > 0 && order.len() > 0 {
        let (slot, rest) = give_to_slot(inv[order[0]], item_id, remaining);
        let inv2 = inv.update(order[0], slot);
        assert(stacks_capped(inv2)) by {
            assert forall|k: int| 9 <= k < 45 && (#[trigger] inv2[k]) is Some implies inv2[k]->0.count
                <= 64 by {
                if k != order[0] {
                    assert(inv2[k] == inv[k]);
                }
            }
        }
        assert forall|k: int| 0 <= k < order.drop_first().len() implies 9
            <= #[trigger] order.drop_first()[k] < 45 by {
            assert(order.drop_first()[k] == order[k + 1]);
        }
        lemma_give_keeps_capped(inv2, order.drop_first(), item_id, rest);
    }
}

/// Handing out items of kind `item_id` never makes a stack of kind `other` in the
/// receiving slots hold more than 64: stacks of other kinds are left alone.
pub proof fn lemma_give_keeps_within(
    inv: Seq<Option<ItemStack>>,
    order: Seq<int>,
    item_id: i32,
    remaining: int,
    other: i32,
)
    requires
        inv.len() == 46,
        stacks_within_limit(inv, other),
        forall|k: int| 0 <= k < order.len() ==> 9 <= #[trigger] order[k] < 45,
    ensures
        stacks_within_limit(give_over(inv, order, item_id, remaining).0, other),
        give_over(inv, order, item_id, remaining).0.len() == 46,
    decreases order.len(),
{
    if remaining > 0 && order.len() > 0 {
        let (slot, rest) = give_to_slot(inv[order[0]], item_id, remaining);
        let inv2 = inv.update(order[0], slot);
        assert(stacks_within_limit(inv2, other)) by {
            assert forall|k: int|
                9 <= k < 45 && (#[trigger] inv2[k]) is Some && inv2[k]->0.item_id == other
                    implies inv2[k]->0.count <= 64 by {
                if k != order[0] {
                    assert(inv2[k] == inv[k]);
                }
            }
        }
        assert forall|k: int| 0 <= k < order.drop_first().len() implies 9
            <= #[trigger] order.drop_first()[k] < 45 by {
            assert(order.drop_first()[k] == order[k + 1]);
        }
        lemma_give_keeps_within(inv2, order.drop_first(), item_id, rest, other);
    }
}

/// No stack in the receiving slots of a kind that crafting grid slots `from..10` hold
/// has more than 64 items.
pub open spec fn grid_kinds_within(inv: Seq<Option<ItemStack>>, grid: Seq<Option<ItemStack>>, from: int) -> bool {
    forall|i: int|
        from <= i < 10 && (#[trigger] grid[i]) is Some ==> stacks_within_limit(inv, grid[i]->0.item_id)
}

proof fn lemma_give_order_range()
    ensures
        give_order().len() == 36,
        forall|k: int| 0 <= k < give_order().len() ==> 9 <= #[trigger] give_order()[k] < 45,
{
    assert forall|k: int| 0 <= k < give_order().len() implies 9 <= #[trigger] give_order()[k] < 45 by {
        if k < 9 {
            assert(give_order()[k] == 36 + k);
        } else {
            assert(give_order()[k] == 9 + (k - 9));
        }
    }
}

/// The inventory after the items of crafting grid slots `from..10` are handed back, in
/// slot order.
pub open spec fn returned_from(inv: Seq<Option<ItemStack>>, grid: Seq<Option<ItemStack>>, from: int) -> Seq<
    Option<ItemStack>,
>
    decreases 10 - from,
{
    if from >= 10 {
        inv
    } else {
        let inv2 = match grid[from] {
            Some(st) => give_over(inv, give_order(), st.item_id, st.count as int).0,
            None => inv,
        };
        returned_from(inv2, grid, from + 1)
    }
}

/// Closing a crafting table hands the items of its grid (slots 1..=9) back to the
/// player, as `give_item` does, in slot order.
pub fn return_crafting_grid(inventory: &mut [Option<ItemStack>; 46], grid: &[Option<ItemStack>; 10])
    requires
        grid_kinds_within(old(inventory)@, grid@, 1),
    ensures
        final(inventory)@ == returned_from(old(inventory)@, grid@, 1),
        stacks_capped(old(inventory)@) ==> stacks_capped(final(inventory)@),
{
    let mut i: usize = 1;
    proof {
        lemma_give_order_range();
    }
    while i <= 9
        invariant
            1 <= i <= 10,
            inventory@.len() == 46,
            grid_kinds_within(inventory@, grid@, i as int),
            stacks_capped(old(inventory)@) ==> stacks_capped(inventory@),
            returned_from(inventory@, grid@, i as int) == returned_from(old(inventory)@, grid@, 1),
            give_order().len() == 36,
            forall|k: int| 0 <= k < give_order().len() ==> 9 <= #[trigger] give_order()[k] < 45,
        decreases 10 - i,
    {
        if let Some(st) = grid[i] {
            let ghost before = inventory@;
            proof {
                assert(grid@[i as int] is Some);
                if stacks_capped(old(inventory)@) {
                    lemma_give_keeps_capped(before, give_order(), st.item_id, st.count as int);
                }
            }
            give_item(inventory, st.item_id, st.count as i32);
            proof {
                assert forall|j: int| i < j < 10 && (#[trigger] grid@[j]) is Some implies stacks_within_limit(
                    inventory@,
                    grid@[j]->0.item_id,
                ) by {
                    lemma_give_keeps_within(before, give_order(), st.item_id, st.count as int, grid@[j]->0.item_id);
                }
            }
        }
        i = i + 1;
    }
}

/// A slot change the client reports for the window it clicked in.
pub type SlotChange = (i16, Option<ItemStack>);

/// The items of inventory slots 1..5, the player's own 2x2 crafting grid.
pub open spec fn small_grid(inv: Seq<Option<ItemStack>>) -> Seq<Option<i32>> {
    Seq::new(4, |k: int| if inv[k + 1] is Some { Some(inv[k + 1]->0.item_id) } else { None })
}

/// An inventory after the reported changes: those of the player's own window (id 0) to
/// slots 0..46 are taken, in order.
pub open spec fn inventory_changed(inv: Seq<Option<ItemStack>>, window_id: u32, changes: Seq<SlotChange>) -> Seq<
    Option<ItemStack>,
>
    decreases changes.len(),
{
    if changes.len() == 0 {
        inv
    } else {
        let prev = inventory_changed(inv, window_id, changes.drop_last());
        let (slot, item) = changes.last();
        if window_id == 0 && 0 <= slot < 46 {
            prev.update(slot as int, item)
        } else {
            prev
        }
    }
}

/// The crafting result of a 2x2 grid as the result slot holds it.
pub open spec fn result_stack(r: Option<(i32, u8)>) -> Option<ItemStack> {
    match r {
        Some((id, count)) => Some(ItemStack { item_id: id, count }),
        None => None,
    }
}

fn item_ids<const N: usize>(slots: &[Option<ItemStack>], from: usize) -> (r: [Option<i32>; N])
    requires
        from + N <= slots@.len(),
    ensures
        forall|k: int| 0 <= k < N ==> #[trigger] r@[k] == (if slots@[from + k] is Some {
            Some(slots@[from + k]->0.item_id)
        } else {
            None
        }),
{
    let mut r: [Option<i32>; N] = [None; N];
    let mut k: usize = 0;
    let len = slots.len();
    while k < N
        invariant
            k <= N,
            len == slots@.len(),
            from + N <= slots@.len(),
            r@.len() == N,
            forall|j: int| 0 <= j < k ==> #[trigger] r@[j] == (if slots@[from + j] is Some {
                Some(slots@[from + j]->0.item_id)
            } else {
                None
            }),
        decreases N - k,
    {
        r[k] = match slots[from + k] {
            Some(st) => Some(st.item_id),
            None => None,
        };
        k = k + 1;
    }
    r
}

/// A click in the player's own inventory window: the reported slot changes are taken,
/// then the crafting result slot (0) shows what the 2x2 grid (slots 1..5) makes.
pub fn inventory_click(
    inventory: &mut [Option<ItemStack>; 46],
    window_id: u32,
    changes: &[SlotChange],
    recipes: &[Recipe],
)
    ensures
        ({
            let changed = inventory_changed(old(inventory)@, window_id, changes@);
            final(inventory)@ == changed.update(
                0,
                result_stack(crafted(recipes@, small_grid(changed), 2)),
            )
        }),
{
    let mut i: usize = 0;
    assert(changes@.subrange(0, 0) =~= Seq::<SlotChange>::empty());
    while i < changes.len()
        invariant
            i <= changes@.len(),
            inventory@.len() == 46,
            inventory@ == inventory_changed(
                old(inventory)@,
                window_id,
                changes@.subrange(0, i as int),
            ),
        decreases changes@.len() - i,
    {
        assert(changes@.subrange(0, i + 1).drop_last() =~= changes@.subrange(0, i as int));
        let (slot, item) = changes[i];
        if window_id == 0 && 0 <= slot && slot < 46 {
            inventory[slot as usize] = item;
        }
        i = i + 1;
    }
    assert(changes@.subrange(0, i as int) =~= changes@);
    let grid: [Option<i32>; 4] = item_ids(inventory, 1);
    assert(grid@ =~= small_grid(inventory@));
    let result = check_2x2(recipes, &grid);
    inventory[0] = match result {
        Some((id, count)) => Some(ItemStack { item_id: id, count }),
        None => None,
    };
}

/// A crafting table window after the reported changes: slots 0..=9 are its grid (0 the
/// result), slots 10..=45 the player's inventory slots 9..=44.
pub open spec fn table_changed(
    grid: Seq<Option<ItemStack>>,
    inv: Seq<Option<ItemStack>>,
    changes: Seq<SlotChange>,
) -> (Seq<Option<ItemStack>>, Seq<Option<ItemStack>>)
    decreases changes.len(),
{
    if changes.len() == 0 {
        (grid, inv)
    } else {
        let (g, v) = table_changed(grid, inv, changes.drop_last());
        let (slot, item) = changes.last();
        if 0 <= slot <= 9 {
            (g.update(slot as int, item), v)
        } else if 10 <= slot <= 45 {
            (g, v.update(slot - 1, item))
        } else {
            (g, v)
        }
    }
}

/// The items of grid slots 1..10, the crafting table's 3x3 grid.
pub open spec fn table_grid(grid: Seq<Option<ItemStack>>) -> Seq<Option<i32>> {
    Seq::new(9, |k: int| if grid[k + 1] is Some { Some(grid[k + 1]->0.item_id) } else { None })
}

/// A click in an open crafting table: the reported changes are taken, then its result
/// slot (0) shows what the 3x3 grid makes. Gives the new result slot.
pub fn crafting_table_click(
    grid: &mut [Option<ItemStack>; 10],
    inventory: &mut [Option<ItemStack>; 46],
    changes: &[SlotChange],
    recipes: &[Recipe],
) -> (r: Option<ItemStack>)
    ensures
        ({
            let (g, v) = table_changed(old(grid)@, old(inventory)@, changes@);
            &&& final(inventory)@ == v
            &&& final(grid)@ == g.update(0, result_stack(crafted(recipes@, table_grid(g), 3)))
            &&& r == final(grid)@[0]
        }),
{
    let mut i: usize = 0;
    assert(changes@.subrange(0, 0) =~= Seq::<SlotChange>::empty());
    while i < changes.len()
        invariant
            i <= changes@.len(),
            inventory@.len() == 46,
            grid@.len() == 10,
            (grid@, inventory@) == table_changed(
                old(grid)@,
                old(inventory)@,
                changes@.subrange(0, i as int),
            ),
        decreases changes@.len() - i,
    {
        assert(changes@.subrange(0, i + 1).drop_last() =~= changes@.subrange(0, i as int));
        let (slot, item) = changes[i];
        if 0 <= slot && slot <= 9 {
            grid[slot as usize] = item;
        } else if 10 <= slot && slot <= 45 {
            inventory[slot as usize - 1] = item;
        }
        i = i + 1;
    }
    assert(changes@.subrange(0, i as int) =~= changes@);
    let ids: [Option<i32>; 9] = item_ids(grid, 1);
    assert(ids@ =~= table_grid(grid@));
    let result = check_3x3(recipes, &ids);
    grid[0] = match result {
        Some((id, count)) => Some(ItemStack { item_id: id, count }),
        None => None,
    };
    grid[0]
}

/// The texts of a list of strings.
pub open spec fn texts(s: Seq<String>) -> Seq<Seq<char>> {
    s.map_values(|t: String| t@)
}

/// A list of texts without those equal to `u`, the others kept in order.
pub open spec fn without(s: Seq<Seq<char>>, u: Seq<char>) -> Seq<Seq<char>>
    decreases s.len(),
{
    if s.len() == 0 {
        s
    } else if s[0] == u {
        without(s.drop_first(), u)
    } else {
        seq![s[0]] + without(s.drop_first(), u)
    }
}

/// A player stops looking into a chest: its UUID leaves the list of viewers, the other
/// viewers keep their order.
pub fn remove_viewer(viewers: &mut Vec<String>, uuid: &str)
    ensures
        texts(final(viewers)@) == without(texts(old(viewers)@), uuid@),
{
    let mut kept: Vec<String> = Vec::new();
    while viewers.len() > 0
        invariant
            texts(kept@) + without(texts(viewers@), uuid@) == without(texts(old(viewers)@), uuid@),
        decreases viewers@.len(),
    {
        let ghost before = viewers@;
        let v = viewers.remove(0);
        proof {
            assert(texts(viewers@) =~= texts(before).drop_first());
            assert(texts(before)[0] == v@);
        }
        if !text_eq(v.as_str(), uuid) {
            let ghost k0 = kept@;
            kept.push(v);
            proof {
                assert(texts(kept@) =~= texts(k0) + seq![v@]);
            }
        }
    }
    proof {
        assert(without(texts(viewers@), uuid@) =~= Seq::<Seq<char>>::empty());
        assert(texts(kept@) + Seq::<Seq<char>>::empty() =~= texts(kept@));
    }
    *viewers = kept;
}

} // verus!
