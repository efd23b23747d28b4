use vstd::prelude::*;

use crate::types::items::ItemStack;

verus! {

/// What the movement keys of a player hold down.
#[derive(Clone, Copy, Debug, PartialEq, Eq, Structural)]
pub struct PlayerMovement {
    pub forward: bool,
    pub backward: bool,
    pub left: bool,
    pub right: bool,
    pub jumping: bool,
    pub sneaking: bool,
    pub sprinting: bool,
}

/// The movement keys encoded in the flags byte of a player-input packet: bit 0 forward,
/// 1 backward, 2 left, 3 right, 4 jump, 5 sneak, 6 sprint.
pub open spec fn movement_of(flags: u8) -> PlayerMovement {
    PlayerMovement {
        forward: flags & 0x01 != 0,
        backward: flags & 0x02 != 0,
        left: flags & 0x04 != 0,
        right: flags & 0x08 != 0,
        jumping: flags & 0x10 != 0,
        sneaking: flags & 0x20 != 0,
        sprinting: flags & 0x40 != 0,
    }
}

/// Each movement key is its own bit of the flags byte, as the protocol numbers them:
/// forward 0x01, backward 0x02, left 0x04, right 0x08, jump 0x10, sneak 0x20, sprint 0x40.
/// So a byte with a single key's bit set holds that key alone, and the top bit counts
/// for nothing.
pub proof fn lemma_movement_bits(flags: u8)
    ensures
        movement_of(flags).forward <==> flags & 0x01 != 0,
        movement_of(flags).backward <==> flags & 0x02 != 0,
        movement_of(flags).left <==> flags & 0x04 != 0,
        movement_of(flags).right <==> flags & 0x08 != 0,
        movement_of(flags).jumping <==> flags & 0x10 != 0,
        movement_of(flags).sneaking <==> flags & 0x20 != 0,
        movement_of(flags).sprinting <==> flags & 0x40 != 0,
        movement_of(flags) == movement_of(flags & 0x7f),
{
    assert((flags & 0x7f) & 0x01 == flags & 0x01 && (flags & 0x7f) & 0x02 == flags & 0x02 && (flags
        & 0x7f) & 0x04 == flags & 0x04 && (flags & 0x7f) & 0x08 == flags & 0x08 && (flags & 0x7f)
        & 0x10 == flags & 0x10 && (flags & 0x7f) & 0x20 == flags & 0x20 && (flags & 0x7f) & 0x40
        == flags & 0x40) by (bit_vector);
}

/// Decodes the flags byte of a player-input packet.
pub fn movement_from_flags(flags: u8) -> (r: PlayerMovement)
    ensures
        r == movement_of(flags),
        r.forward == (flags & 0x01 != 0),
        r.backward == (flags & 0x02 != 0),
        r.left == (flags & 0x04 != 0),
        r.right == (flags & 0x08 != 0),
        r.jumping == (flags & 0x10 != 0),
        r.sneaking == (flags & 0x20 != 0),
        r.sprinting == (flags & 0x40 != 0),
{
    PlayerMovement {
        forward: flags & 0x01 != 0,
        backward: flags & 0x02 != 0,
        left: flags & 0x04 != 0,
        right: flags & 0x08 != 0,
        jumping: flags & 0x10 != 0,
        sneaking: flags & 0x20 != 0,
        sprinting: flags & 0x40 != 0,
    }
}

/// A game mode as the protocol numbers it.
#[derive(Clone, Copy, Debug, PartialEq, Eq, Structural, Default)]
pub enum Gamemode {
    #[default]
    Survival,
    Creative,
    Adventure,
    Spectator,
}

/// A container window a player has open.
#[derive(Clone, Copy)]
pub enum WindowType {
    CraftingTable([Option<ItemStack>; 10]),
}

/// Whether a survival player keeps sprinting this tick: not once its hunger is under 6.
pub fn survival_sprint(sprinting: bool, hunger: i32) -> (r: bool)
    ensures
        r == (sprinting && hunger >= 6),
{
    sprinting && hunger >= 6
}

/// The regeneration and starvation timers of a survival player after one tick: each
/// counts up by one and stops at 80.
pub fn survival_timers(regen: u32, starvation: u32) -> (r: (u32, u32))
    requires
        regen < u32::MAX,
        starvation < u32::MAX,
    ensures
        r.0 == (if regen + 1 < 80 {
            regen + 1
        } else {
            80
        }),
        r.1 == (if starvation + 1 < 80 {
            starvation + 1
        } else {
            80
        }),
{
    let a = if regen + 1 < 80 {
        regen + 1
    } else {
        80
    };
    let b = if starvation + 1 < 80 {
        starvation + 1
    } else {
        80
    };
    (a, b)
}

/// A saved inventory put back into the 46 slots: as it was when it has exactly 46
/// slots, empty otherwise.
pub fn inventory_from_save(saved: Vec<Option<ItemStack>>) -> (r: [Option<ItemStack>; 46])
    ensures
        saved@.len() == 46 ==> r@ == saved@,
        saved@.len() != 46 ==> forall|i: int| 0 <= i < 46 ==> (#[trigger] r@[i]) is None,
{
    let mut inv: [Option<ItemStack>; 46] = [None; 46];
    if saved.len() != 46 {
        return inv;
    }
    let mut i: usize = 0;
    while i < 46
        invariant
            i <= 46,
            saved@.len() == 46,
            inv@.len() == 46,
            forall|k: int| 0 <= k < i ==> inv@[k] == saved@[k],
        decreases 46 - i,
    {
        inv[i] = saved[i];
        i = i + 1;
    }
    assert(inv@ =~= saved@);
    inv
}

/// What a new player starts with: a stack of 64 of each of the three given items in the
/// first three hotbar slots (36, 37, 38), nothing else.
pub fn starter_inventory(first: i32, second: i32, third: i32) -> (r: [Option<ItemStack>; 46])
    ensures
        r@[36] == Some(ItemStack { item_id: first, count: 64 }),
        r@[37] == Some(ItemStack { item_id: second, count: 64 }),
        r@[38] == Some(ItemStack { item_id: third, count: 64 }),
        forall|i: int| 0 <= i < 46 && i != 36 && i != 37 && i != 38 ==> (#[trigger] r@[i]) is None,
{
    let mut inv: [Option<ItemStack>; 46] = [None; 46];
    inv[36] = Some(ItemStack { item_id: first, count: 64 });
    inv[37] = Some(ItemStack { item_id: second, count: 64 });
    inv[38] = Some(ItemStack { item_id: third, count: 64 });
    inv
}

/// The number of slots of a player's inventory window.
pub const INVENTORY_SLOTS: usize = 46;

/// The slots that items given to a player go to, in order: the hotbar (36..45), then the
/// main inventory (9..36).
pub open spec fn give_order() -> Seq<int> {
    Seq::new(9, |i: int| 36 + i) + Seq::new(27, |i: int| 9 + i)
}

/// One slot's share of a gift of `remaining` items of kind `item_id`: an empty slot takes
/// up to 64, a stack of the same kind is filled up to 64, any other stack takes none.
/// Gives the slot's new content and what is left to give.
pub open spec fn give_to_slot(slot: Option<ItemStack>, item_id: i32, remaining: int) -> (
    Option<ItemStack>,
    int,
) {
    match slot {
        Some(st) => if st.item_id == item_id {
            let to_add = if 64 - st.count < remaining {
                64 - st.count
            } else {
                remaining
            };
            (Some(ItemStack { item_id, count: (st.count + to_add) as u8 }), remaining - to_add)
        } else {
            (slot, remaining)
        },
        None => {
            let to_add = if 64 < remaining {
                64
            } else {
                remaining
            };
            (Some(ItemStack { item_id, count: to_add as u8 }), remaining - to_add)
        },
    }
}

/// The inventory and the count left over once `remaining` items of kind `item_id` are
/// handed out over the slots of `order`, in turn, until none are left.
pub open spec fn give_over(
    inv: Seq<Option<ItemStack>>,
    order: Seq<int>,
    item_id: i32,
    remaining: int,
) -> (Seq<Option<ItemStack>>, int)
    decreases order.len(),
{
    if remaining <= 0 || order.len() == 0 {
        (inv, remaining)
    } else {
        let (slot, rest) = give_to_slot(inv[order[0]], item_id, remaining);
        give_over(inv.update(order[0], slot), order.drop_first(), item_id, rest)
    }
}

/// No stack of kind `item_id` in the slots that receive items holds more than 64.
pub open spec fn stacks_within_limit(inv: Seq<Option<ItemStack>>, item_id: i32) -> bool {
    forall|k: int|
        9 <= k < 45 && (#[trigger] inv[k]) is Some && inv[k]->0.item_id == item_id
            ==> inv[k]->0.count <= 64
}

proof fn lemma_give_over_step(
    inv: Seq<Option<ItemStack>>,
    order: Seq<int>,
    item_id: i32,
    remaining: int,
    k: int,
)
    requires
        0 <= k < order.len(),
        remaining > 0,
    ensures
        give_over(inv, order.subrange(k, order.len() as int), item_id, remaining) == give_over(
            inv.update(order[k], give_to_slot(inv[order[k]], item_id, remaining).0),
            order.subrange(k + 1, order.len() as int),
            item_id,
            give_to_slot(inv[order[k]], item_id, remaining).1,
        ),
{
    let s = order.subrange(k, order.len() as int);
    assert(s[0] == order[k]);
    assert(s.drop_first() =~= order.subrange(k + 1, order.len() as int));
}

/// Hands `count` items of kind `item_id` to an inventory: first filling the hotbar
/// (slots 36..45), then the main inventory (slots 9..36), each slot topping a stack of
/// the same kind up to 64 or starting a new stack of up to 64 in an empty slot; what does
/// not fit is dropped.
pub fn give_item(inventory: &mut [Option<ItemStack>; 46], item_id: i32, count: i32)
    requires
        stacks_within_limit(old(inventory)@, item_id),
    ensures
        final(inventory)@ == give_over(old(inventory)@, give_order(), item_id, count as int).0,
{
    let ghost order = give_order();
    let ghost inv0 = inventory@;
    let mut remaining = count;
    let mut k: usize = 0;
    assert(order.subrange(0, order.len() as int) =~= order);
    while k < 36 && remaining > 0
        invariant
            k <= 36,
            order == give_order(),
            order.len() == 36,
            give_over(inv0, order, item_id, count as int) == give_over(
                inventory@,
                order.subrange(k as int, 36),
                item_id,
                remaining as int,
            ),
            stacks_within_limit(inventory@, item_id),
            inventory@.len() == 46,
        decreases 36 - k,
    {
        let slot: usize = if k < 9 {
            36 + k
        } else {
            9 + (k - 9)
        };
        assert(order[k as int] == slot);
        let ghost inv_before = inventory@;
        let ghost rem_before = remaining as int;
        proof {
            lemma_give_over_step(inventory@, order, item_id, remaining as int, k as int);
        }
        match inventory[slot] {
            Some(item_stack) => {
                if item_stack.item_id == item_id {
                    let space = 64 - item_stack.count as i32;
                    let to_add = if space < remaining {
                        space
                    } else {
                        remaining
                    };
                    assert(0 <= to_add <= 64 - item_stack.count);
                    inventory[slot] = Some(
                        ItemStack { item_id, count: item_stack.count + to_add as u8 },
                    );
                    remaining = remaining - to_add;
                }
            },
            None => {
                let to_add = if 64 < remaining {
                    64
                } else {
                    remaining
                };
                inventory[slot] = Some(ItemStack { item_id, count: to_add as u8 });
                remaining = remaining - to_add;
            },
        }
        assert(inventory@ =~= inv_before.update(
            slot as int,
            give_to_slot(inv_before[slot as int], item_id, rem_before).0,
        ));
        assert(remaining as int == give_to_slot(inv_before[slot as int], item_id, rem_before).1);
        k = k + 1;
    }
    assert(order.subrange(k as int, 36).len() == 0 || remaining <= 0);
}

} // verus!
