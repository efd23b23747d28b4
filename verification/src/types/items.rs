use vstd::prelude::*;

verus! {

/// A stack of `count` items of kind `item_id`.
#[derive(Clone, Copy, Debug, PartialEq, Eq, Structural)]
pub struct ItemStack {
    pub item_id: i32,
    pub count: u8,
}

/// The slot after one of its items is taken: emptied when none is left.
pub open spec fn take_one(s: ItemStack) -> Option<ItemStack> {
    if s.count <= 1 {
        None
    } else {
        Some(ItemStack { item_id: s.item_id, count: (s.count - 1) as u8 })
    }
}

/// A slot that holds a stack holds between 1 and 64 items.
pub open spec fn stack_ok(s: Option<ItemStack>) -> bool {
    s matches Some(st) ==> 1 <= st.count <= 64
}

} // verus!
