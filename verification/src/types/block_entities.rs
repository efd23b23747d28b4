use vstd::prelude::*;

use crate::net::codec::WriteError;
use crate::text::text_eq;
use crate::types::blocks::{
    block_by_state_id, block_index, lemma_block_found, lookup_fits, props_ok, resolve_from,
    resolved_from, Block,
};
use crate::world::chunks::{chunk_placed, lemma_chunk_set_get, section_index, section_slot, Chunk};
use crate::types::items::{stack_ok, take_one, ItemStack};

verus! {

/// Which cooking block a furnace entity belongs to; each has its own recipes.
#[derive(Clone, Copy, Debug, PartialEq, Eq, Structural)]
pub enum FurnaceType {
    Furnace,
    BlastFurnace,
    Smoker,
}

/// The state kept for a block that holds more than its block state: a chest's items and
/// who looks into it, or a furnace's slots and timers.
#[derive(Clone, Debug)]
pub enum BlockEntityData {
    Chest { items: [Option<ItemStack>; 27], viewers: Vec<String> },
    Furnace {
        furnace_type: FurnaceType,
        input: Option<ItemStack>,
        fuel: Option<ItemStack>,
        output: Option<ItemStack>,
        currently_cooking: Option<ItemStack>,
        lit_left: u32,
        lit_total: u32,
        cook_left: u32,
        lit_total_last: u32,
        properties_changed: bool,
        slots_changed: bool,
        was_lit: bool,
    },
}

/// The default states of the blocks that carry a block entity.
#[derive(Clone, Copy, Debug)]
pub struct EntityBlocks {
    pub furnace: u16,
    pub blast_furnace: u16,
    pub smoker: u16,
    pub chest: u16,
}

/// The items that burn for a fixed time whatever their tags.
#[derive(Clone, Copy, Debug)]
pub struct FuelItems {
    pub lava_bucket: i32,
    pub coal_block: i32,
    pub dried_kelp_block: i32,
    pub blaze_rod: i32,
    pub coal: i32,
    pub charcoal: i32,
}

/// A registry's tags: for each registry name, its tags and the ids each tag holds.
pub type TagTable<'a> = &'a [(&'a str, &'a [(&'a str, &'a [i32])])];

/// The recipes (input item, result item) of the three cooking blocks, and what burns.
pub struct CookingTables<'a> {
    pub smelting: &'a [(i32, i32)],
    pub blasting: &'a [(i32, i32)],
    pub smoking: &'a [(i32, i32)],
    pub fuels: FuelItems,
    pub tags: TagTable<'a>,
}

/// The bytes of an NBT compound that holds one string entry, `key` set to `value`.
pub uninterp spec fn nbt_string_compound(key: Seq<char>, value: Seq<char>) -> Seq<u8>;

/// Serializes an NBT compound of one string entry through `craftflow_nbt::to_writer`.
/// Its source fails only when the writer does (strings of any length are written, their
/// length cut to 16 bits) or on a kind of value other than these; a `Vec<u8>` takes
/// every write. Claims that the call succeeds and appends exactly the compound's bytes,
/// which depend on the key and the value alone.
#[verifier::external_body]
fn write_string_compound(w: &mut Vec<u8>, key: &str, value: &str) -> (r: Result<(), WriteError>)
    ensures
        r is Ok,
        final(w)@ == old(w)@ + nbt_string_compound(key@, value@),
{
    let compound = craftflow_nbt::DynNBT::Compound(
        std::collections::HashMap::from([(key.to_string(), craftflow_nbt::DynNBT::String(value.to_string()))]),
    );
    match craftflow_nbt::to_writer(&mut *w, &compound) {
        Ok(_) => Ok(()),
        Err(_) => Err(WriteError::Io),
    }
}

/// The id of the block entity's kind in the registry.
pub open spec fn entity_name(e: BlockEntityData) -> Seq<char> {
    match e {
        BlockEntityData::Chest { .. } => "minecraft:chest"@,
        BlockEntityData::Furnace { furnace_type, .. } => match furnace_type {
            FurnaceType::Furnace => "minecraft:furnace"@,
            FurnaceType::BlastFurnace => "minecraft:blast_furnace"@,
            FurnaceType::Smoker => "minecraft:smoker"@,
        },
    }
}

impl BlockEntityData {
    /// Appends the entity's NBT: a compound whose `id` names its kind.
    pub fn write_nbt(&self, w: &mut Vec<u8>) -> (r: Result<(), WriteError>)
        ensures
            r is Ok,
            final(w)@ == old(w)@ + nbt_string_compound("id"@, entity_name(*self)),
    {
        let id = match self {
            BlockEntityData::Furnace { furnace_type, .. } => match furnace_type {
                FurnaceType::Furnace => "minecraft:furnace",
                FurnaceType::BlastFurnace => "minecraft:blast_furnace",
                FurnaceType::Smoker => "minecraft:smoker",
            },
            BlockEntityData::Chest { .. } => "minecraft:chest",
        };
        write_string_compound(w, "id", id)
    }

    /// The id the protocol gives this kind of block entity.
    pub fn type_id(&self) -> (r: i32)
        ensures
            r == (if self is Furnace {
                0i32
            } else {
                1i32
            }),
    {
        match self {
            BlockEntityData::Furnace { .. } => 0,
            BlockEntityData::Chest { .. } => 1,
        }
    }
}

/// A furnace entity of type `t` that holds nothing and has not burnt yet, its cooking
/// timer at `cook`.
pub open spec fn fresh_furnace(e: BlockEntityData, t: FurnaceType, cook: u32) -> bool {
    e == BlockEntityData::Furnace {
        furnace_type: t,
        input: None,
        fuel: None,
        output: None,
        currently_cooking: None,
        lit_left: 0,
        lit_total: 0,
        cook_left: cook,
        lit_total_last: 0,
        properties_changed: false,
        slots_changed: false,
        was_lit: false,
    }
}

/// An empty chest entity that nobody looks into.
pub open spec fn fresh_chest(e: BlockEntityData) -> bool {
    &&& e is Chest
    &&& forall|i: int| 0 <= i < 27 ==> (#[trigger] e->items[i]) is None
    &&& e->viewers@.len() == 0
}

/// The cooking time a fresh furnace of type `t` starts with: 200 ticks for a furnace,
/// 100 for the others.
pub open spec fn cook_time(t: FurnaceType) -> u32 {
    if t is Furnace {
        200
    } else {
        100
    }
}

/// The default state of the block whose state is `block_id`, if the registry has it.
pub open spec fn default_of(blocks: Seq<Block>, block_id: u16) -> Option<u16> {
    let k = block_index(blocks, block_id as int);
    if 0 <= k < blocks.len() {
        Some(blocks[k].default_state)
    } else {
        None
    }
}

/// `r` is the block entity that a block placed in state `block_id` gets: a fresh furnace
/// of the right kind for the three furnaces, an empty chest with no viewers for a chest,
/// none for any other block.
pub open spec fn entity_for(blocks: Seq<Block>, ids: EntityBlocks, block_id: u16, r: Option<BlockEntityData>) -> bool {
    let d = default_of(blocks, block_id);
    if d == Some(ids.furnace) {
        r is Some && fresh_furnace(r->0, FurnaceType::Furnace, 200)
    } else if d == Some(ids.blast_furnace) {
        r is Some && fresh_furnace(r->0, FurnaceType::BlastFurnace, 100)
    } else if d == Some(ids.smoker) {
        r is Some && fresh_furnace(r->0, FurnaceType::Smoker, 100)
    } else if d == Some(ids.chest) {
        r is Some && fresh_chest(r->0)
    } else {
        r is None
    }
}

/// The block entity that a block placed in state `block_id` gets, if any.
pub fn get_block_entity(blocks: &[Block], ids: &EntityBlocks, block_id: u16) -> (r: Option<
    BlockEntityData,
>)
    requires
        lookup_fits(blocks@, block_id as int),
    ensures
        entity_for(blocks@, *ids, block_id, r),
{
    proof {
        lemma_block_index_bound(blocks@, block_id as int);
    }
    let found = block_by_state_id(blocks, block_id);
    let d = match found {
        Some(b) => b.default_state,
        None => return None,
    };
    if d == ids.furnace {
        Some(new_furnace(FurnaceType::Furnace))
    } else if d == ids.blast_furnace {
        Some(new_furnace(FurnaceType::BlastFurnace))
    } else if d == ids.smoker {
        Some(new_furnace(FurnaceType::Smoker))
    } else if d == ids.chest {
        let e = BlockEntityData::Chest { items: [None; 27], viewers: Vec::new() };
        proof {
            assert forall|i: int| 0 <= i < 27 implies (#[trigger] e->items[i]) is None by {}
        }
        Some(e)
    } else {
        None
    }
}

proof fn lemma_block_index_bound(blocks: Seq<Block>, id: int)
    ensures
        block_index(blocks, id) < blocks.len(),
        block_index(blocks, id) >= -1,
    decreases blocks.len(),
{
    if blocks.len() > 0 {
        lemma_block_index_bound(blocks.drop_first(), id);
    }
}

fn new_furnace(t: FurnaceType) -> (r: BlockEntityData)
    ensures
        fresh_furnace(r, t, cook_time(t)),
{
    let cook: u32 = match t {
        FurnaceType::Furnace => 200,
        _ => 100,
    };
    BlockEntityData::Furnace {
        furnace_type: t,
        input: None,
        fuel: None,
        output: None,
        currently_cooking: None,
        lit_left: 0,
        lit_total: 0,
        cook_left: cook,
        lit_total_last: 0,
        properties_changed: false,
        slots_changed: false,
        was_lit: false,
    }
}

/// The tagged fuels, in the order they are tried: a tag of the item registry and how many
/// ticks an item of it burns.
pub open spec fn burn_entry(k: int) -> (Seq<char>, u32) {
    if k == 0 {
        ("minecraft:boats"@, 1200)
    } else if k == 1 {
        ("minecraft:hanging_signs"@, 800)
    } else if k == 2 {
        ("minecraft:planks"@, 300)
    } else if k == 3 {
        ("minecraft:logs_that_burn"@, 300)
    } else if k == 4 {
        ("minecraft:fence_gates"@, 300)
    } else if k == 5 {
        ("minecraft:wooden_stairs"@, 300)
    } else if k == 6 {
        ("minecraft:wooden_fences"@, 300)
    } else if k == 7 {
        ("minecraft:wooden_pressure_plates"@, 300)
    } else if k == 8 {
        ("minecraft:wooden_trapdoors"@, 300)
    } else if k == 9 {
        ("minecraft:signs"@, 200)
    } else if k == 10 {
        ("minecraft:wooden_doors"@, 200)
    } else if k == 11 {
        ("minecraft:wooden_slabs"@, 150)
    } else if k == 12 {
        ("minecraft:saplings"@, 100)
    } else if k == 13 {
        ("minecraft:wooden_buttons"@, 100)
    } else if k == 14 {
        ("minecraft:wool"@, 100)
    } else {
        ("minecraft:wool_carpets"@, 67)
    }
}

/// The number of tagged fuels.
pub const BURN_ENTRIES: usize = 16;

fn burn_entry_at(k: usize) -> (r: (&'static str, u32))
    requires
        k < BURN_ENTRIES,
    ensures
        (r.0@, r.1) == burn_entry(k as int),
{
    if k == 0 {
        ("minecraft:boats", 1200)
    } else if k == 1 {
        ("minecraft:hanging_signs", 800)
    } else if k == 2 {
        ("minecraft:planks", 300)
    } else if k == 3 {
        ("minecraft:logs_that_burn", 300)
    } else if k == 4 {
        ("minecraft:fence_gates", 300)
    } else if k == 5 {
        ("minecraft:wooden_stairs", 300)
    } else if k == 6 {
        ("minecraft:wooden_fences", 300)
    } else if k == 7 {
        ("minecraft:wooden_pressure_plates", 300)
    } else if k == 8 {
        ("minecraft:wooden_trapdoors", 300)
    } else if k == 9 {
        ("minecraft:signs", 200)
    } else if k == 10 {
        ("minecraft:wooden_doors", 200)
    } else if k == 11 {
        ("minecraft:wooden_slabs", 150)
    } else if k == 12 {
        ("minecraft:saplings", 100)
    } else if k == 13 {
        ("minecraft:wooden_buttons", 100)
    } else if k == 14 {
        ("minecraft:wool", 100)
    } else {
        ("minecraft:wool_carpets", 67)
    }
}

/// The position of the first entry of `table` named `name`, or -1.
pub open spec fn first_named<T>(table: Seq<(&str, T)>, name: Seq<char>) -> int
    decreases table.len(),
{
    if table.len() == 0 {
        -1
    } else if table.last().0@ == name {
        let r = first_named(table.drop_last(), name);
        if r >= 0 {
            r
        } else {
            table.len() - 1
        }
    } else {
        first_named(table.drop_last(), name)
    }
}

/// The tags of the item registry: those of the first registry named `minecraft:item`,
/// none if there is no such registry.
pub open spec fn item_tags<'a>(tags: Seq<(&'a str, &'a [(&'a str, &'a [i32])])>) -> Seq<
    (&'a str, &'a [i32]),
> {
    let k = first_named(tags, "minecraft:item"@);
    if k >= 0 {
        tags[k].1@
    } else {
        Seq::empty()
    }
}

/// The burn time of an item through its tags, trying the tagged fuels from entry `k` on:
/// the first fuel whose tag exists and holds the item.
pub open spec fn tagged_burn_time(item_tags: Seq<(&str, &[i32])>, item_id: i32, k: nat) -> Option<
    u32,
>
    decreases 16 - k,
{
    if k >= 16 {
        None
    } else {
        let (name, time) = burn_entry(k as int);
        let j = first_named(item_tags, name);
        if j >= 0 && item_tags[j].1@.contains(item_id) {
            Some(time)
        } else {
            tagged_burn_time(item_tags, item_id, k + 1)
        }
    }
}

/// How many ticks one item of kind `item_id` keeps a furnace lit, if it burns at all.
pub open spec fn burn_time<'a>(
    fuels: FuelItems,
    tags: Seq<(&'a str, &'a [(&'a str, &'a [i32])])>,
    item_id: i32,
) -> Option<u32> {
    if item_id == fuels.lava_bucket {
        Some(20000)
    } else if item_id == fuels.coal_block {
        Some(16000)
    } else if item_id == fuels.dried_kelp_block {
        Some(4000)
    } else if item_id == fuels.blaze_rod {
        Some(2400)
    } else if item_id == fuels.coal || item_id == fuels.charcoal {
        Some(1600)
    } else {
        tagged_burn_time(item_tags(tags), item_id, 0)
    }
}

fn find_named<'a, T>(table: &'a [(&'a str, T)], name: &str) -> (r: Option<&'a T>)
    ensures
        first_named(table@, name@) < 0 ==> r is None,
        first_named(table@, name@) >= 0 ==> r == Some(&table@[first_named(table@, name@)].1),
{
    let mut i: usize = 0;
    while i < table.len()
        invariant
            i <= table@.len(),
            forall|j: int| 0 <= j < i ==> table@[j].0@ != name@,
        decreases table@.len() - i,
    {
        if text_eq(table[i].0, name) {
            proof {
                lemma_first_named_at(table@, name@, i as int);
            }
            return Some(&table[i].1);
        }
        i = i + 1;
    }
    proof {
        lemma_first_named_none(table@, name@);
    }
    None
}

proof fn lemma_first_named_at<T>(table: Seq<(&str, T)>, name: Seq<char>, i: int)
    requires
        0 <= i < table.len(),
        table[i].0@ == name,
        forall|j: int| 0 <= j < i ==> table[j].0@ != name,
    ensures
        first_named(table, name) == i,
    decreases table.len(),
{
    if i < table.len() - 1 {
        lemma_first_named_at(table.drop_last(), name, i);
    } else {
        lemma_first_named_none(table.drop_last(), name);
    }
}

proof fn lemma_first_named_none<T>(table: Seq<(&str, T)>, name: Seq<char>)
    requires
        forall|j: int| 0 <= j < table.len() ==> table[j].0@ != name,
    ensures
        first_named(table, name) == -1,
    decreases table.len(),
{
    if table.len() > 0 {
        lemma_first_named_none(table.drop_last(), name);
    }
}

fn holds_id(ids: &[i32], id: i32) -> (r: bool)
    ensures
        r == ids@.contains(id),
{
    let mut i: usize = 0;
    while i < ids.len()
        invariant
            i <= ids@.len(),
            forall|j: int| 0 <= j < i ==> ids@[j] != id,
        decreases ids@.len() - i,
    {
        if ids[i] == id {
            return true;
        }
        i = i + 1;
    }
    false
}

/// How many ticks one item of kind `item_id` keeps a furnace lit: a fixed time for the
/// The fixed fuels burn for fixed times whatever the tag table holds: a lava bucket
/// 20000 ticks, a block of coal 16000, a dried kelp block 4000, a blaze rod 2400, coal
/// and charcoal 1600 (where two of these items share an id, the first listed wins).
pub proof fn lemma_fixed_fuels<'a>(fuels: FuelItems, tags: Seq<(&'a str, &'a [(&'a str, &'a [i32])])>)
    ensures
        burn_time(fuels, tags, fuels.lava_bucket) == Some(20000u32),
        fuels.coal_block != fuels.lava_bucket ==> burn_time(fuels, tags, fuels.coal_block) == Some(
            16000u32,
        ),
        fuels.dried_kelp_block != fuels.lava_bucket && fuels.dried_kelp_block != fuels.coal_block
            ==> burn_time(fuels, tags, fuels.dried_kelp_block) == Some(4000u32),
        fuels.blaze_rod != fuels.lava_bucket && fuels.blaze_rod != fuels.coal_block && fuels.blaze_rod
            != fuels.dried_kelp_block ==> burn_time(fuels, tags, fuels.blaze_rod) == Some(2400u32),
        forall|f: i32|
            (f == fuels.coal || f == fuels.charcoal) && f != fuels.lava_bucket && f != fuels.coal_block
                && f != fuels.dried_kelp_block && f != fuels.blaze_rod ==> #[trigger] burn_time(
                fuels,
                tags,
                f,
            ) == Some(1600u32),
{
}

/// fuels of `fuels`, else that of the first tagged fuel whose item tag holds it.
pub fn fuel_time<'a>(fuels: &FuelItems, tags: TagTable<'a>, item_id: i32) -> (r: Option<u32>)
    ensures
        r == burn_time(*fuels, tags@, item_id),
{
    if item_id == fuels.lava_bucket {
        return Some(20000);
    } else if item_id == fuels.coal_block {
        return Some(16000);
    } else if item_id == fuels.dried_kelp_block {
        return Some(4000);
    } else if item_id == fuels.blaze_rod {
        return Some(2400);
    } else if item_id == fuels.coal || item_id == fuels.charcoal {
        return Some(1600);
    }
    let empty: &[(&str, &[i32])] = &[];
    let registry: &[(&str, &[i32])] = match find_named(tags, "minecraft:item") {
        Some(t) => *t,
        None => empty,
    };
    proof {
        assert(empty@ =~= Seq::<(&str, &[i32])>::empty());
    }
    let mut k: usize = 0;
    while k < BURN_ENTRIES
        invariant
            k <= BURN_ENTRIES,
            registry@ == item_tags(tags@),
            burn_time(*fuels, tags@, item_id) == tagged_burn_time(registry@, item_id, 0),
            tagged_burn_time(registry@, item_id, k as nat) == tagged_burn_time(
                registry@,
                item_id,
                0,
            ),
        decreases BURN_ENTRIES - k,
    {
        let (name, time) = burn_entry_at(k);
        if let Some(found) = find_named(registry, name) {
            let ids: &[i32] = *found;
            if holds_id(ids, item_id) {
                proof {
                    let j = first_named(registry@, name@);
                    assert(registry@[j].1@.contains(item_id));
                    assert(tagged_burn_time(registry@, item_id, k as nat) == Some(time));
                }
                return Some(time);
            }
        }
        k = k + 1;
    }
    None
}

/// The result of the first recipe of `table` whose input is `item_id`, if any.
pub open spec fn recipe_in(table: Seq<(i32, i32)>, item_id: i32) -> Option<i32>
    decreases table.len(),
{
    if table.len() == 0 {
        None
    } else if table[0].0 == item_id {
        Some(table[0].1)
    } else {
        recipe_in(table.drop_first(), item_id)
    }
}

/// What a furnace of type `t` makes of one item of kind `item_id`.
pub open spec fn cooking_result(c: CookingTables, t: FurnaceType, item_id: i32) -> Option<i32> {
    match t {
        FurnaceType::Furnace => recipe_in(c.smelting@, item_id),
        FurnaceType::BlastFurnace => recipe_in(c.blasting@, item_id),
        FurnaceType::Smoker => recipe_in(c.smoking@, item_id),
    }
}

fn lookup_recipe(table: &[(i32, i32)], item_id: i32) -> (r: Option<i32>)
    ensures
        r == recipe_in(table@, item_id),
{
    let mut i: usize = 0;
    assert(table@.subrange(0, table@.len() as int) =~= table@);
    while i < table.len()
        invariant
            i <= table@.len(),
            recipe_in(table@.subrange(i as int, table@.len() as int), item_id) == recipe_in(
                table@,
                item_id,
            ),
        decreases table@.len() - i,
    {
        let ghost rest = table@.subrange(i as int, table@.len() as int);
        assert(rest.drop_first() =~= table@.subrange(i + 1, table@.len() as int));
        if table[i].0 == item_id {
            return Some(table[i].1);
        }
        i = i + 1;
    }
    None
}

fn lookup_cooking(c: &CookingTables, t: FurnaceType, item_id: i32) -> (r: Option<i32>)
    ensures
        r == cooking_result(*c, t, item_id),
{
    match t {
        FurnaceType::Furnace => lookup_recipe(c.smelting, item_id),
        FurnaceType::BlastFurnace => lookup_recipe(c.blasting, item_id),
        FurnaceType::Smoker => lookup_recipe(c.smoking, item_id),
    }
}

/// The furnace's slots are sane: every stack holds 1 to 64 items, and an item being
/// cooked is a single item that the output slot has room for.
pub open spec fn furnace_wf(e: BlockEntityData) -> bool {
    match e {
        BlockEntityData::Chest { .. } => true,
        BlockEntityData::Furnace { input, fuel, output, currently_cooking, .. } => {
            &&& stack_ok(input)
            &&& stack_ok(fuel)
            &&& stack_ok(output)
            &&& currently_cooking matches Some(ck) ==> {
                &&& ck.count == 1
                &&& output matches Some(o) ==> o.item_id == ck.item_id && o.count < 64
            }
        },
    }
}

/// Every block entity that placing a block creates meets what a furnace tick asks, and
/// a tick keeps it so (`tick` ensures it): the condition holds of every furnace the
/// library makes.
pub proof fn lemma_placed_entities_wf(blocks: Seq<Block>, ids: EntityBlocks, block_id: u16, e: BlockEntityData)
    requires
        entity_for(blocks, ids, block_id, Some(e)),
    ensures
        furnace_wf(e),
{
}

fn stack_fits(s: Option<ItemStack>) -> (r: bool)
    ensures
        r == stack_ok(s),
{
    match s {
        Some(st) => 1 <= st.count && st.count <= 64,
        None => true,
    }
}

/// Whether a block entity's slots are sane, as a furnace tick asks.
pub fn furnace_ok(e: &BlockEntityData) -> (r: bool)
    ensures
        r == furnace_wf(*e),
{
    match e {
        BlockEntityData::Chest { .. } => true,
        BlockEntityData::Furnace { input, fuel, output, currently_cooking, .. } => {
            stack_fits(*input) && stack_fits(*fuel) && stack_fits(*output) && match currently_cooking {
                Some(ck) => ck.count == 1 && match output {
                    Some(o) => o.item_id == ck.item_id && o.count < 64,
                    None => true,
                },
                None => true,
            }
        },
    }
}

/// The number of items in a slot.
pub open spec fn slot_count(s: Option<ItemStack>) -> int {
    match s {
        Some(st) => st.count as int,
        None => 0,
    }
}

/// The items a furnace works on: its input, what it is cooking and its output.
pub open spec fn cooked_total(e: BlockEntityData) -> int {
    match e {
        BlockEntityData::Chest { .. } => 0,
        BlockEntityData::Furnace { input, output, currently_cooking, .. } => slot_count(input)
            + slot_count(currently_cooking) + slot_count(output),
    }
}

/// The furnace after one game tick: one tick of burning; new fuel when the fire is out
/// and there is something to cook; one tick of cooking; a new item taken from the input
/// when nothing cooks and the fire burns; the cooked item moved to the output when its
/// time is up. A chest stays as it is.
pub open spec fn furnace_tick(e: BlockEntityData, c: CookingTables) -> BlockEntityData {
    match e {
        BlockEntityData::Chest { .. } => e,
        BlockEntityData::Furnace {
            furnace_type: t,
            input: in0,
            fuel: fuel0,
            output: out0,
            currently_cooking: ck0,
            lit_left: lit0,
            lit_total: tot0,
            cook_left: cook0,
            lit_total_last: _,
            properties_changed: _,
            slots_changed: _,
            was_lit,
        } => {
            let lit1 = if lit0 > 0 {
                (lit0 - 1) as u32
            } else {
                lit0
            };
            let recipe = match in0 {
                Some(st) => cooking_result(c, t, st.item_id),
                None => None,
            };
            let can_smelt = match recipe {
                Some(res) => match out0 {
                    Some(o) => o.item_id == res && o.count < 64,
                    None => true,
                },
                None => false,
            };
            let refuel = lit1 == 0 && fuel0 is Some && (ck0 is Some || in0 is Some) && (can_smelt
                || ck0 is Some) && burn_time(c.fuels, c.tags@, fuel0->0.item_id) is Some;
            let fuel2 = if refuel {
                take_one(fuel0->0)
            } else {
                fuel0
            };
            let lit2 = if refuel {
                burn_time(c.fuels, c.tags@, fuel0->0.item_id)->0
            } else {
                lit1
            };
            let tot2 = if refuel {
                lit2
            } else {
                tot0
            };
            let advance = cook0 > 0 && lit2 > 0 && ck0 is Some;
            let cook3 = if advance {
                (cook0 - 1) as u32
            } else {
                cook0
            };
            let feeding = ck0 is None && lit2 > 0 && in0 is Some;
            let start = feeding && recipe is Some && (out0 is None || (out0->0.item_id
                == recipe->0 && out0->0.count < 64));
            let ck4 = if start {
                Some(ItemStack { item_id: recipe->0, count: 1 })
            } else {
                ck0
            };
            let in4 = if start {
                take_one(in0->0)
            } else {
                in0
            };
            let cook4 = if start {
                cook_time(t)
            } else {
                cook3
            };
            let finish = cook4 == 0 && ck4 is Some;
            let out5 = if finish {
                match out0 {
                    Some(o) => Some(ItemStack { item_id: o.item_id, count: (o.count + 1) as u8 }),
                    None => ck4,
                }
            } else {
                out0
            };
            BlockEntityData::Furnace {
                furnace_type: t,
                input: in4,
                fuel: fuel2,
                output: out5,
                currently_cooking: if finish {
                    None
                } else {
                    ck4
                },
                lit_left: lit2,
                lit_total: tot2,
                cook_left: if finish {
                    cook_time(t)
                } else {
                    cook4
                },
                lit_total_last: tot0,
                properties_changed: lit0 > 0 || refuel || advance || start || finish,
                slots_changed: refuel || start || finish,
                was_lit: lit2 > 0,
            }
        },
    }
}

/// Whether the furnace's fire went out or was lit by this tick, and which: `Some(true)`
/// when it burns now and did not burn before the tick, `Some(false)` the other way.
pub open spec fn lit_change(before: BlockEntityData, after: BlockEntityData) -> Option<bool> {
    match (before, after) {
        (
            BlockEntityData::Furnace { was_lit, .. },
            BlockEntityData::Furnace { lit_left, .. },
        ) => if (lit_left > 0) != was_lit {
            Some(lit_left > 0)
        } else {
            None
        },
        _ => None,
    }
}

impl BlockEntityData {
    /// One game tick of a furnace (a chest does nothing). Gives `Some(lit)` when the fire
    /// was lit or went out, so that the caller shows the block's new state.
    pub fn tick(&mut self, c: &CookingTables) -> (r: Option<bool>)
        requires
            furnace_wf(*old(self)),
        ensures
            *final(self) == furnace_tick(*old(self), *c),
            r == lit_change(*old(self), *final(self)),
            furnace_wf(*final(self)),
            cooked_total(*final(self)) == cooked_total(*old(self)),
    {
        let (t, in0, fuel0, out0, ck0, lit0, tot0, cook0, was_lit) = match self {
            BlockEntityData::Chest { .. } => return None,
            BlockEntityData::Furnace {
                furnace_type,
                input,
                fuel,
                output,
                currently_cooking,
                lit_left,
                lit_total,
                cook_left,
                was_lit,
                ..
            } => (
                *furnace_type,
                *input,
                *fuel,
                *output,
                *currently_cooking,
                *lit_left,
                *lit_total,
                *cook_left,
                *was_lit,
            ),
        };
        let mut properties_changed = false;
        let mut slots_changed = false;
        let mut lit = lit0;
        if lit > 0 {
            lit = lit - 1;
            properties_changed = true;
        }
        let recipe = match in0 {
            Some(st) => lookup_cooking(c, t, st.item_id),
            None => None,
        };
        let mut fuel = fuel0;
        let mut total = tot0;
        if lit == 0 && fuel0.is_some() && (ck0.is_some() || in0.is_some()) {
            let can_smelt = match recipe {
                Some(res) => match out0 {
                    Some(o) => o.item_id == res && o.count < 64,
                    None => true,
                },
                None => false,
            };
            if can_smelt || ck0.is_some() {
                let stack = fuel0.unwrap();
                if let Some(time) = fuel_time(&c.fuels, c.tags, stack.item_id) {
                    fuel = if stack.count <= 1 {
                        None
                    } else {
                        Some(ItemStack { item_id: stack.item_id, count: stack.count - 1 })
                    };
                    lit = time;
                    total = time;
                    properties_changed = true;
                    slots_changed = true;
                }
            }
        }
        let mut cook = cook0;
        if cook > 0 && lit > 0 && ck0.is_some() {
            cook = cook - 1;
            properties_changed = true;
        }
        let mut input = in0;
        let mut cooking = ck0;
        if ck0.is_none() && lit > 0 && in0.is_some() {
            let st = in0.unwrap();
            if let Some(res) = recipe {
                let room = match out0 {
                    Some(o) => o.item_id == res && o.count < 64,
                    None => true,
                };
                if room {
                    cooking = Some(ItemStack { item_id: res, count: 1 });
                    input = if st.count <= 1 {
                        None
                    } else {
                        Some(ItemStack { item_id: st.item_id, count: st.count - 1 })
                    };
                    cook = match t {
                        FurnaceType::Furnace => 200,
                        _ => 100,
                    };
                    slots_changed = true;
                    properties_changed = true;
                }
            }
        }
        let mut output = out0;
        if cook == 0 && cooking.is_some() {
            output = match out0 {
                Some(o) => Some(ItemStack { item_id: o.item_id, count: o.count + 1 }),
                None => cooking,
            };
            cook = match t {
                FurnaceType::Furnace => 200,
                _ => 100,
            };
            cooking = None;
            properties_changed = true;
            slots_changed = true;
        }
        *self = BlockEntityData::Furnace {
            furnace_type: t,
            input,
            fuel,
            output,
            currently_cooking: cooking,
            lit_left: lit,
            lit_total: total,
            cook_left: cook,
            lit_total_last: tot0,
            properties_changed,
            slots_changed,
            was_lit: lit > 0,
        };
        if (lit > 0) != was_lit {
            Some(lit > 0)
        } else {
            None
        }
    }
}

/// The overrides that set the `lit` property.
pub open spec fn lit_overrides(lit: bool) -> Seq<(&'static str, &'static str)> {
    seq![("lit", if lit { "true" } else { "false" })]
}

/// The block of the registry that holds state `s`.
pub open spec fn block_of(blocks: Seq<Block>, s: u16) -> Block {
    blocks[block_index(blocks, s as int)]
}

/// The state a block in state `s` takes with its `lit` property set to `lit`.
pub open spec fn lit_state(blocks: Seq<Block>, s: u16, lit: bool) -> int {
    resolved_from(block_of(blocks, s), s as int, lit_overrides(lit))
}

/// State `s` is found in the registry, its block's properties are sound, and the state
/// with `lit` set is a `u16`.
pub open spec fn lit_fits(blocks: Seq<Block>, s: u16, lit: bool) -> bool {
    &&& lookup_fits(blocks, s as int)
    &&& block_index(blocks, s as int) >= 0
    &&& props_ok(block_of(blocks, s))
    &&& lit_state(blocks, s, lit) <= u16::MAX
}

/// The block at (`x`, `y`, `z`) can take its state with `lit` set.
pub open spec fn lit_settable(chunk: Chunk, blocks: Seq<Block>, x: int, y: int, z: int, lit: bool) -> bool {
    let s = chunk.block_at(x, y, z);
    lit_fits(blocks, s, lit) && chunk.settable(x, y, z, lit_state(blocks, s, lit) as u16)
}

/// Shows a furnace's fire in its block: the block at (`x`, `y`, `z`) takes its state with
/// `lit` set. Gives the new state.
pub fn set_lit(chunk: &mut Chunk, blocks: &[Block], x: u8, y: i32, z: u8, lit: bool) -> (r: u16)
    requires
        old(chunk).wf(),
        x < 16,
        z < 16,
        lit_fits(blocks@, old(chunk).block_at(x as int, y as int, z as int), lit),
        old(chunk).settable(
            x as int,
            y as int,
            z as int,
            lit_state(blocks@, old(chunk).block_at(x as int, y as int, z as int), lit) as u16,
        ),
    ensures
        r == lit_state(blocks@, old(chunk).block_at(x as int, y as int, z as int), lit),
        final(chunk).wf(),
        chunk_placed(*old(chunk), *final(chunk), x as int, y as int, z as int, r),
{
    proof { chunk.lemma_reads_within(x as int, y as int, z as int); }
    let current = chunk.get_block(x, y, z);
    let block = block_by_state_id(blocks, current).unwrap();
    proof {
        lemma_block_found(blocks@, current as int);
    }
    let value = if lit {
        "true"
    } else {
        "false"
    };
    let overrides = vec![("lit", value)];
    assert(overrides@ =~= lit_overrides(lit));
    let state = resolve_from(block, current, overrides);
    chunk.set_block(x, y, z, state);
    state
}

impl BlockEntityData {
    /// One game tick of a furnace standing at (`x`, `y`, `z`) of `chunk`: the tick, and
    /// where the fire was lit or went out, the block's new `lit` state written into the
    /// chunk. Gives that new state, none where the chunk is left as it was.
    pub fn tick_in_chunk(
        &mut self,
        c: &CookingTables,
        chunk: &mut Chunk,
        blocks: &[Block],
        x: u8,
        y: i32,
        z: u8,
    ) -> (r: Option<u16>)
        requires
            furnace_wf(*old(self)),
            old(chunk).wf(),
            x < 16,
            z < 16,
            lit_change(*old(self), furnace_tick(*old(self), *c)) matches Some(lit) ==> lit_settable(
                *old(chunk),
                blocks@,
                x as int,
                y as int,
                z as int,
                lit,
            ),
        ensures
            *final(self) == furnace_tick(*old(self), *c),
            furnace_wf(*final(self)),
            final(chunk).wf(),
            match lit_change(*old(self), *final(self)) {
                None => r is None && *final(chunk) == *old(chunk),
                Some(lit) => {
                    let state = lit_state(blocks@, old(chunk).block_at(x as int, y as int, z as int), lit) as u16;
                    let si = section_slot(y as int);
                    &&& r == Some(state)
                    &&& chunk_placed(*old(chunk), *final(chunk), x as int, y as int, z as int, state)
                    &&& 0 <= si < old(chunk).sections@.len() && old(chunk).sections@[si].placement_exact(
                        section_index(x as int, (y as int) % 16, z as int) as nat,
                        state,
                    ) ==> final(chunk).block_at(x as int, y as int, z as int) == state
                },
            },
    {
        match self.tick(c) {
            None => None,
            Some(lit) => {
                let ghost before = *chunk;
                let state = set_lit(chunk, blocks, x, y, z, lit);
                proof {
                    lemma_chunk_set_get(before, *chunk, x as int, y as int, z as int, state);
                }
                Some(state)
            },
        }
    }
}

} // verus!
