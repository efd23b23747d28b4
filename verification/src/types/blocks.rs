use vstd::prelude::*;

use crate::text::text_eq;

verus! {

/// A block-state property and the values it can take, in state-numbering order.
pub struct Property {
    pub name: String,
    pub values: Vec<String>,
}

/// A block of the registry: its states are numbered from `min_state_id` on, one for
/// each combination of its properties' values, the last property varying fastest.
pub struct Block {
    pub name: String,
    pub min_state_id: u16,
    pub default_state: u16,
    pub properties: Vec<Property>,
}

/// The number of values of a property, as the registry counts it (a `u32`).
pub open spec fn radix(p: Property) -> int {
    (p.values@.len() as u32) as int
}

/// The product of the properties' value counts.
pub open spec fn radix_product(props: Seq<Property>) -> int
    decreases props.len(),
{
    if props.len() == 0 {
        1
    } else {
        radix_product(props.drop_last()) * radix(props.last())
    }
}

/// Every partial product of the value counts, first property first, fits in a `u32`.
pub open spec fn product_fits(props: Seq<Property>) -> bool {
    forall|k: int| 0 <= k <= props.len() ==> #[trigger] radix_product(props.subrange(0, k))
        <= u32::MAX
}

/// The number of states of a block: the product of its properties' value counts, at
/// least 1.
pub open spec fn state_count(b: Block) -> int {
    let p = radix_product(b.properties@);
    if p >= 1 {
        p
    } else {
        1
    }
}

/// State `id` belongs to block `b`: it lies in the block's range of state ids, whose
/// length is the state count cut to a `u16`.
pub open spec fn holds_state(b: Block, id: int) -> bool {
    b.min_state_id <= id < b.min_state_id + (state_count(b) as u16)
}

/// The block's state range can be computed without overflow.
pub open spec fn range_fits(b: Block) -> bool {
    &&& product_fits(b.properties@)
    &&& b.min_state_id + (state_count(b) as u16) <= u16::MAX
}

/// Every block a lookup of state `id` visits, up to the first that holds it, has a
/// computable state range.
pub open spec fn lookup_fits(blocks: Seq<Block>, id: int) -> bool
    decreases blocks.len(),
{
    blocks.len() == 0 || (range_fits(blocks[0]) && (holds_state(blocks[0], id) || lookup_fits(
        blocks.drop_first(),
        id,
    )))
}

/// The first block of the registry that holds state `id`, or -1.
pub open spec fn block_index(blocks: Seq<Block>, id: int) -> int
    decreases blocks.len(),
{
    if blocks.len() == 0 {
        -1
    } else if holds_state(blocks[0], id) {
        0
    } else {
        let r = block_index(blocks.drop_first(), id);
        if r < 0 {
            -1
        } else {
            r + 1
        }
    }
}

/// A block found for state `id` is one of the registry's and holds that state.
pub proof fn lemma_block_found(blocks: Seq<Block>, id: int)
    ensures
        block_index(blocks, id) >= 0 ==> block_index(blocks, id) < blocks.len() && holds_state(
            blocks[block_index(blocks, id)],
            id,
        ),
    decreases blocks.len(),
{
    if blocks.len() > 0 && !holds_state(blocks[0], id) {
        lemma_block_found(blocks.drop_first(), id);
    }
}

/// The number of states of `block`.
pub fn block_state_count(block: &Block) -> (r: u32)
    requires
        product_fits(block.properties@),
    ensures
        r == state_count(*block),
{
    let props = &block.properties;
    let mut acc: u32 = 1;
    let mut i: usize = 0;
    assert(props@.subrange(0, 0) =~= Seq::<Property>::empty());
    while i < props.len()
        invariant
            i <= props@.len(),
            product_fits(props@),
            acc == radix_product(props@.subrange(0, i as int)),
        decreases props@.len() - i,
    {
        assert(props@.subrange(0, i + 1).drop_last() =~= props@.subrange(0, i as int));
        assert(radix_product(props@.subrange(0, i + 1)) <= u32::MAX);
        acc = acc * (props[i].values.len() as u32);
        i = i + 1;
    }
    assert(props@.subrange(0, i as int) =~= props@);
    if acc >= 1 {
        acc
    } else {
        1
    }
}

/// The first block of the registry whose range of state ids holds `state_id`.
pub fn block_by_state_id(blocks: &[Block], state_id: u16) -> (r: Option<&Block>)
    requires
        lookup_fits(blocks@, state_id as int),
    ensures
        block_index(blocks@, state_id as int) < 0 ==> r.is_none(),
        block_index(blocks@, state_id as int) >= 0 ==> r == Some(
            &blocks@[block_index(blocks@, state_id as int)],
        ),
{
    let mut i: usize = 0;
    assert(blocks@.subrange(0, blocks@.len() as int) =~= blocks@);
    while i < blocks.len()
        invariant
            i <= blocks@.len(),
            lookup_fits(blocks@.subrange(i as int, blocks@.len() as int), state_id as int),
            block_index(blocks@, state_id as int) == if block_index(
                blocks@.subrange(i as int, blocks@.len() as int),
                state_id as int,
            ) < 0 {
                -1
            } else {
                block_index(blocks@.subrange(i as int, blocks@.len() as int), state_id as int)
                    + i
            },
        decreases blocks@.len() - i,
    {
        let ghost rest = blocks@.subrange(i as int, blocks@.len() as int);
        assert(rest[0] == blocks@[i as int]);
        assert(rest.drop_first() =~= blocks@.subrange(i + 1, blocks@.len() as int));
        let block = &blocks[i];
        let count = block_state_count(block);
        if state_id >= block.min_state_id && state_id < block.min_state_id + count as u16 {
            return Some(block);
        }
        i = i + 1;
    }
    None
}

/// The axis that a block placed against face `face` lies along.
pub open spec fn axis_of(face: u8) -> Seq<char> {
    if face <= 1 {
        "y"@
    } else if face <= 3 {
        "z"@
    } else if face <= 5 {
        "x"@
    } else {
        "y"@
    }
}

/// The direction that face `face` of a block points to.
pub open spec fn direction_of(face: u8) -> Seq<char> {
    if face == 0 {
        "down"@
    } else if face == 1 {
        "up"@
    } else if face == 2 {
        "north"@
    } else if face == 3 {
        "south"@
    } else if face == 4 {
        "west"@
    } else if face == 5 {
        "east"@
    } else {
        "north"@
    }
}

/// The axis a block placed against face `face` lies along: faces 0 and 1 (down, up)
/// give "y", 2 and 3 "z", 4 and 5 "x", any other "y".
pub fn face_to_axis(face: u8) -> (r: &'static str)
    ensures
        r@ == axis_of(face),
{
    match face {
        0 | 1 => "y",
        2 | 3 => "z",
        4 | 5 => "x",
        _ => "y",
    }
}

/// The direction that face `face` points to; an unknown face counts as "north".
pub fn face_to_direction(face: u8) -> (r: &'static str)
    ensures
        r@ == direction_of(face),
{
    match face {
        0 => "down",
        1 => "up",
        2 => "north",
        3 => "south",
        4 => "west",
        5 => "east",
        _ => "north",
    }
}

/// The registry ids of stone, the eight ores, and their deepslate forms.
#[derive(Clone, Copy, Debug)]
pub struct DeepslateIds {
    pub stone: u16,
    pub deepslate: u16,
    /// The ores, in the order coal, iron, copper, gold, redstone, emerald, lapis, diamond.
    pub ores: [u16; 8],
    /// Their deepslate forms, in the same order.
    pub deepslate_ores: [u16; 8],
}

/// Stone and the eight ores, each with its deepslate form: stone first, then the ores in
/// order.
pub open spec fn deepslate_pairs_of(ids: DeepslateIds) -> Seq<(u16, u16)> {
    seq![(ids.stone, ids.deepslate)] + Seq::new(8, |k: int| (ids.ores@[k], ids.deepslate_ores@[k]))
}

/// The table of deepslate forms: stone to deepslate, each ore to its deepslate ore. Any
/// other block has none, and `deepslate_variant` leaves it as it is.
pub fn deepslate_pairs(ids: &DeepslateIds) -> (r: Vec<(u16, u16)>)
    ensures
        r@ == deepslate_pairs_of(*ids),
{
    let mut r: Vec<(u16, u16)> = vec![(ids.stone, ids.deepslate)];
    let mut k: usize = 0;
    while k < 8
        invariant
            k <= 8,
            r@ == seq![(ids.stone, ids.deepslate)] + Seq::new(
                k as nat,
                |j: int| (ids.ores@[j], ids.deepslate_ores@[j]),
            ),
        decreases 8 - k,
    {
        r.push((ids.ores[k], ids.deepslate_ores[k]));
        proof {
            assert(r@ =~= seq![(ids.stone, ids.deepslate)] + Seq::new(
                (k + 1) as nat,
                |j: int| (ids.ores@[j], ids.deepslate_ores@[j]),
            ));
        }
        k = k + 1;
    }
    r
}

/// The deepslate form of a block: the second id of the first pair in `variants` whose
/// first id is `block`, the block itself where there is none.
pub open spec fn deepslate_of(variants: Seq<(u16, u16)>, block: u16) -> u16
    decreases variants.len(),
{
    if variants.len() == 0 {
        block
    } else if variants[0].0 == block {
        variants[0].1
    } else {
        deepslate_of(variants.drop_first(), block)
    }
}

proof fn lemma_deepslate_first(v: Seq<(u16, u16)>, b: u16, k: int)
    requires
        0 <= k < v.len(),
        v[k].0 == b,
        forall|j: int| 0 <= j < k ==> v[j].0 != b,
    ensures
        deepslate_of(v, b) == v[k].1,
    decreases k,
{
    if k > 0 {
        lemma_deepslate_first(v.drop_first(), b, k - 1);
    }
}

proof fn lemma_deepslate_none(v: Seq<(u16, u16)>, b: u16)
    requires
        forall|j: int| 0 <= j < v.len() ==> v[j].0 != b,
    ensures
        deepslate_of(v, b) == b,
    decreases v.len(),
{
    if v.len() > 0 {
        lemma_deepslate_none(v.drop_first(), b);
    }
}

/// The deepslate table maps stone to deepslate, the first ore equal to `b` to its
/// deepslate form, and any other block to itself.
pub proof fn lemma_deepslate_mapping(ids: DeepslateIds, b: u16)
    ensures
        b == ids.stone ==> deepslate_of(deepslate_pairs_of(ids), b) == ids.deepslate,
        forall|k: int|
            0 <= k < 8 && b != ids.stone && ids.ores@[k] == b && (forall|j: int|
                0 <= j < k ==> ids.ores@[j] != b) ==> deepslate_of(deepslate_pairs_of(ids), b)
                == #[trigger] ids.deepslate_ores@[k],
        b != ids.stone && (forall|k: int| 0 <= k < 8 ==> ids.ores@[k] != b) ==> deepslate_of(
            deepslate_pairs_of(ids),
            b,
        ) == b,
{
    let v = deepslate_pairs_of(ids);
    assert(v.len() == 9);
    assert forall|k: int| 0 <= k < 8 implies v[k + 1] == (ids.ores@[k], ids.deepslate_ores@[k]) by {}
    if b == ids.stone {
        lemma_deepslate_first(v, b, 0);
    }
    assert forall|k: int|
        0 <= k < 8 && b != ids.stone && ids.ores@[k] == b && (forall|j: int|
            0 <= j < k ==> ids.ores@[j] != b) implies deepslate_of(v, b)
        == #[trigger] ids.deepslate_ores@[k] by {
        assert forall|j: int| 0 <= j < k + 1 implies v[j].0 != b by {
            if j > 0 {
                assert(v[j] == (ids.ores@[j - 1], ids.deepslate_ores@[j - 1]));
            }
        }
        lemma_deepslate_first(v, b, k + 1);
    }
    if b != ids.stone && (forall|k: int| 0 <= k < 8 ==> ids.ores@[k] != b) {
        assert forall|j: int| 0 <= j < v.len() implies v[j].0 != b by {
            if j > 0 {
                assert(v[j] == (ids.ores@[j - 1], ids.deepslate_ores@[j - 1]));
            }
        }
        lemma_deepslate_none(v, b);
    }
}

/// The deepslate forms are none of the blocks the table maps: not stone, not an ore.
pub open spec fn forms_distinct(ids: DeepslateIds) -> bool {
    &&& ids.deepslate != ids.stone
    &&& forall|k: int| 0 <= k < 8 ==> #[trigger] ids.ores@[k] != ids.deepslate
    &&& forall|j: int|
        0 <= j < 8 ==> #[trigger] ids.deepslate_ores@[j] != ids.stone && forall|k: int|
            0 <= k < 8 ==> #[trigger] ids.ores@[k] != ids.deepslate_ores@[j]
}

/// Taking the deepslate form twice gives what taking it once does, where the deepslate
/// forms are none of the blocks the table maps.
pub proof fn lemma_deepslate_idempotent(ids: DeepslateIds, b: u16)
    requires
        forms_distinct(ids),
    ensures
        deepslate_of(deepslate_pairs_of(ids), deepslate_of(deepslate_pairs_of(ids), b))
            == deepslate_of(deepslate_pairs_of(ids), b),
{
    let v = deepslate_pairs_of(ids);
    lemma_deepslate_mapping(ids, b);
    if b == ids.stone {
        lemma_deepslate_mapping(ids, ids.deepslate);
    } else if exists|k: int| 0 <= k < 8 && ids.ores@[k] == b {
        let k = choose|k: int| 0 <= k < 8 && ids.ores@[k] == b && forall|j: int| 0 <= j < k ==> ids.ores@[j] != b;
        let d = ids.deepslate_ores@[k];
        assert(deepslate_of(v, b) == d);
        lemma_deepslate_mapping(ids, d);
    } else {
        assert(deepslate_of(v, b) == b);
    }
}

/// The deepslate form of `block`, read from the registry's table of stone-to-deepslate
/// pairs (stone and each ore with its deepslate counterpart).
pub fn deepslate_variant(variants: &[(u16, u16)], block: u16) -> (r: u16)
    ensures
        r == deepslate_of(variants@, block),
{
    let mut i: usize = 0;
    assert(variants@.subrange(0, variants@.len() as int) =~= variants@);
    while i < variants.len()
        invariant
            i <= variants@.len(),
            deepslate_of(variants@, block) == deepslate_of(
                variants@.subrange(i as int, variants@.len() as int),
                block,
            ),
        decreases variants@.len() - i,
    {
        let ghost rest = variants@.subrange(i as int, variants@.len() as int);
        assert(rest[0] == variants@[i as int]);
        assert(rest.drop_first() =~= variants@.subrange(i + 1, variants@.len() as int));
        if variants[i].0 == block {
            return variants[i].1;
        }
        i = i + 1;
    }
    block
}

/// The first property of the list that each factor of the product belongs to comes first:
/// the product peels off the front as well as the back.
proof fn lemma_product_front(props: Seq<Property>)
    requires
        props.len() > 0,
    ensures
        radix_product(props) == radix(props[0]) * radix_product(props.drop_first()),
    decreases props.len(),
{
    if props.len() > 1 {
        lemma_product_front(props.drop_last());
        assert(props.drop_last().drop_first() =~= props.drop_first().drop_last());
        let a = radix(props[0]);
        let b = radix_product(props.drop_first().drop_last());
        let c = radix(props.last());
        assert(props.drop_first().last() == props.last());
        assert(radix_product(props.drop_first()) == b * c);
        assert(radix_product(props.drop_last()) == a * b);
        assert((a * b) * c == a * (b * c)) by (nonlinear_arith);
    } else {
        assert(props.drop_first() =~= Seq::<Property>::empty());
        assert(props.drop_last() =~= Seq::<Property>::empty());
    }
}

/// With every value count at least 1, the products are at least 1 and a suffix's
/// product is at most the whole product.
proof fn lemma_suffix_product(props: Seq<Property>, k: int)
    requires
        0 <= k <= props.len(),
        forall|i: int| 0 <= i < props.len() ==> radix(#[trigger] props[i]) >= 1,
    ensures
        1 <= radix_product(props.subrange(k, props.len() as int)) <= radix_product(props),
    decreases k,
{
    if k == 0 {
        assert(props.subrange(0, props.len() as int) =~= props);
        lemma_product_positive(props);
    } else {
        lemma_suffix_product(props, k - 1);
        let s = props.subrange(k - 1, props.len() as int);
        lemma_product_front(s);
        assert(s.drop_first() =~= props.subrange(k, props.len() as int));
        assert(s[0] == props[k - 1]);
        lemma_product_positive(s.drop_first());
        let a = radix(props[k - 1]);
        let b = radix_product(s.drop_first());
        assert(b <= a * b) by (nonlinear_arith)
            requires
                a >= 1,
                b >= 1,
        ;
    }
}

proof fn lemma_product_positive(props: Seq<Property>)
    requires
        forall|i: int| 0 <= i < props.len() ==> radix(#[trigger] props[i]) >= 1,
    ensures
        radix_product(props) >= 1,
    decreases props.len(),
{
    if props.len() > 0 {
        lemma_product_positive(props.drop_last());
        let a = radix_product(props.drop_last());
        let b = radix(props.last());
        assert(a * b >= 1) by (nonlinear_arith)
            requires
                a >= 1,
                b >= 1,
        ;
    }
}

/// The value given for property `name` by the first override that names it.
pub open spec fn override_value(overrides: Seq<(&'static str, &'static str)>, name: Seq<char>) -> Option<
    Seq<char>,
>
    decreases overrides.len(),
{
    if overrides.len() == 0 {
        None
    } else if overrides[0].0@ == name {
        Some(overrides[0].1@)
    } else {
        override_value(overrides.drop_first(), name)
    }
}

/// The first position of value `v` among a property's values, or -1.
pub open spec fn value_position(values: Seq<String>, v: Seq<char>) -> int
    decreases values.len(),
{
    if values.len() == 0 {
        -1
    } else if values[0]@ == v {
        0
    } else {
        let r = value_position(values.drop_first(), v);
        if r < 0 {
            -1
        } else {
            r + 1
        }
    }
}

/// The value index of property `i` in the default state: digit `i` of `d` (the default
/// state's offset) written in the mixed radix of the value counts, the last property
/// least significant.
pub open spec fn default_digit(props: Seq<Property>, d: int, i: int) -> int {
    (d / radix_product(props.subrange(i + 1, props.len() as int))) % radix(props[i])
}

/// The value index that property `i` takes: the position of the value that an override
/// names for it, or its default index where no override names it or the value is not
/// one of its values.
pub open spec fn chosen_digit(
    props: Seq<Property>,
    overrides: Seq<(&'static str, &'static str)>,
    d: int,
    i: int,
) -> int {
    match override_value(overrides, props[i].name@) {
        Some(v) => {
            let k = value_position(props[i].values@, v);
            if k >= 0 {
                k
            } else {
                default_digit(props, d, i)
            }
        },
        None => default_digit(props, d, i),
    }
}

/// The offset that the chosen value indices of properties `from..` make in the mixed radix
/// of the value counts.
pub open spec fn state_offset(
    props: Seq<Property>,
    overrides: Seq<(&'static str, &'static str)>,
    d: int,
    from: int,
) -> int
    decreases props.len() - from,
{
    if from >= props.len() || from < 0 {
        0
    } else {
        chosen_digit(props, overrides, d, from) * radix_product(
            props.subrange(from + 1, props.len() as int),
        ) + state_offset(props, overrides, d, from + 1)
    }
}

/// The state of `block` whose properties take their values in state `base` except where
/// an override sets them.
pub open spec fn resolved_from(block: Block, base: int, overrides: Seq<(&'static str, &'static str)>) -> int {
    block.min_state_id + (state_offset(block.properties@, overrides, base - block.min_state_id, 0) as u16)
}

/// The state of `block` whose properties take the default values except where an
/// override sets them.
pub open spec fn resolved_state(block: Block, overrides: Seq<(&'static str, &'static str)>) -> int {
    resolved_from(block, block.default_state as int, overrides)
}

fn find_override(overrides: &Vec<(&'static str, &'static str)>, name: &str) -> (r: Option<
    &'static str,
>)
    ensures
        override_value(overrides@, name@) is None ==> r is None,
        override_value(overrides@, name@) is Some ==> r is Some && r.unwrap()@ == override_value(
            overrides@,
            name@,
        ).unwrap(),
{
    let mut i: usize = 0;
    assert(overrides@.subrange(0, overrides@.len() as int) =~= overrides@);
    while i < overrides.len()
        invariant
            i <= overrides@.len(),
            override_value(overrides@, name@) == override_value(
                overrides@.subrange(i as int, overrides@.len() as int),
                name@,
            ),
        decreases overrides@.len() - i,
    {
        let ghost rest = overrides@.subrange(i as int, overrides@.len() as int);
        assert(rest[0] == overrides@[i as int]);
        assert(rest.drop_first() =~= overrides@.subrange(i + 1, overrides@.len() as int));
        if text_eq(overrides[i].0, name) {
            return Some(overrides[i].1);
        }
        i = i + 1;
    }
    None
}

fn find_value(values: &Vec<String>, v: &str) -> (r: Option<usize>)
    ensures
        value_position(values@, v@) < 0 ==> r is None,
        value_position(values@, v@) >= 0 ==> r == Some(value_position(values@, v@) as usize),
{
    let mut i: usize = 0;
    assert(values@.subrange(0, values@.len() as int) =~= values@);
    while i < values.len()
        invariant
            i <= values@.len(),
            value_position(values@, v@) == if value_position(
                values@.subrange(i as int, values@.len() as int),
                v@,
            ) < 0 {
                -1
            } else {
                value_position(values@.subrange(i as int, values@.len() as int), v@) + i
            },
        decreases values@.len() - i,
    {
        let ghost rest = values@.subrange(i as int, values@.len() as int);
        assert(rest[0] == values@[i as int]);
        assert(rest.drop_first() =~= values@.subrange(i + 1, values@.len() as int));
        if text_eq(values[i].as_str(), v) {
            return Some(i);
        }
        i = i + 1;
    }
    None
}

proof fn lemma_value_position_bound(values: Seq<String>, v: Seq<char>)
    ensures
        value_position(values, v) < values.len(),
    decreases values.len(),
{
    if values.len() > 0 {
        lemma_value_position_bound(values.drop_first(), v);
    }
}

/// The state id of `block` with its properties at their default values except where
/// `overrides` name a property and one of its values.
pub fn resolve_state(block: &Block, overrides: Vec<(&'static str, &'static str)>) -> (r: u16)
    requires
        block.default_state >= block.min_state_id,
        props_ok(*block),
        resolved_state(*block, overrides@) <= u16::MAX,
    ensures
        r == resolved_state(*block, overrides@),
{
    resolve_from(block, block.default_state, overrides)
}

/// The block's properties each have at least one value and their value counts multiply
/// to a `u32`.
pub open spec fn props_ok(block: Block) -> bool {
    &&& forall|i: int|
        0 <= i < block.properties@.len() ==> radix(#[trigger] block.properties@[i]) >= 1
            && block.properties@[i].values@.len() <= u32::MAX
    &&& radix_product(block.properties@) <= u32::MAX
}

/// The state id of `block` with its properties at their values in state `base` except
/// where `overrides` name a property and one of its values.
pub fn resolve_from(block: &Block, base: u16, overrides: Vec<(&'static str, &'static str)>) -> (r: u16)
    requires
        base >= block.min_state_id,
        props_ok(*block),
        resolved_from(*block, base as int, overrides@) <= u16::MAX,
    ensures
        r == resolved_from(*block, base as int, overrides@),
{
    let props = &block.properties;
    let len = props.len();
    let ghost d: int = base - block.min_state_id;
    let mut default_remaining: u32 = (base - block.min_state_id) as u32;
    let mut default_indices: Vec<u32> = Vec::new();
    let mut z: usize = 0;
    while z < len
        invariant
            z <= len,
            default_indices@.len() == z,
        decreases len - z,
    {
        default_indices.push(0);
        z = z + 1;
    }
    assert(props@.subrange(len as int, len as int) =~= Seq::<Property>::empty());
    let mut k: usize = len;
    while k > 0
        invariant
            k <= len,
            len == props@.len(),
            default_indices@.len() == len,
            forall|i: int| 0 <= i < len ==> radix(#[trigger] props@[i]) >= 1,
            default_remaining == d / radix_product(props@.subrange(k as int, len as int)),
            d >= 0,
            forall|j: int| k <= j < len ==> default_indices@[j] == default_digit(props@, d, j),
        decreases k,
    {
        let j = k - 1;
        let n = props[j].values.len() as u32;
        proof {
            lemma_suffix_product(props@, k as int);
            let s = props@.subrange(j as int, len as int);
            lemma_product_front(s);
            assert(s.drop_first() =~= props@.subrange(k as int, len as int));
            assert(s[0] == props@[j as int]);
            vstd::arithmetic::div_mod::lemma_div_denominator(
                d,
                radix_product(props@.subrange(k as int, len as int)),
                n as int,
            );
            assert(radix_product(props@.subrange(k as int, len as int)) * (n as int) == (n as int)
                * radix_product(props@.subrange(k as int, len as int))) by (nonlinear_arith);
        }
        default_indices.set(j, default_remaining % n);
        default_remaining = default_remaining / n;
        k = j;
    }

    let mut offset: u32 = 0;
    let mut multiplier: u32 = 1;
    let mut k: usize = len;
    proof {
        lemma_suffix_product(props@, 0);
    }
    while k > 0
        invariant
            k <= len,
            len == props@.len(),
            default_indices@.len() == len,
            forall|i: int| 0 <= i < len ==> radix(#[trigger] props@[i]) >= 1,
            forall|i: int| 0 <= i < len ==> (#[trigger] props@[i]).values@.len() <= u32::MAX,
            forall|j: int| 0 <= j < len ==> default_indices@[j] == default_digit(props@, d, j),
            radix_product(props@) <= u32::MAX,
            multiplier == radix_product(props@.subrange(k as int, len as int)),
            offset == state_offset(props@, overrides@, d, k as int),
            offset < multiplier,
        decreases k,
    {
        let j = k - 1;
        let n = props[j].values.len() as u32;
        let idx: u32 = match find_override(&overrides, props[j].name.as_str()) {
            Some(value) => match find_value(&props[j].values, value) {
                Some(p) => p as u32,
                None => default_indices[j],
            },
            None => default_indices[j],
        };
        proof {
            lemma_value_position_bound(props@[j as int].values@, override_value(overrides@, props@[j as int].name@).unwrap_or(Seq::empty()));
            vstd::arithmetic::div_mod::lemma_mod_bound(
                d / radix_product(props@.subrange(k as int, len as int)),
                n as int,
            );
            assert(idx == chosen_digit(props@, overrides@, d, j as int));
            assert(idx < n);
            lemma_suffix_product(props@, j as int);
            let s = props@.subrange(j as int, len as int);
            lemma_product_front(s);
            assert(s.drop_first() =~= props@.subrange(k as int, len as int));
            assert(s[0] == props@[j as int]);
            let m = multiplier as int;
            assert(idx * m + offset < n * m) by (nonlinear_arith)
                requires
                    idx < n,
                    offset < m,
            ;
            assert(n * m == m * n) by (nonlinear_arith);
        }
        offset = offset + idx * multiplier;
        multiplier = multiplier * n;
        k = j;
    }
    block.min_state_id + offset as u16
}

/// The block has a property named `name`.
pub open spec fn has_property(b: Block, name: Seq<char>) -> bool {
    exists|k: int| 0 <= k < b.properties@.len() && (#[trigger] b.properties@[k]).name@ == name
}

/// The property overrides for placing `b` against face `face` while facing `facing`:
/// its axis set from the face where it has an axis, then its facing where it has one.
pub open spec fn placement_overrides(b: Block, face: u8, facing: Seq<char>) -> Seq<
    (Seq<char>, Seq<char>),
> {
    let a = if has_property(b, "axis"@) {
        seq![("axis"@, axis_of(face))]
    } else {
        Seq::empty()
    };
    let f = if has_property(b, "facing"@) {
        seq![("facing"@, facing)]
    } else {
        Seq::empty()
    };
    a + f
}

/// The views of a list of overrides.
pub open spec fn override_views(o: Seq<(&'static str, &'static str)>) -> Seq<(Seq<char>, Seq<char>)> {
    o.map_values(|p: (&'static str, &'static str)| (p.0@, p.1@))
}

proof fn lemma_override_value_views(
    o1: Seq<(&'static str, &'static str)>,
    o2: Seq<(&'static str, &'static str)>,
    name: Seq<char>,
)
    requires
        override_views(o1) == override_views(o2),
    ensures
        override_value(o1, name) == override_value(o2, name),
    decreases o1.len(),
{
    assert(o1.len() == override_views(o1).len() && o2.len() == override_views(o2).len());
    if o1.len() > 0 {
        assert(override_views(o1)[0] == override_views(o2)[0]);
        assert(override_views(o1.drop_first()) =~= override_views(o2.drop_first())) by {
            assert forall|k: int| 0 <= k < o1.len() - 1 implies override_views(o1.drop_first())[k]
                == override_views(o2.drop_first())[k] by {
                assert(override_views(o1)[k + 1] == override_views(o2)[k + 1]);
            }
        }
        lemma_override_value_views(o1.drop_first(), o2.drop_first(), name);
    }
}

proof fn lemma_offset_views(
    props: Seq<Property>,
    o1: Seq<(&'static str, &'static str)>,
    o2: Seq<(&'static str, &'static str)>,
    d: int,
    from: int,
)
    requires
        override_views(o1) == override_views(o2),
    ensures
        state_offset(props, o1, d, from) == state_offset(props, o2, d, from),
    decreases props.len() - from,
{
    if 0 <= from < props.len() {
        lemma_override_value_views(o1, o2, props[from].name@);
        lemma_offset_views(props, o1, o2, d, from + 1);
    }
}

/// The state a block resolves to depends on the texts of the overrides alone.
pub proof fn lemma_resolved_views(
    b: Block,
    base: int,
    o1: Seq<(&'static str, &'static str)>,
    o2: Seq<(&'static str, &'static str)>,
)
    requires
        override_views(o1) == override_views(o2),
    ensures
        resolved_from(b, base, o1) == resolved_from(b, base, o2),
{
    lemma_offset_views(b.properties@, o1, o2, base - b.min_state_id, 0);
}

proof fn lemma_offset_no_overrides(props: Seq<Property>, d: int, from: int)
    requires
        0 <= from <= props.len(),
        d >= 0,
        forall|i: int| 0 <= i < props.len() ==> radix(#[trigger] props[i]) >= 1,
    ensures
        state_offset(props, Seq::empty(), d, from) == d % radix_product(
            props.subrange(from, props.len() as int),
        ),
    decreases props.len() - from,
{
    let len = props.len() as int;
    if from == len {
        assert(props.subrange(from, len) =~= Seq::<Property>::empty());
        vstd::arithmetic::div_mod::lemma_mod_self_0(1);
        vstd::arithmetic::div_mod::lemma_small_mod(0, 1);
        assert(d % 1 == 0) by (nonlinear_arith);
    } else {
        lemma_offset_no_overrides(props, d, from + 1);
        let s = props.subrange(from, len);
        lemma_product_front(s);
        assert(s.drop_first() =~= props.subrange(from + 1, len));
        assert(s[0] == props[from]);
        let p1 = radix_product(props.subrange(from + 1, len));
        let r = radix(props[from]);
        lemma_suffix_product(props, from + 1);
        vstd::arithmetic::div_mod::lemma_breakdown(d, p1, r);
        assert(r * p1 == p1 * r) by (nonlinear_arith);
        assert(((d / p1) % r) * p1 == p1 * ((d / p1) % r)) by (nonlinear_arith);
    }
}

proof fn lemma_offset_bound(props: Seq<Property>, o: Seq<(&'static str, &'static str)>, d: int, from: int)
    requires
        0 <= from <= props.len(),
        d >= 0,
        forall|i: int| 0 <= i < props.len() ==> radix(#[trigger] props[i]) >= 1
            && props[i].values@.len() <= u32::MAX,
    ensures
        0 <= state_offset(props, o, d, from) < radix_product(props.subrange(from, props.len() as int)),
    decreases props.len() - from,
{
    let len = props.len() as int;
    if from == len {
        assert(props.subrange(from, len) =~= Seq::<Property>::empty());
    } else {
        lemma_offset_bound(props, o, d, from + 1);
        let s = props.subrange(from, len);
        lemma_product_front(s);
        assert(s.drop_first() =~= props.subrange(from + 1, len));
        assert(s[0] == props[from]);
        let p1 = radix_product(props.subrange(from + 1, len));
        let r = radix(props[from]);
        let cd = chosen_digit(props, o, d, from);
        lemma_suffix_product(props, from + 1);
        lemma_value_position_bound(props[from].values@, override_value(o, props[from].name@).unwrap_or(Seq::empty()));
        vstd::arithmetic::div_mod::lemma_div_pos_is_pos(d, p1);
        vstd::arithmetic::div_mod::lemma_mod_bound(d / p1, r);
        assert(0 <= cd < r);
        let rest = state_offset(props, o, d, from + 1);
        assert(0 <= cd * p1 + rest < r * p1) by (nonlinear_arith)
            requires
                0 <= cd < r,
                0 <= rest < p1,
        ;
    }
}

/// Whatever the overrides, a block resolves to one of its own states: its offset from
/// the block's first state is below the number of its states.
pub proof fn lemma_resolve_in_range(b: Block, base: int, o: Seq<(&'static str, &'static str)>)
    requires
        base >= b.min_state_id,
        forall|i: int| 0 <= i < b.properties@.len() ==> radix(#[trigger] b.properties@[i]) >= 1
            && b.properties@[i].values@.len() <= u32::MAX,
        radix_product(b.properties@) <= u16::MAX + 1,
    ensures
        b.min_state_id <= resolved_from(b, base, o) < b.min_state_id + radix_product(b.properties@),
{
    lemma_offset_bound(b.properties@, o, base - b.min_state_id, 0);
    assert(b.properties@.subrange(0, b.properties@.len() as int) =~= b.properties@);
}

proof fn lemma_product_concat(a: Seq<Property>, b: Seq<Property>)
    ensures
        radix_product(a + b) == radix_product(a) * radix_product(b),
    decreases b.len(),
{
    if b.len() == 0 {
        assert(a + b =~= a);
    } else {
        lemma_product_concat(a, b.drop_last());
        assert((a + b).drop_last() =~= a + b.drop_last());
        assert((a + b).last() == b.last());
        let x = radix_product(a);
        let y = radix_product(b.drop_last());
        let z = radix(b.last());
        assert(x * y * z == x * (y * z)) by (nonlinear_arith);
    }
}

proof fn lemma_digit(
    props: Seq<Property>,
    o: Seq<(&'static str, &'static str)>,
    d: int,
    from: int,
    i: int,
)
    requires
        0 <= from <= i < props.len(),
        d >= 0,
        forall|k: int| 0 <= k < props.len() ==> radix(#[trigger] props[k]) >= 1
            && props[k].values@.len() <= u32::MAX,
    ensures
        (state_offset(props, o, d, from) / radix_product(props.subrange(i + 1, props.len() as int)))
            % radix(props[i]) == chosen_digit(props, o, d, i),
    decreases i - from,
{
    let len = props.len() as int;
    let pi1 = radix_product(props.subrange(i + 1, len));
    let p1 = radix_product(props.subrange(from + 1, len));
    let r = radix(props[i]);
    let cd = chosen_digit(props, o, d, from);
    let rest = state_offset(props, o, d, from + 1);
    lemma_suffix_product(props, i + 1);
    lemma_suffix_product(props, from + 1);
    lemma_offset_bound(props, o, d, from + 1);
    lemma_value_position_bound(props[from].values@, override_value(o, props[from].name@).unwrap_or(Seq::empty()));
    vstd::arithmetic::div_mod::lemma_div_pos_is_pos(d, p1);
    vstd::arithmetic::div_mod::lemma_mod_bound(d / p1, radix(props[from]));
    assert(0 <= cd < radix(props[from]));
    assert(state_offset(props, o, d, from) == cd * p1 + rest);
    if i == from {
        vstd::arithmetic::div_mod::lemma_fundamental_div_mod_converse(cd * p1 + rest, p1, cd, rest);
        vstd::arithmetic::div_mod::lemma_small_mod(cd as nat, r as nat);
    } else {
        lemma_digit(props, o, d, from + 1, i);
        // p1 = q * r * pi1, q the product of the radices strictly between from and i
        let mid = props.subrange(from + 1, i);
        let q = radix_product(mid);
        assert(props.subrange(from + 1, len) =~= (mid + seq![props[i]]) + props.subrange(i + 1, len));
        lemma_product_concat(mid + seq![props[i]], props.subrange(i + 1, len));
        lemma_product_concat(mid, seq![props[i]]);
        assert(radix_product(seq![props[i]]) == r) by {
            let s1 = seq![props[i]];
            assert(s1.drop_last() =~= Seq::<Property>::empty());
            assert(s1.last() == props[i]);
            assert(radix_product(s1.drop_last()) == 1);
            assert(radix_product(s1) == radix_product(s1.drop_last()) * radix(s1.last()));
        }
        assert(p1 == (q * r) * pi1);
        lemma_product_positive(mid);
        let x = rest / pi1;
        vstd::arithmetic::div_mod::lemma_div_pos_is_pos(rest, pi1);
        assert(cd * p1 + rest == (cd * q * r) * pi1 + rest) by (nonlinear_arith)
            requires
                p1 == (q * r) * pi1,
        ;
        vstd::arithmetic::div_mod::lemma_hoist_over_denominator(rest, cd * q * r, pi1 as nat);
        assert((cd * p1 + rest) / pi1 == x + cd * q * r);
        assert(x + cd * q * r == r * (cd * q) + x) by (nonlinear_arith);
        vstd::arithmetic::div_mod::lemma_mod_multiples_vanish(cd * q, x, r);
    }
}

/// The state a block resolves to, read as a mixed-radix number from its first state (the
/// last property least significant), gives each property the index of the value the
/// first override naming it gives, where that is one of its values, and else the index
/// it has in the base state.
pub proof fn lemma_resolve_digits(b: Block, base: int, o: Seq<(&'static str, &'static str)>, i: int)
    requires
        base >= b.min_state_id,
        0 <= i < b.properties@.len(),
        forall|k: int| 0 <= k < b.properties@.len() ==> radix(#[trigger] b.properties@[k]) >= 1
            && b.properties@[k].values@.len() <= u32::MAX,
        radix_product(b.properties@) <= u16::MAX + 1,
    ensures
        ((resolved_from(b, base, o) - b.min_state_id) / radix_product(
            b.properties@.subrange(i + 1, b.properties@.len() as int),
        )) % radix(b.properties@[i]) == chosen_digit(b.properties@, o, base - b.min_state_id, i),
{
    let props = b.properties@;
    let d = base - b.min_state_id;
    lemma_offset_bound(props, o, d, 0);
    assert(props.subrange(0, props.len() as int) =~= props);
    let off = state_offset(props, o, d, 0);
    assert((off as u16) as int == off);
    lemma_digit(props, o, d, 0, i);
}

/// With no overrides a block resolves to its default state.
pub proof fn lemma_resolve_default(b: Block)
    requires
        b.default_state >= b.min_state_id,
        forall|i: int| 0 <= i < b.properties@.len() ==> radix(#[trigger] b.properties@[i]) >= 1,
        b.default_state - b.min_state_id < radix_product(b.properties@),
    ensures
        resolved_state(b, Seq::empty()) == b.default_state,
{
    let props = b.properties@;
    let d = b.default_state - b.min_state_id;
    lemma_offset_no_overrides(props, d, 0);
    assert(props.subrange(0, props.len() as int) =~= props);
    vstd::arithmetic::div_mod::lemma_small_mod(d as nat, radix_product(props) as nat);
}

/// The state a block placed against face `face` while facing `facing` takes: its
/// default state with the placement overrides.
pub open spec fn placement_state(b: Block, face: u8, facing: Seq<char>) -> int {
    resolved_state(
        b,
        choose|o: Seq<(&'static str, &'static str)>| override_views(o) == placement_overrides(b, face, facing),
    )
}

fn has_property_named(block: &Block, name: &str) -> (r: bool)
    ensures
        r == has_property(*block, name@),
{
    let mut i: usize = 0;
    while i < block.properties.len()
        invariant
            i <= block.properties@.len(),
            forall|k: int| 0 <= k < i ==> block.properties@[k].name@ != name@,
        decreases block.properties@.len() - i,
    {
        if text_eq(block.properties[i].name.as_str(), name) {
            return true;
        }
        i = i + 1;
    }
    false
}

/// The property overrides for placing `block` against face `face`, `facing` being the
/// direction the block is to face (the opposite of where the player looks).
pub fn compute_overrides(block: &Block, face: u8, facing: &'static str) -> (r: Vec<
    (&'static str, &'static str),
>)
    ensures
        override_views(r@) == placement_overrides(*block, face, facing@),
{
    let mut overrides: Vec<(&'static str, &'static str)> = Vec::new();
    if has_property_named(block, "axis") {
        overrides.push(("axis", face_to_axis(face)));
    }
    if has_property_named(block, "facing") {
        overrides.push(("facing", facing));
    }
    assert(override_views(overrides@) =~= placement_overrides(*block, face, facing@));
    overrides
}

} // verus!
