use vstd::prelude::*;

verus! {

/// A crafting recipe whose items must lie in a fixed pattern, `width` by `height`,
/// anywhere in the grid; cells of the pattern are read row by row, three to a row.
pub struct ShapedRecipe {
    pub pattern: [i32; 9],
    pub width: i32,
    pub height: i32,
    pub result_id: i32,
    pub result_count: i32,
}

/// A crafting recipe whose ingredients may lie anywhere in the grid.
pub struct ShapelessRecipe {
    pub ingredients: Vec<i32>,
    pub result_id: i32,
    pub result_count: i32,
}

pub enum Recipe {
    Shaped(ShapedRecipe),
    Shapeless(ShapelessRecipe),
}

/// The item in cell `k` of a crafting grid, 0 for an empty cell.
pub open spec fn grid_item(grid: Seq<Option<i32>>, k: int) -> i32 {
    match grid[k] {
        Some(v) => v,
        None => 0,
    }
}

/// Cell (`i`, `j`) of an `n`-wide grid agrees with the recipe's pattern laid down with
/// its top-left corner at (`dr`, `dc`): empty outside the pattern, the pattern's item
/// inside it.
pub open spec fn cell_fits(
    grid: Seq<Option<i32>>,
    n: int,
    recipe: ShapedRecipe,
    dr: int,
    dc: int,
    i: int,
    j: int,
) -> bool {
    let g = grid_item(grid, i * n + j);
    let rr = i - dr;
    let rc = j - dc;
    if rr < 0 || rr >= recipe.height || rc < 0 || rc >= recipe.width {
        g == 0
    } else {
        g == recipe.pattern@[rr * 3 + rc]
    }
}

/// Every cell of the `n`-by-`n` grid agrees with the pattern laid down at (`dr`, `dc`).
pub open spec fn fits_at(grid: Seq<Option<i32>>, n: int, recipe: ShapedRecipe, dr: int, dc: int) -> bool {
    forall|i: int, j: int| 0 <= i < n && 0 <= j < n ==> #[trigger] cell_fits(grid, n, recipe, dr, dc, i, j)
}

/// The last offset at which a pattern `d` cells long is tried along an `n`-cell side: the
/// room left beside it, none where it does not fit or its length is negative.
pub open spec fn offset_limit(n: int, d: i32) -> int {
    if 0 <= d <= n {
        n - d
    } else {
        0
    }
}

/// The shaped recipe fits the `n`-by-`n` grid at some offset.
pub open spec fn shaped_matches(grid: Seq<Option<i32>>, n: int, recipe: ShapedRecipe) -> bool {
    exists|dr: int, dc: int|
        0 <= dr <= offset_limit(n, recipe.height) && 0 <= dc <= offset_limit(n, recipe.width)
            && #[trigger] fits_at(grid, n, recipe, dr, dc)
}

/// Number of times `v` occurs in `s`.
pub open spec fn occurrences(s: Seq<i32>, v: i32) -> nat
    decreases s.len(),
{
    if s.len() == 0 {
        0
    } else {
        occurrences(s.drop_last(), v) + if s.last() == v {
            1nat
        } else {
            0nat
        }
    }
}

/// The items of the grid's filled cells, in cell order.
pub open spec fn grid_items(grid: Seq<Option<i32>>) -> Seq<i32>
    decreases grid.len(),
{
    if grid.len() == 0 {
        Seq::empty()
    } else {
        match grid.last() {
            Some(v) => grid_items(grid.drop_last()).push(v),
            None => grid_items(grid.drop_last()),
        }
    }
}

/// The grid's filled cells hold exactly the recipe's ingredients, each as often.
pub open spec fn shapeless_matches(grid: Seq<Option<i32>>, recipe: ShapelessRecipe) -> bool {
    forall|v: i32| occurrences(grid_items(grid), v) == occurrences(recipe.ingredients@, v)
}

/// A recipe fits an `n`-by-`n` crafting grid: a shapeless one by its ingredients, a
/// shaped one when its pattern is at most `n` by `n` and fits at some offset.
pub open spec fn recipe_matches(recipe: Recipe, grid: Seq<Option<i32>>, n: int) -> bool {
    match recipe {
        Recipe::Shapeless(r) => shapeless_matches(grid, r),
        Recipe::Shaped(r) => r.width <= n && r.height <= n && shaped_matches(grid, n, r),
    }
}

/// The item and count that crafting a recipe gives, the count cut to a byte.
pub open spec fn recipe_result(recipe: Recipe) -> (i32, u8) {
    match recipe {
        Recipe::Shapeless(r) => (r.result_id, r.result_count as u8),
        Recipe::Shaped(r) => (r.result_id, r.result_count as u8),
    }
}

/// What crafting in an `n`-by-`n` grid gives: the result of the first recipe that fits,
/// none where no recipe fits.
pub open spec fn crafted(recipes: Seq<Recipe>, grid: Seq<Option<i32>>, n: int) -> Option<(i32, u8)>
    decreases recipes.len(),
{
    if recipes.len() == 0 {
        None
    } else if recipe_matches(recipes[0], grid, n) {
        Some(recipe_result(recipes[0]))
    } else {
        crafted(recipes.drop_first(), grid, n)
    }
}

proof fn lemma_occurrences_absent(s: Seq<i32>, v: i32)
    requires
        !s.contains(v),
    ensures
        occurrences(s, v) == 0,
    decreases s.len(),
{
    if s.len() > 0 {
        assert(!s.drop_last().contains(v)) by {
            if s.drop_last().contains(v) {
                let k = choose|k: int| 0 <= k < s.drop_last().len() && s.drop_last()[k] == v;
                assert(s[k] == v);
            }
        }
        lemma_occurrences_absent(s.drop_last(), v);
    }
}

fn count_in(s: &Vec<i32>, v: i32) -> (c: usize)
    ensures
        c == occurrences(s@, v),
{
    let mut c: usize = 0;
    let mut i: usize = 0;
    while i < s.len()
        invariant
            i <= s@.len(),
            c == occurrences(s@.subrange(0, i as int), v),
            c <= i,
        decreases s@.len() - i,
    {
        assert(s@.subrange(0, i + 1).drop_last() =~= s@.subrange(0, i as int));
        if s[i] == v {
            c = c + 1;
        }
        i = i + 1;
    }
    assert(s@.subrange(0, i as int) =~= s@);
    c
}

fn collect_items(grid: &[Option<i32>]) -> (r: Vec<i32>)
    ensures
        r@ == grid_items(grid@),
{
    let mut r: Vec<i32> = Vec::new();
    let mut i: usize = 0;
    while i < grid.len()
        invariant
            i <= grid@.len(),
            r@ == grid_items(grid@.subrange(0, i as int)),
        decreases grid@.len() - i,
    {
        assert(grid@.subrange(0, i + 1).drop_last() =~= grid@.subrange(0, i as int));
        match grid[i] {
            Some(v) => r.push(v),
            None => {},
        }
        i = i + 1;
    }
    assert(grid@.subrange(0, i as int) =~= grid@);
    r
}

/// Every item of `a` occurs in `a` and in `b` equally often.
fn counts_agree(a: &Vec<i32>, b: &Vec<i32>) -> (r: bool)
    ensures
        r <==> forall|k: int| 0 <= k < a@.len() ==> occurrences(a@, a@[k]) == occurrences(b@, a@[k]),
{
    let mut k: usize = 0;
    while k < a.len()
        invariant
            k <= a@.len(),
            forall|j: int| 0 <= j < k ==> occurrences(a@, a@[j]) == occurrences(b@, a@[j]),
        decreases a@.len() - k,
    {
        if count_in(a, a[k]) != count_in(b, a[k]) {
            return false;
        }
        k = k + 1;
    }
    true
}

/// The grid's filled cells hold exactly the recipe's ingredients.
pub fn match_shapeless(grid: &[Option<i32>], recipe: &ShapelessRecipe) -> (r: bool)
    ensures
        r == shapeless_matches(grid@, *recipe),
{
    let items = collect_items(grid);
    let ingredients = &recipe.ingredients;
    let r = counts_agree(&items, ingredients) && counts_agree(ingredients, &items);
    proof {
        if r {
            assert forall|v: i32| occurrences(items@, v) == occurrences(ingredients@, v) by {
                if items@.contains(v) {
                    let k = choose|k: int| 0 <= k < items@.len() && items@[k] == v;
                } else if ingredients@.contains(v) {
                    let k = choose|k: int| 0 <= k < ingredients@.len() && ingredients@[k] == v;
                } else {
                    lemma_occurrences_absent(items@, v);
                    lemma_occurrences_absent(ingredients@, v);
                }
            }
        } else {
            if !counts_agree_spec(items@, ingredients@) {
                let k = choose|k: int|
                    0 <= k < items@.len() && occurrences(items@, items@[k]) != occurrences(
                        ingredients@,
                        items@[k],
                    );
                assert(occurrences(grid_items(grid@), items@[k]) != occurrences(
                    recipe.ingredients@,
                    items@[k],
                ));
            } else {
                let k = choose|k: int|
                    0 <= k < ingredients@.len() && occurrences(ingredients@, ingredients@[k])
                        != occurrences(items@, ingredients@[k]);
                assert(occurrences(grid_items(grid@), ingredients@[k]) != occurrences(
                    recipe.ingredients@,
                    ingredients@[k],
                ));
            }
        }
    }
    r
}

/// The pattern laid down at (`dr`, `dc`) agrees with every cell of the `n`-by-`n` grid.
fn shaped_fits(grid: &[Option<i32>], n: usize, recipe: &ShapedRecipe, dr: usize, dc: usize) -> (r:
    bool)
    requires
        1 <= n <= 3,
        grid@.len() == n * n,
        dr <= n,
        dc <= n,
    ensures
        r == fits_at(grid@, n as int, *recipe, dr as int, dc as int),
{
    let mut i: usize = 0;
    while i < n
        invariant
            i <= n <= 3,
            dr <= n,
            dc <= n,
            grid@.len() == n * n,
            forall|i2: int, j2: int|
                0 <= i2 < i && 0 <= j2 < n ==> #[trigger] cell_fits(
                    grid@,
                    n as int,
                    *recipe,
                    dr as int,
                    dc as int,
                    i2,
                    j2,
                ),
        decreases n - i,
    {
        let mut j: usize = 0;
        while j < n
            invariant
                i < n <= 3,
                j <= n,
                dr <= n,
                dc <= n,
                grid@.len() == n * n,
                forall|i2: int, j2: int|
                    0 <= i2 < i && 0 <= j2 < n ==> #[trigger] cell_fits(
                        grid@,
                        n as int,
                        *recipe,
                        dr as int,
                        dc as int,
                        i2,
                        j2,
                    ),
                forall|j2: int|
                    0 <= j2 < j ==> #[trigger] cell_fits(
                        grid@,
                        n as int,
                        *recipe,
                        dr as int,
                        dc as int,
                        i as int,
                        j2,
                    ),
            decreases n - j,
        {
            assert(i * n + j < n * n && n * n <= 9) by (nonlinear_arith)
                requires
                    i < n,
                    j < n,
                    n <= 3,
            ;
            let grid_item = match grid[i * n + j] {
                Some(v) => v,
                None => 0,
            };
            let recipe_row = i as i32 - dr as i32;
            let recipe_col = j as i32 - dc as i32;
            let ok = if recipe_row < 0 || recipe_row >= recipe.height || recipe_col < 0
                || recipe_col >= recipe.width {
                grid_item == 0
            } else {
                grid_item == recipe.pattern[(recipe_row * 3 + recipe_col) as usize]
            };
            if !ok {
                assert(!cell_fits(grid@, n as int, *recipe, dr as int, dc as int, i as int, j as int));
                return false;
            }
            j = j + 1;
        }
        i = i + 1;
    }
    true
}

/// Tries the shaped recipe at every offset of an `n`-by-`n` grid.
fn shaped_matches_exec(grid: &[Option<i32>], n: usize, recipe: &ShapedRecipe) -> (r: bool)
    requires
        1 <= n <= 3,
        grid@.len() == n * n,
    ensures
        r == shaped_matches(grid@, n as int, *recipe),
{
    let row_limit: usize = if 0 <= recipe.height && recipe.height <= n as i32 {
        n - recipe.height as usize
    } else {
        0
    };
    let col_limit: usize = if 0 <= recipe.width && recipe.width <= n as i32 {
        n - recipe.width as usize
    } else {
        0
    };
    let mut r: usize = 0;
    while r <= row_limit
        invariant
            1 <= n <= 3,
            grid@.len() == n * n,
            row_limit == offset_limit(n as int, recipe.height),
            col_limit == offset_limit(n as int, recipe.width),
            row_limit <= n,
            col_limit <= n,
            r <= row_limit + 1,
            forall|dr: int, dc: int|
                0 <= dr < r && 0 <= dc <= col_limit ==> !#[trigger] fits_at(
                    grid@,
                    n as int,
                    *recipe,
                    dr,
                    dc,
                ),
        decreases row_limit + 1 - r,
    {
        let mut c: usize = 0;
        while c <= col_limit
            invariant
                1 <= n <= 3,
                grid@.len() == n * n,
                row_limit == offset_limit(n as int, recipe.height),
                col_limit == offset_limit(n as int, recipe.width),
                row_limit <= n,
                col_limit <= n,
                r <= row_limit,
                c <= col_limit + 1,
                forall|dr: int, dc: int|
                    0 <= dr < r && 0 <= dc <= col_limit ==> !#[trigger] fits_at(
                        grid@,
                        n as int,
                        *recipe,
                        dr,
                        dc,
                    ),
                forall|dc: int|
                    0 <= dc < c ==> !#[trigger] fits_at(grid@, n as int, *recipe, r as int, dc),
            decreases col_limit + 1 - c,
        {
            if shaped_fits(grid, n, recipe, r, c) {
                assert(fits_at(grid@, n as int, *recipe, r as int, c as int));
                return true;
            }
            c = c + 1;
        }
        r = r + 1;
    }
    assert(forall|dr: int, dc: int|
        0 <= dr <= offset_limit(n as int, recipe.height) && 0 <= dc <= offset_limit(
            n as int,
            recipe.width,
        ) ==> !#[trigger] fits_at(grid@, n as int, *recipe, dr, dc));
    false
}

/// The shaped recipe fits the 2x2 grid at some offset.
pub fn match_2x2_shaped(grid: &[Option<i32>; 4], recipe: &ShapedRecipe) -> (r: bool)
    ensures
        r == shaped_matches(grid@, 2, *recipe),
{
    shaped_matches_exec(grid.as_slice(), 2, recipe)
}

/// The shaped recipe fits the 3x3 grid at some offset.
pub fn match_3x3_shaped(grid: &[Option<i32>; 9], recipe: &ShapedRecipe) -> (r: bool)
    ensures
        r == shaped_matches(grid@, 3, *recipe),
{
    shaped_matches_exec(grid.as_slice(), 3, recipe)
}

fn recipe_matches_exec(recipe: &Recipe, grid: &[Option<i32>], n: usize) -> (r: bool)
    requires
        1 <= n <= 3,
        grid@.len() == n * n,
    ensures
        r == recipe_matches(*recipe, grid@, n as int),
{
    match recipe {
        Recipe::Shapeless(r) => match_shapeless(grid, r),
        Recipe::Shaped(r) => {
            if r.width <= n as i32 && r.height <= n as i32 {
                shaped_matches_exec(grid, n, r)
            } else {
                false
            }
        },
    }
}

fn first_crafted(recipes: &[Recipe], grid: &[Option<i32>], n: usize) -> (r: Option<(i32, u8)>)
    requires
        1 <= n <= 3,
        grid@.len() == n * n,
    ensures
        r == crafted(recipes@, grid@, n as int),
{
    let mut k: usize = 0;
    assert(recipes@.subrange(0, recipes@.len() as int) =~= recipes@);
    while k < recipes.len()
        invariant
            1 <= n <= 3,
            grid@.len() == n * n,
            k <= recipes@.len(),
            crafted(recipes@, grid@, n as int) == crafted(
                recipes@.subrange(k as int, recipes@.len() as int),
                grid@,
                n as int,
            ),
        decreases recipes@.len() - k,
    {
        let ghost rest = recipes@.subrange(k as int, recipes@.len() as int);
        assert(rest[0] == recipes@[k as int]);
        assert(rest.drop_first() =~= recipes@.subrange(k + 1, recipes@.len() as int));
        let recipe = &recipes[k];
        if recipe_matches_exec(recipe, grid, n) {
            return match recipe {
                Recipe::Shapeless(r) => Some((r.result_id, r.result_count as u8)),
                Recipe::Shaped(r) => Some((r.result_id, r.result_count as u8)),
            };
        }
        k = k + 1;
    }
    None
}

/// What the 2x2 crafting grid of the inventory makes: the result of the first recipe in
/// `recipes` that fits it (a shaped one only when it is at most 2x2).
pub fn check_2x2(recipes: &[Recipe], grid: &[Option<i32>; 4]) -> (r: Option<(i32, u8)>)
    ensures
        r == crafted(recipes@, grid@, 2),
{
    first_crafted(recipes, grid.as_slice(), 2)
}

/// What the 3x3 grid of a crafting table makes: the result of the first recipe in
/// `recipes` that fits it.
pub fn check_3x3(recipes: &[Recipe], grid: &[Option<i32>; 9]) -> (r: Option<(i32, u8)>)
    ensures
        r == crafted(recipes@, grid@, 3),
{
    first_crafted(recipes, grid.as_slice(), 3)
}

spec fn counts_agree_spec(a: Seq<i32>, b: Seq<i32>) -> bool {
    forall|k: int| 0 <= k < a.len() ==> occurrences(a, a[k]) == occurrences(b, a[k])
}

/// `g2` is the 3x3 grid `g` moved `a` rows down and `b` columns right, no item falling
/// off the grid.
pub open spec fn moved(g: Seq<Option<i32>>, g2: Seq<Option<i32>>, a: int, b: int) -> bool {
    &&& g.len() == 9
    &&& g2.len() == 9
    &&& forall|i: int, j: int|
        0 <= i < 3 && 0 <= j < 3 ==> #[trigger] cell(g2, i, j) == (if 0 <= i - a < 3 && 0 <= j - b < 3 {
            cell(g, i - a, j - b)
        } else {
            None
        })
    &&& forall|i: int, j: int|
        0 <= i < 3 && 0 <= j < 3 && (#[trigger] cell(g, i, j)) is Some ==> 0 <= i + a < 3 && 0 <= j
            + b < 3
}

/// Cell (`i`, `j`) of a 3x3 grid.
pub open spec fn cell(g: Seq<Option<i32>>, i: int, j: int) -> Option<i32> {
    g[i * 3 + j]
}

/// A shaped recipe's pattern is trimmed: at most 3x3, with an item in its first and last
/// row and in its first and last column.
pub open spec fn trimmed(r: ShapedRecipe) -> bool {
    &&& 1 <= r.width <= 3
    &&& 1 <= r.height <= 3
    &&& exists|c: int| 0 <= c < r.width && #[trigger] r.pattern@[c] != 0
    &&& exists|c: int| 0 <= c < r.width && #[trigger] r.pattern@[(r.height - 1) * 3 + c] != 0
    &&& exists|k: int| 0 <= k < r.height && #[trigger] r.pattern@[k * 3] != 0
    &&& exists|k: int| 0 <= k < r.height && #[trigger] r.pattern@[k * 3 + r.width - 1] != 0
}

proof fn lemma_fit_moves(g: Seq<Option<i32>>, g2: Seq<Option<i32>>, a: int, b: int, r: ShapedRecipe, dr: int, dc: int)
    requires
        moved(g, g2, a, b),
        trimmed(r),
        0 <= dr <= 3 - r.height,
        0 <= dc <= 3 - r.width,
        fits_at(g, 3, r, dr, dc),
    ensures
        0 <= dr + a <= 3 - r.height,
        0 <= dc + b <= 3 - r.width,
        fits_at(g2, 3, r, dr + a, dc + b),
{
    let c0 = choose|c: int| 0 <= c < r.width && #[trigger] r.pattern@[c] != 0;
    let c1 = choose|c: int| 0 <= c < r.width && #[trigger] r.pattern@[(r.height - 1) * 3 + c] != 0;
    let k0 = choose|k: int| 0 <= k < r.height && #[trigger] r.pattern@[k * 3] != 0;
    let k1 = choose|k: int| 0 <= k < r.height && #[trigger] r.pattern@[k * 3 + r.width - 1] != 0;
    assert(cell_fits(g, 3, r, dr, dc, dr, dc + c0));
    assert(cell(g, dr, dc + c0) is Some);
    assert(cell_fits(g, 3, r, dr, dc, dr + r.height - 1, dc + c1));
    assert(cell(g, dr + r.height - 1, dc + c1) is Some) by {
        assert(((dr + r.height - 1) - dr) * 3 + (dc + c1 - dc) == (r.height - 1) * 3 + c1);
    }
    assert(cell_fits(g, 3, r, dr, dc, dr + k0, dc));
    assert(cell(g, dr + k0, dc) is Some);
    assert(cell_fits(g, 3, r, dr, dc, dr + k1, dc + r.width - 1));
    assert(cell(g, dr + k1, dc + r.width - 1) is Some);
    assert forall|i: int, j: int| 0 <= i < 3 && 0 <= j < 3 implies #[trigger] cell_fits(
        g2,
        3,
        r,
        dr + a,
        dc + b,
        i,
        j,
    ) by {
        assert(cell(g2, i, j) == (if 0 <= i - a < 3 && 0 <= j - b < 3 {
            cell(g, i - a, j - b)
        } else {
            None
        }));
        if 0 <= i - a < 3 && 0 <= j - b < 3 {
            assert(cell_fits(g, 3, r, dr, dc, i - a, j - b));
        }
    }
}

/// The number of cells of the 3x3 grid that hold `v`.
pub open spec fn cells_holding(g: Seq<Option<i32>>, v: i32) -> int {
    (if g[0] == Some(v) { 1int } else { 0 }) + (if g[1] == Some(v) { 1int } else { 0 }) + (if g[2]
        == Some(v) { 1int } else { 0 }) + (if g[3] == Some(v) { 1int } else { 0 }) + (if g[4]
        == Some(v) { 1int } else { 0 }) + (if g[5] == Some(v) { 1int } else { 0 }) + (if g[6]
        == Some(v) { 1int } else { 0 }) + (if g[7] == Some(v) { 1int } else { 0 }) + (if g[8]
        == Some(v) { 1int } else { 0 })
}

proof fn lemma_items_count(g: Seq<Option<i32>>, v: i32)
    requires
        g.len() == 9,
    ensures
        occurrences(grid_items(g), v) == cells_holding(g, v),
{
    lemma_count_prefix(g, v, 9);
    assert(g.subrange(0, 9) =~= g);
    reveal_with_fuel(count_prefix, 10);
}

/// The number of cells among the first `k` that hold `v`.
pub open spec fn count_prefix(g: Seq<Option<i32>>, v: i32, k: int) -> int
    decreases k,
{
    if k <= 0 {
        0
    } else {
        count_prefix(g, v, k - 1) + if g[k - 1] == Some(v) { 1int } else { 0 }
    }
}

proof fn lemma_count_prefix(g: Seq<Option<i32>>, v: i32, k: int)
    requires
        0 <= k <= g.len(),
    ensures
        occurrences(grid_items(g.subrange(0, k)), v) == count_prefix(g, v, k),
    decreases k,
{
    if k > 0 {
        lemma_count_prefix(g, v, k - 1);
        let s = g.subrange(0, k);
        assert(s.drop_last() =~= g.subrange(0, k - 1));
        assert(s.last() == g[k - 1]);
        match g[k - 1] {
            Some(w) => {
                assert(grid_items(s) == grid_items(s.drop_last()).push(w));
                assert(grid_items(s).drop_last() =~= grid_items(s.drop_last()));
            },
            None => {},
        }
    }
}

proof fn lemma_cells_moved(g: Seq<Option<i32>>, g2: Seq<Option<i32>>, a: int, b: int, v: i32)
    requires
        moved(g, g2, a, b),
    ensures
        cells_holding(g2, v) == cells_holding(g, v),
{
    assert(cell(g2, 0, 0) == g2[0] && cell(g2, 0, 1) == g2[1] && cell(g2, 0, 2) == g2[2]);
    assert(cell(g2, 1, 0) == g2[3] && cell(g2, 1, 1) == g2[4] && cell(g2, 1, 2) == g2[5]);
    assert(cell(g2, 2, 0) == g2[6] && cell(g2, 2, 1) == g2[7] && cell(g2, 2, 2) == g2[8]);
    assert(cell(g, 0, 0) == g[0] && cell(g, 0, 1) == g[1] && cell(g, 0, 2) == g[2]);
    assert(cell(g, 1, 0) == g[3] && cell(g, 1, 1) == g[4] && cell(g, 1, 2) == g[5]);
    assert(cell(g, 2, 0) == g[6] && cell(g, 2, 1) == g[7] && cell(g, 2, 2) == g[8]);
}

#[verifier::rlimit(40)]
proof fn lemma_moved_back(g: Seq<Option<i32>>, g2: Seq<Option<i32>>, a: int, b: int)
    requires
        moved(g, g2, a, b),
    ensures
        moved(g2, g, -a, -b),
{
    assert forall|i: int, j: int| 0 <= i < 3 && 0 <= j < 3 implies #[trigger] cell(g, i, j) == (if 0
        <= i + a < 3 && 0 <= j + b < 3 {
        cell(g2, i + a, j + b)
    } else {
        None
    }) by {
        if 0 <= i + a < 3 && 0 <= j + b < 3 {
            assert(cell(g2, i + a, j + b) == (if 0 <= (i + a) - a < 3 && 0 <= (j + b) - b < 3 {
                cell(g, (i + a) - a, (j + b) - b)
            } else {
                None
            }));
            assert((i + a) - a == i && (j + b) - b == j);
        } else {
            if cell(g, i, j) is Some {
                assert(0 <= i + a < 3 && 0 <= j + b < 3);
            }
        }
    }
    assert forall|i: int, j: int| 0 <= i < 3 && 0 <= j < 3 && (#[trigger] cell(g2, i, j)) is Some implies 0
        <= i - a < 3 && 0 <= j - b < 3 by {
        assert(cell(g2, i, j) == (if 0 <= i - a < 3 && 0 <= j - b < 3 {
            cell(g, i - a, j - b)
        } else {
            None
        }));
    }
}

proof fn lemma_recipe_moved(r: Recipe, g: Seq<Option<i32>>, g2: Seq<Option<i32>>, a: int, b: int)
    requires
        moved(g, g2, a, b),
        r matches Recipe::Shaped(sr) ==> trimmed(sr),
    ensures
        recipe_matches(r, g2, 3) == recipe_matches(r, g, 3),
{
    lemma_moved_back(g, g2, a, b);
    match r {
        Recipe::Shapeless(sl) => {
            assert forall|v: i32| occurrences(grid_items(g2), v) == occurrences(grid_items(g), v) by {
                lemma_items_count(g, v);
                lemma_items_count(g2, v);
                lemma_cells_moved(g, g2, a, b, v);
            }
        },
        Recipe::Shaped(sr) => {
            if shaped_matches(g, 3, sr) {
                let (dr, dc) = choose|dr: int, dc: int|
                    0 <= dr <= offset_limit(3, sr.height) && 0 <= dc <= offset_limit(3, sr.width)
                        && #[trigger] fits_at(g, 3, sr, dr, dc);
                lemma_fit_moves(g, g2, a, b, sr, dr, dc);
                assert(fits_at(g2, 3, sr, dr + a, dc + b));
            }
            if shaped_matches(g2, 3, sr) {
                let (dr, dc) = choose|dr: int, dc: int|
                    0 <= dr <= offset_limit(3, sr.height) && 0 <= dc <= offset_limit(3, sr.width)
                        && #[trigger] fits_at(g2, 3, sr, dr, dc);
                lemma_fit_moves(g2, g, -a, -b, sr, dr, dc);
                assert(fits_at(g, 3, sr, dr - a, dc - b));
            }
        },
    }
}

/// Crafting in a 3x3 grid does not depend on where in the grid the items lie: moving
/// them all, none falling off, gives the same result, where every shaped recipe is
/// trimmed.
pub proof fn lemma_crafted_moved(recipes: Seq<Recipe>, g: Seq<Option<i32>>, g2: Seq<Option<i32>>, a: int, b: int)
    requires
        moved(g, g2, a, b),
        forall|k: int| 0 <= k < recipes.len() ==> (#[trigger] recipes[k] matches Recipe::Shaped(sr) ==> trimmed(sr)),
    ensures
        crafted(recipes, g2, 3) == crafted(recipes, g, 3),
    decreases recipes.len(),
{
    if recipes.len() > 0 {
        assert(recipes[0] matches Recipe::Shaped(sr) ==> trimmed(sr));
        lemma_recipe_moved(recipes[0], g, g2, a, b);
        assert forall|k: int| 0 <= k < recipes.drop_first().len() implies (#[trigger] recipes.drop_first()[k] matches Recipe::Shaped(sr) ==> trimmed(sr)) by {
            assert(recipes.drop_first()[k] == recipes[k + 1]);
        }
        lemma_crafted_moved(recipes.drop_first(), g, g2, a, b);
    }
}

} // verus!
