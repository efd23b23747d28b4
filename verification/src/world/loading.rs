use vstd::prelude::*;

verus! {

/// How far around its center a player's loaded area reaches, in chunks: half the width
/// `2 * view_distance + 7`, rounded down.
pub fn chunk_radius(view_distance: u8) -> (r: i32)
    ensures
        r == (2 * view_distance + 7) / 2,
{
    (view_distance as i32 * 2 + 7) / 2
}

/// Cell `c` lies in the square of the given radius around `center`.
pub open spec fn in_square(center: (i32, i32), radius: i32, c: (i32, i32)) -> bool {
    center.0 - radius <= c.0 <= center.0 + radius && center.1 - radius <= c.1 <= center.1 + radius
}

/// The chunk coordinates stay far enough from the ends of `i32` for the square's bounds.
pub open spec fn square_fits(center: (i32, i32), radius: i32) -> bool {
    &&& 0 <= radius <= 0x4000
    &&& -0x4000_0000 <= center.0 <= 0x4000_0000
    &&& -0x4000_0000 <= center.1 <= 0x4000_0000
}

/// The cells of the square around `center`, row by row: x from low to high, and within a
/// row z from low to high.
pub open spec fn square_cells(center: (i32, i32), radius: i32) -> Seq<(i32, i32)> {
    let w = 2 * radius + 1;
    Seq::new(
        (w * w) as nat,
        |k: int| ((center.0 - radius + k / w) as i32, (center.1 - radius + k % w) as i32),
    )
}

/// The squared distance between two cells.
pub open spec fn dist2(c: (i32, i32), center: (i32, i32)) -> int {
    (c.0 - center.0) * (c.0 - center.0) + (c.1 - center.1) * (c.1 - center.1)
}

/// The cells of the square around `center` that the square around `last` does not hold,
/// in the square's row order.
pub open spec fn new_cells(last: (i32, i32), center: (i32, i32), radius: i32) -> Seq<(i32, i32)> {
    square_cells(center, radius).filter(|c: (i32, i32)| !in_square(last, radius, c))
}

proof fn lemma_square_index(center: (i32, i32), radius: i32, i: int, j: int)
    requires
        square_fits(center, radius),
        0 <= i < 2 * radius + 1,
        0 <= j < 2 * radius + 1,
    ensures
        ({
            let w = 2 * radius + 1;
            let k = i * w + j;
            &&& 0 <= k < w * w
            &&& k / w == i
            &&& k % w == j
        }),
{
    let w = 2 * radius + 1;
    assert(0 <= i * w + j < w * w) by (nonlinear_arith)
        requires
            0 <= i < w,
            0 <= j < w,
    ;
    vstd::arithmetic::div_mod::lemma_fundamental_div_mod_converse(i * w + j, w, i, j);
}

/// The cells of the square around `center` that the square around `last` does not hold,
/// in row order: those a player's client still needs after moving its center.
pub fn cells_to_load(last: (i32, i32), center: (i32, i32), radius: i32) -> (r: Vec<(i32, i32)>)
    requires
        square_fits(center, radius),
        square_fits(last, radius),
    ensures
        r@ == new_cells(last, center, radius),
{
    let w = 2 * radius + 1;
    let ghost all = square_cells(center, radius);
    let mut out: Vec<(i32, i32)> = Vec::new();
    let mut i: i32 = 0;
    assert(all.subrange(0, 0).filter(|c: (i32, i32)| !in_square(last, radius, c)) =~= Seq::<
        (i32, i32),
    >::empty());
    while i < w
        invariant
            square_fits(center, radius),
            square_fits(last, radius),
            w == 2 * radius + 1,
            all == square_cells(center, radius),
            0 <= i <= w,
            out@ == all.subrange(0, i * w).filter(|c: (i32, i32)| !in_square(last, radius, c)),
        decreases w - i,
    {
        let mut j: i32 = 0;
        while j < w
            invariant
                square_fits(center, radius),
                square_fits(last, radius),
                w == 2 * radius + 1,
                all == square_cells(center, radius),
                0 <= i < w,
                0 <= j <= w,
                out@ == all.subrange(0, i * w + j).filter(
                    |c: (i32, i32)| !in_square(last, radius, c),
                ),
            decreases w - j,
        {
            let cx = center.0 - radius + i;
            let cz = center.1 - radius + j;
            proof {
                lemma_square_index(center, radius, i as int, j as int);
                let k = i * w + j;
                assert(all[k] == (cx, cz));
                assert(all.subrange(0, k + 1).drop_last() =~= all.subrange(0, k));
                assert(all.subrange(0, k + 1).last() == (cx, cz));
                all.subrange(0, k).lemma_filter_push(
                    (cx, cz),
                    |c: (i32, i32)| !in_square(last, radius, c),
                );
                assert(all.subrange(0, k).push((cx, cz)) =~= all.subrange(0, k + 1));
            }
            let inside = last.0 - radius <= cx && cx <= last.0 + radius && last.1 - radius <= cz
                && cz <= last.1 + radius;
            if !inside {
                out.push((cx, cz));
            }
            j = j + 1;
        }
        assert(i * w + w == (i + 1) * w) by (nonlinear_arith);
        i = i + 1;
    }
    assert(all.subrange(0, w * w) =~= all) by {
        assert(all.len() == w * w);
    }
    out
}

/// The number of cells of `s` no farther from `center` than distance² `k`.
pub open spec fn count_within(s: Seq<(i32, i32)>, center: (i32, i32), k: int) -> nat
    decreases s.len(),
{
    if s.len() == 0 {
        0
    } else {
        count_within(s.drop_last(), center, k) + if dist2(s.last(), center) <= k {
            1nat
        } else {
            0nat
        }
    }
}

/// The cells ordered by their distance from `center`, nearest first, cells at equal
/// distance in their order in `s`: each cell is placed after every earlier one that is
/// no farther.
pub open spec fn by_distance(s: Seq<(i32, i32)>, center: (i32, i32)) -> Seq<(i32, i32)>
    decreases s.len(),
{
    if s.len() == 0 {
        s
    } else {
        let t = by_distance(s.drop_last(), center);
        t.insert(count_within(t, center, dist2(s.last(), center)) as int, s.last())
    }
}

/// The cells are in order of distance from `center`.
pub open spec fn nearest_first(s: Seq<(i32, i32)>, center: (i32, i32)) -> bool {
    forall|i: int, j: int| 0 <= i < j < s.len() ==> dist2(s[i], center) <= dist2(s[j], center)
}

/// All cells lie within 30000 chunks of `center` on both axes.
pub open spec fn near(s: Seq<(i32, i32)>, center: (i32, i32)) -> bool {
    forall|i: int|
        0 <= i < s.len() ==> -30000 <= (#[trigger] s[i]).0 - center.0 <= 30000 && -30000 <= s[i].1
            - center.1 <= 30000
}

proof fn lemma_count_prefix(t: Seq<(i32, i32)>, center: (i32, i32), k: int, j: int)
    requires
        nearest_first(t, center),
        0 <= j <= t.len(),
        forall|m: int| 0 <= m < j ==> dist2(#[trigger] t[m], center) <= k,
        j < t.len() ==> dist2(t[j], center) > k,
    ensures
        count_within(t, center, k) == j,
    decreases t.len(),
{
    if t.len() > 0 {
        let u = t.drop_last();
        assert(nearest_first(u, center));
        if j == t.len() {
            lemma_count_prefix(u, center, k, j - 1);
        } else {
            assert(dist2(t.last(), center) > k) by {
                if j < t.len() - 1 {
                    assert(dist2(t[j], center) <= dist2(t[t.len() - 1], center));
                }
            }
            lemma_count_prefix(u, center, k, j);
        }
    }
}

fn dist(c: (i32, i32), center: (i32, i32)) -> (r: i64)
    requires
        -30000 <= c.0 - center.0 <= 30000,
        -30000 <= c.1 - center.1 <= 30000,
    ensures
        r == dist2(c, center),
{
    let dx = (c.0 - center.0) as i64;
    let dz = (c.1 - center.1) as i64;
    assert(0 <= dx * dx <= 900_000_000) by (nonlinear_arith)
        requires
            -30000 <= dx <= 30000,
    ;
    assert(0 <= dz * dz <= 900_000_000) by (nonlinear_arith)
        requires
            -30000 <= dz <= 30000,
    ;
    let a = dx * dx;
    let b = dz * dz;
    a + b
}

/// Orders cells nearest to `center` first, keeping the order of cells at equal distance
/// (the order a stable sort by squared distance gives).
pub fn sort_by_distance(cells: &[(i32, i32)], center: (i32, i32)) -> (r: Vec<(i32, i32)>)
    requires
        near(cells@, center),
    ensures
        r@ == by_distance(cells@, center),
        nearest_first(r@, center),
        r@.to_multiset() == cells@.to_multiset(),
{
    broadcast use vstd::seq_lib::to_multiset_insert;

    let mut out: Vec<(i32, i32)> = Vec::new();
    let mut i: usize = 0;
    assert(cells@.subrange(0, 0) =~= Seq::<(i32, i32)>::empty());
    while i < cells.len()
        invariant
            i <= cells@.len(),
            near(cells@, center),
            out@ == by_distance(cells@.subrange(0, i as int), center),
            nearest_first(out@, center),
            near(out@, center),
            out@.to_multiset() == cells@.subrange(0, i as int).to_multiset(),
        decreases cells@.len() - i,
    {
        let x = cells[i];
        let kx = dist(x, center);
        let mut j: usize = 0;
        while j < out.len() && dist(out[j], center) <= kx
            invariant
                j <= out@.len(),
                near(out@, center),
                kx == dist2(x, center),
                forall|m: int| 0 <= m < j ==> dist2(#[trigger] out@[m], center) <= kx,
            decreases out@.len() - j,
        {
            j = j + 1;
        }
        let ghost t = out@;
        proof {
            lemma_count_prefix(t, center, kx as int, j as int);
            let s = cells@.subrange(0, i + 1);
            assert(s.drop_last() =~= cells@.subrange(0, i as int));
            assert(s.last() == x);
            assert(s =~= cells@.subrange(0, i as int).push(x));
            assert(s.to_multiset() =~= cells@.subrange(0, i as int).to_multiset().insert(x)) by {
                vstd::seq_lib::to_multiset_build(cells@.subrange(0, i as int), x);
            }
        }
        out.insert(j, x);
        proof {
            assert(out@ == t.insert(j as int, x));
            vstd::seq_lib::to_multiset_insert(t, j as int, x);
            assert(cells@.subrange(0, i + 1).to_multiset() == cells@.subrange(0, i as int).to_multiset().insert(x)) by {
                assert(cells@.subrange(0, i + 1) =~= cells@.subrange(0, i as int).push(x));
                vstd::seq_lib::to_multiset_build(cells@.subrange(0, i as int), x);
            }
            assert forall|a: int, b: int| 0 <= a < b < out@.len() implies dist2(out@[a], center)
                <= dist2(out@[b], center) by {
                if a < j && b > j {
                    assert(out@[a] == t[a] && out@[b] == t[b - 1]);
                } else if a < j && b == j {
                    assert(out@[a] == t[a]);
                } else if a == j && b > j {
                    assert(out@[b] == t[b - 1]);
                    if j < t.len() {
                        assert(dist2(t[j as int], center) > kx);
                    }
                } else if a > j {
                    assert(out@[a] == t[a - 1] && out@[b] == t[b - 1]);
                } else {
                    assert(out@[a] == t[a] && out@[b] == t[b]);
                }
            }
            assert forall|m: int| 0 <= m < out@.len() implies -30000 <= (#[trigger] out@[m]).0
                - center.0 <= 30000 && -30000 <= out@[m].1 - center.1 <= 30000 by {
                if m < j {
                    assert(out@[m] == t[m]);
                } else if m > j {
                    assert(out@[m] == t[m - 1]);
                }
            }
        }
        i = i + 1;
    }
    assert(cells@.subrange(0, i as int) =~= cells@);
    out
}

} // verus!
