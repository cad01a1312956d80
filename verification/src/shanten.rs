use vstd::prelude::*;

verus! {

/// Number of distinct tile kinds (three suits of nine ranks, four winds, three dragons).
pub const TILE_KIND_COUNT: usize = 34;
/// Index of the first honour tile (east wind).
pub const HONOR_TILE_START: usize = 27;

/// Per-kind tile counts of a hand, indexed by tile index.
pub type TileCounts = [u8; TILE_KIND_COUNT];

/// Value that stands for "no decomposition counted"; larger than any shanten the search reports.
pub open spec fn no_value() -> int {
    9
}

pub open spec fn min_int(a: int, b: int) -> int {
    if a <= b {
        a
    } else {
        b
    }
}

/// Total number of tiles described by a count vector.
pub open spec fn total_count(c: Seq<u8>) -> int
    decreases c.len(),
{
    if c.len() == 0 {
        0
    } else {
        total_count(c.drop_last()) + c.last()
    }
}

pub proof fn lemma_total_count_nonneg(c: Seq<u8>)
    ensures
        total_count(c) >= 0,
    decreases c.len(),
{
    if c.len() > 0 {
        lemma_total_count_nonneg(c.drop_last());
    }
}

pub proof fn lemma_total_count_update(c: Seq<u8>, i: int, v: u8)
    requires
        0 <= i < c.len(),
    ensures
        total_count(c.update(i, v)) == total_count(c) - c[i] + v,
    decreases c.len(),
{
    let d = c.update(i, v);
    if i == c.len() - 1 {
        assert(d.drop_last() =~= c.drop_last());
    } else {
        assert(d.drop_last() =~= c.drop_last().update(i, v));
        lemma_total_count_update(c.drop_last(), i, v);
    }
}

/// Removes `k` copies of kind `i` from a count vector.
pub open spec fn take_tiles(c: Seq<u8>, i: int, k: int) -> Seq<u8> {
    c.update(i, (c[i] - k) as u8)
}

/// First kind at or after `start` with a nonzero count, or 34 when there is none.
pub open spec fn first_nonzero(c: Seq<u8>, start: int) -> int
    decreases 34 - start,
{
    if start >= 34 {
        34
    } else if c[start] > 0 {
        start
    } else {
        first_nonzero(c, start + 1)
    }
}

/// Shanten of a partial decomposition: `melds` complete concealed melds, `taatsu`
/// incomplete two-tile shapes, `pair` (0 or 1) pairs, and `open` exposed melds.
pub open spec fn partial_shanten(melds: int, taatsu: int, pair: int, open: int) -> int {
    let total = melds + open;
    let available = if 4 - total > 0 {
        4 - total
    } else {
        0
    };
    let capped = if taatsu < available {
        taatsu
    } else {
        available
    };
    8 - total * 2 - capped - pair
}

pub open spec fn seq_start_ok(c: Seq<u8>, i: int) -> bool {
    i < 27 && i % 9 <= 6 && c[i + 1] > 0 && c[i + 2] > 0
}

pub open spec fn adjacent_ok(c: Seq<u8>, i: int) -> bool {
    i < 27 && i % 9 <= 7 && c[i + 1] > 0
}

pub open spec fn gapped_ok(c: Seq<u8>, i: int) -> bool {
    i < 27 && i % 9 <= 6 && c[i + 2] > 0
}

pub open spec fn take_sequence(c: Seq<u8>, i: int) -> Seq<u8> {
    take_tiles(take_tiles(take_tiles(c, i, 1), i + 1, 1), i + 2, 1)
}

pub open spec fn take_adjacent(c: Seq<u8>, i: int) -> Seq<u8> {
    take_tiles(take_tiles(c, i, 1), i + 1, 1)
}

pub open spec fn take_gapped(c: Seq<u8>, i: int) -> Seq<u8> {
    take_tiles(take_tiles(c, i, 1), i + 2, 1)
}

/// Best (lowest) standard-form shanten over every way of splitting the remaining tiles,
/// taken lowest kind first: each group that starts at the lowest remaining kind is a
/// triplet, a run, the pair, a two-tile shape (pair, adjacent or one-gap), or an unused tile.
/// Splits with more than four melds in all are not counted.
#[verifier::opaque]
pub open spec fn standard_search(
    c: Seq<u8>,
    start: int,
    melds: int,
    taatsu: int,
    pair: int,
    open: int,
) -> int
    decreases total_count(c),
    when c.len() == 34 && 0 <= start <= 34
{
    if melds + open > 4 {
        no_value()
    } else {
        let here = partial_shanten(melds, taatsu, pair, open);
        let i = first_nonzero(c, start);
        if i >= 34 || i < 0 {
            here
        } else {
            proof {
                lemma_first_nonzero(c, start);
                lemma_take_decreases(c, i);
            }
            let triplet = if c[i] >= 3 {
                proof {
                    lemma_take_count(c, i, 3);
                }
                standard_search(take_tiles(c, i, 3), i, melds + 1, taatsu, pair, open)
            } else {
                no_value()
            };
            let run = if seq_start_ok(c, i) {
                standard_search(take_sequence(c, i), i, melds + 1, taatsu, pair, open)
            } else {
                no_value()
            };
            let head = if pair == 0 && c[i] >= 2 {
                proof {
                    lemma_take_count(c, i, 2);
                }
                standard_search(take_tiles(c, i, 2), i, melds, taatsu, 1, open)
            } else {
                no_value()
            };
            let pair_shape = if taatsu < 4 && c[i] >= 2 {
                standard_search(take_tiles(c, i, 2), i, melds, taatsu + 1, pair, open)
            } else {
                no_value()
            };
            let adjacent = if taatsu < 4 && adjacent_ok(c, i) {
                standard_search(take_adjacent(c, i), i, melds, taatsu + 1, pair, open)
            } else {
                no_value()
            };
            let gapped = if taatsu < 4 && gapped_ok(c, i) {
                standard_search(take_gapped(c, i), i, melds, taatsu + 1, pair, open)
            } else {
                no_value()
            };
            let single = standard_search(take_tiles(c, i, 1), i, melds, taatsu, pair, open);
            min_int(
                here,
                min_int(
                    min_int(triplet, run),
                    min_int(
                        min_int(head, pair_shape),
                        min_int(min_int(adjacent, gapped), single),
                    ),
                ),
            )
        }
    }
}

pub proof fn lemma_first_nonzero(c: Seq<u8>, start: int)
    requires
        c.len() == 34,
        0 <= start <= 34,
    ensures
        start <= first_nonzero(c, start) <= 34,
        first_nonzero(c, start) < 34 ==> c[first_nonzero(c, start)] > 0,
        forall|j: int| start <= j < first_nonzero(c, start) ==> c[j] == 0,
    decreases 34 - start,
{
    if start < 34 && c[start] == 0 {
        lemma_first_nonzero(c, start + 1);
    }
}

pub proof fn lemma_take_count(c: Seq<u8>, i: int, k: int)
    requires
        0 <= i < c.len(),
        0 <= k <= c[i],
    ensures
        total_count(take_tiles(c, i, k)) == total_count(c) - k,
        total_count(take_tiles(c, i, k)) >= 0,
{
    lemma_total_count_update(c, i, (c[i] - k) as u8);
    lemma_total_count_nonneg(take_tiles(c, i, k));
}

/// Every removal that the search makes lowers the tile total.
pub proof fn lemma_take_decreases(c: Seq<u8>, i: int)
    requires
        c.len() == 34,
        0 <= i < 34,
        c[i] > 0,
    ensures
        c[i] >= 3 ==> 0 <= total_count(take_tiles(c, i, 3)) < total_count(c),
        c[i] >= 2 ==> 0 <= total_count(take_tiles(c, i, 2)) < total_count(c),
        0 <= total_count(take_tiles(c, i, 1)) < total_count(c),
        seq_start_ok(c, i) ==> 0 <= total_count(take_sequence(c, i)) < total_count(c),
        adjacent_ok(c, i) ==> 0 <= total_count(take_adjacent(c, i)) < total_count(c),
        gapped_ok(c, i) ==> 0 <= total_count(take_gapped(c, i)) < total_count(c),
{
    if c[i] >= 3 {
        lemma_take_count(c, i, 3);
    }
    if c[i] >= 2 {
        lemma_take_count(c, i, 2);
    }
    lemma_take_count(c, i, 1);
    let c1 = take_tiles(c, i, 1);
    if i + 1 < 34 && c1[i + 1] > 0 {
        lemma_take_count(c1, i + 1, 1);
        let c2 = take_tiles(c1, i + 1, 1);
        if i + 2 < 34 && c2[i + 2] > 0 {
            lemma_take_count(c2, i + 2, 1);
        }
    }
    if i + 2 < 34 && c1[i + 2] > 0 {
        lemma_take_count(c1, i + 2, 1);
    }
}

pub proof fn lemma_first_nonzero_is(c: Seq<u8>, start: int, k: int)
    requires
        c.len() == 34,
        0 <= start <= k <= 34,
        forall|j: int| start <= j < k ==> c[j] == 0,
        k == 34 || c[k] > 0,
    ensures
        first_nonzero(c, start) == k,
    decreases k - start,
{
    if start < k {
        lemma_first_nonzero_is(c, start + 1, k);
    }
}

/// The standard-form search never reports less than -1 (a complete hand).
pub proof fn lemma_search_lower_bound(
    c: Seq<u8>,
    start: int,
    melds: int,
    taatsu: int,
    pair: int,
    open: int,
)
    requires
        c.len() == 34,
        0 <= start <= 34,
        melds >= 0,
        taatsu >= 0,
        0 <= pair <= 1,
        open >= 0,
    ensures
        standard_search(c, start, melds, taatsu, pair, open) >= -1,
    decreases total_count(c),
{
    reveal(standard_search);
    if melds + open <= 4 {
        let i = first_nonzero(c, start);
        lemma_first_nonzero(c, start);
        if i < 34 {
            lemma_take_decreases(c, i);
            if c[i] >= 3 {
                lemma_search_lower_bound(take_tiles(c, i, 3), i, melds + 1, taatsu, pair, open);
            }
            if seq_start_ok(c, i) {
                lemma_search_lower_bound(take_sequence(c, i), i, melds + 1, taatsu, pair, open);
            }
            if pair == 0 && c[i] >= 2 {
                lemma_search_lower_bound(take_tiles(c, i, 2), i, melds, taatsu, 1, open);
            }
            if taatsu < 4 && c[i] >= 2 {
                lemma_search_lower_bound(take_tiles(c, i, 2), i, melds, taatsu + 1, pair, open);
            }
            if taatsu < 4 && adjacent_ok(c, i) {
                lemma_search_lower_bound(take_adjacent(c, i), i, melds, taatsu + 1, pair, open);
            }
            if taatsu < 4 && gapped_ok(c, i) {
                lemma_search_lower_bound(take_gapped(c, i), i, melds, taatsu + 1, pair, open);
            }
            lemma_search_lower_bound(take_tiles(c, i, 1), i, melds, taatsu, pair, open);
        }
    }
}

/// The value of one child of a search node: 0 triplet, 1 run, 2 pair (head),
/// 3 pair shape, 4 adjacent shape, 5 one-gap shape, 6 unused tile.
pub open spec fn child_value(c: Seq<u8>, i: int, which: int, m: int, t: int, p: int, o: int) -> int {
    if which == 0 {
        if c[i] >= 3 { standard_search(take_tiles(c, i, 3), i, m + 1, t, p, o) } else { no_value() }
    } else if which == 1 {
        if seq_start_ok(c, i) { standard_search(take_sequence(c, i), i, m + 1, t, p, o) } else { no_value() }
    } else if which == 2 {
        if p == 0 && c[i] >= 2 { standard_search(take_tiles(c, i, 2), i, m, t, 1, o) } else { no_value() }
    } else if which == 3 {
        if t < 4 && c[i] >= 2 { standard_search(take_tiles(c, i, 2), i, m, t + 1, p, o) } else { no_value() }
    } else if which == 4 {
        if t < 4 && adjacent_ok(c, i) { standard_search(take_adjacent(c, i), i, m, t + 1, p, o) } else { no_value() }
    } else if which == 5 {
        if t < 4 && gapped_ok(c, i) { standard_search(take_gapped(c, i), i, m, t + 1, p, o) } else { no_value() }
    } else {
        standard_search(take_tiles(c, i, 1), i, m, t, p, o)
    }
}

pub proof fn lemma_search_unfold(c: Seq<u8>, start: int, m: int, t: int, p: int, o: int)
    requires
        c.len() == 34,
        0 <= start <= 34,
        m + o <= 4,
        first_nonzero(c, start) < 34,
    ensures
        ({
            let i = first_nonzero(c, start);
            standard_search(c, start, m, t, p, o) == min_int(
                partial_shanten(m, t, p, o),
                min_int(
                    min_int(child_value(c, i, 0, m, t, p, o), child_value(c, i, 1, m, t, p, o)),
                    min_int(
                        min_int(child_value(c, i, 2, m, t, p, o), child_value(c, i, 3, m, t, p, o)),
                        min_int(
                            min_int(child_value(c, i, 4, m, t, p, o), child_value(c, i, 5, m, t, p, o)),
                            child_value(c, i, 6, m, t, p, o),
                        ),
                    ),
                ),
            )
        }),
{
    reveal(standard_search);
    lemma_first_nonzero(c, start);
}

pub proof fn lemma_search_leaf(c: Seq<u8>, start: int, m: int, t: int, p: int, o: int)
    requires
        c.len() == 34,
        0 <= start <= 34,
    ensures
        m + o > 4 ==> standard_search(c, start, m, t, p, o) == no_value(),
        m + o <= 4 && first_nonzero(c, start) >= 34 ==> standard_search(c, start, m, t, p, o)
            == partial_shanten(m, t, p, o),
        m + o <= 4 ==> standard_search(c, start, m, t, p, o) <= partial_shanten(m, t, p, o),
{
    reveal(standard_search);
}

/// Kinds of group that the search removes at the lowest remaining kind.
pub open spec fn take_kind(c: Seq<u8>, i: int, kind: u8) -> Seq<u8> {
    if kind == 0 {
        take_tiles(c, i, 3)
    } else if kind == 1 {
        take_sequence(c, i)
    } else if kind == 2 {
        take_tiles(c, i, 2)
    } else if kind == 3 {
        take_adjacent(c, i)
    } else if kind == 4 {
        take_gapped(c, i)
    } else {
        take_tiles(c, i, 1)
    }
}

pub open spec fn kind_applies(c: Seq<u8>, i: int, kind: u8) -> bool {
    if kind == 0 {
        c[i] >= 3
    } else if kind == 1 {
        seq_start_ok(c, i)
    } else if kind == 2 {
        c[i] >= 2
    } else if kind == 3 {
        adjacent_ok(c, i)
    } else if kind == 4 {
        gapped_ok(c, i)
    } else {
        kind == 5
    }
}

/// Removes the group, searches below it, and puts the tiles back.
fn standard_dfs_branch(
    counts: &mut TileCounts,
    i: usize,
    kind: u8,
    melds: i32,
    taatsu: i32,
    has_pair: i32,
    open_meld_count: i32,
    best: &mut i32,
)
    requires
        i < 34,
        old(counts)@[i as int] > 0,
        kind_applies(old(counts)@, i as int, kind),
        0 <= melds <= 5,
        0 <= taatsu <= 4,
        0 <= has_pair <= 1,
        0 <= open_meld_count < 0x4000_0000,
        -1 <= *old(best) <= 8,
    ensures
        final(counts)@ == old(counts)@,
        *final(best) == min_int(
            *old(best) as int,
            standard_search(
                take_kind(old(counts)@, i as int, kind),
                i as int,
                melds as int,
                taatsu as int,
                has_pair as int,
                open_meld_count as int,
            ),
        ),
    decreases total_count(old(counts)@), 0int,
{
    let ghost c0 = counts@;
    proof {
        lemma_take_decreases(c0, i as int);
    }
    if kind == 0 {
        counts[i] -= 3;
        assert(counts@ == take_kind(c0, i as int, kind));
        standard_dfs(counts, i, melds, taatsu, has_pair, open_meld_count, best);
        counts[i] += 3;
    } else if kind == 1 {
        counts[i] -= 1;
        counts[i + 1] -= 1;
        counts[i + 2] -= 1;
        assert(counts@ =~= take_kind(c0, i as int, kind));
        standard_dfs(counts, i, melds, taatsu, has_pair, open_meld_count, best);
        counts[i] += 1;
        counts[i + 1] += 1;
        counts[i + 2] += 1;
    } else if kind == 2 {
        counts[i] -= 2;
        assert(counts@ == take_kind(c0, i as int, kind));
        standard_dfs(counts, i, melds, taatsu, has_pair, open_meld_count, best);
        counts[i] += 2;
    } else if kind == 3 {
        counts[i] -= 1;
        counts[i + 1] -= 1;
        assert(counts@ =~= take_kind(c0, i as int, kind));
        standard_dfs(counts, i, melds, taatsu, has_pair, open_meld_count, best);
        counts[i] += 1;
        counts[i + 1] += 1;
    } else if kind == 4 {
        counts[i] -= 1;
        counts[i + 2] -= 1;
        assert(counts@ =~= take_kind(c0, i as int, kind));
        standard_dfs(counts, i, melds, taatsu, has_pair, open_meld_count, best);
        counts[i] += 1;
        counts[i + 2] += 1;
    } else {
        counts[i] -= 1;
        assert(counts@ == take_kind(c0, i as int, kind));
        standard_dfs(counts, i, melds, taatsu, has_pair, open_meld_count, best);
        counts[i] += 1;
    }
    assert(counts@ =~= c0);
}

/// Depth-first search behind `standard_shanten_with_open_melds`: lowers `best` to the
/// best shanten reachable from this partial decomposition and leaves `counts` as it was.
#[verifier::rlimit(40)]
fn standard_dfs(
    counts: &mut TileCounts,
    start_index: usize,
    melds: i32,
    taatsu: i32,
    has_pair: i32,
    open_meld_count: i32,
    best: &mut i32,
)
    requires
        start_index <= 34,
        0 <= melds <= 5,
        0 <= taatsu <= 4,
        0 <= has_pair <= 1,
        0 <= open_meld_count < 0x4000_0000,
        -1 <= *old(best) <= 8,
    ensures
        final(counts)@ == old(counts)@,
        *final(best) == min_int(
            *old(best) as int,
            standard_search(
                old(counts)@,
                start_index as int,
                melds as int,
                taatsu as int,
                has_pair as int,
                open_meld_count as int,
            ),
        ),
    decreases total_count(old(counts)@), 1int,
{
    let ghost c0 = counts@;
    proof {
        lemma_search_lower_bound(
            c0,
            start_index as int,
            melds as int,
            taatsu as int,
            has_pair as int,
            open_meld_count as int,
        );
    }
    proof {
        lemma_search_leaf(c0, start_index as int, melds as int, taatsu as int, has_pair as int, open_meld_count as int);
    }
    let total_melds = melds + open_meld_count;
    if total_melds > 4 {
        return;
    }
    let available = if 4 - total_melds > 0 {
        4 - total_melds
    } else {
        0
    };
    let capped_taatsu = if taatsu < available {
        taatsu
    } else {
        available
    };
    let shanten = 8 - total_melds * 2 - capped_taatsu - has_pair;
    if shanten < *best {
        *best = shanten;
    }
    if *best <= -1 {
        return;
    }
    let mut tile_index = start_index;
    while tile_index < TILE_KIND_COUNT && counts[tile_index] == 0
        invariant
            start_index <= tile_index <= 34,
            counts@ == c0,
            c0.len() == 34,
            forall|j: int| start_index <= j < tile_index ==> c0[j] == 0,
        decreases 34 - tile_index,
    {
        tile_index += 1;
    }
    proof {
        lemma_first_nonzero_is(c0, start_index as int, tile_index as int);
    }
    if tile_index >= TILE_KIND_COUNT {
        return;
    }
    let i = tile_index;
    let ghost here = *best as int;
    let ghost m = melds as int;
    let ghost t = taatsu as int;
    let ghost p = has_pair as int;
    let ghost o = open_meld_count as int;
    let ghost triplet = child_value(c0, i as int, 0, m, t, p, o);
    let ghost run = child_value(c0, i as int, 1, m, t, p, o);
    let ghost head = child_value(c0, i as int, 2, m, t, p, o);
    let ghost pair_shape = child_value(c0, i as int, 3, m, t, p, o);
    let ghost adjacent = child_value(c0, i as int, 4, m, t, p, o);
    let ghost gapped = child_value(c0, i as int, 5, m, t, p, o);
    let ghost single = child_value(c0, i as int, 6, m, t, p, o);
    proof {
        lemma_search_unfold(c0, start_index as int, m, t, p, o);
    }

    if counts[i] >= 3 {
        standard_dfs_branch(counts, i, 0, melds + 1, taatsu, has_pair, open_meld_count, best);
    }
    assert(*best as int == min_int(here, triplet));
    if i < HONOR_TILE_START && i % 9 <= 6 && counts[i + 1] > 0 && counts[i + 2] > 0 {
        standard_dfs_branch(counts, i, 1, melds + 1, taatsu, has_pair, open_meld_count, best);
    }
    assert(*best as int == min_int(min_int(here, triplet), run));
    if has_pair == 0 && counts[i] >= 2 {
        standard_dfs_branch(counts, i, 2, melds, taatsu, 1, open_meld_count, best);
    }
    let ghost after_head = *best as int;
    assert(after_head == min_int(min_int(min_int(here, triplet), run), head));
    if taatsu < 4 {
        if counts[i] >= 2 {
            standard_dfs_branch(counts, i, 2, melds, taatsu + 1, has_pair, open_meld_count, best);
        }
        assert(*best as int == min_int(after_head, pair_shape));
        if i < HONOR_TILE_START && i % 9 <= 7 && counts[i + 1] > 0 {
            standard_dfs_branch(counts, i, 3, melds, taatsu + 1, has_pair, open_meld_count, best);
        }
        assert(*best as int == min_int(min_int(after_head, pair_shape), adjacent));
        if i < HONOR_TILE_START && i % 9 <= 6 && counts[i + 2] > 0 {
            standard_dfs_branch(counts, i, 4, melds, taatsu + 1, has_pair, open_meld_count, best);
        }
    }
    let ghost after_shapes = *best as int;
    assert(after_shapes == min_int(min_int(min_int(after_head, pair_shape), adjacent), gapped));
    standard_dfs_branch(counts, i, 5, melds, taatsu, has_pair, open_meld_count, best);
    assert(*best as int == min_int(after_shapes, single));
}

/// Standard-form shanten (four melds and a pair) of the concealed counts, with
/// `open_meld_count` melds already exposed: -1 is a complete hand, 0 is ready.
pub open spec fn spec_standard_shanten(c: Seq<u8>, open_meld_count: int) -> int {
    min_int(8, standard_search(c, 0, 0, 0, 0, open_meld_count))
}

pub fn standard_shanten_with_open_melds(counts: &TileCounts, open_meld_count: usize) -> (r: i32)
    requires
        open_meld_count <= 0x7fff_ffff,
    ensures
        r == spec_standard_shanten(counts@, open_meld_count as int),
        -1 <= r <= 8,
{
    if open_meld_count > 4 {
        proof {
            reveal(standard_search);
        }
        return 8;
    }
    let mut best: i32 = 8;
    let mut working = *counts;
    standard_dfs(&mut working, 0, 0, 0, 0, open_meld_count as i32, &mut best);
    proof {
        lemma_search_lower_bound(counts@, 0, 0, 0, 0, open_meld_count as int);
    }
    best
}

/// Value that the special forms report when they cannot apply (`i32::MAX / 4`).
pub open spec fn unreachable_shanten() -> int {
    536870911
}

/// Number of pairs that a count vector holds when quads count as two pairs.
pub open spec fn pair_units(c: Seq<u8>) -> int
    decreases c.len(),
{
    if c.len() == 0 {
        0
    } else {
        pair_units(c.drop_last()) + c.last() / 2
    }
}

/// Number of kinds held an odd number of times.
pub open spec fn single_units(c: Seq<u8>) -> int
    decreases c.len(),
{
    if c.len() == 0 {
        0
    } else {
        single_units(c.drop_last()) + c.last() % 2
    }
}

/// Seven-pairs shanten; a quad counts as two pairs. Not reachable with exposed melds.
pub open spec fn spec_seven_pairs_shanten(c: Seq<u8>, open_meld_count: int) -> int {
    if open_meld_count > 0 {
        unreachable_shanten()
    } else {
        let pairs = pair_units(c);
        let singles = single_units(c);
        6 - pairs + (if 7 - pairs - singles > 0 {
            7 - pairs - singles
        } else {
            0
        })
    }
}

pub proof fn lemma_units_bounds(c: Seq<u8>)
    ensures
        0 <= pair_units(c) <= 128 * c.len(),
        0 <= single_units(c) <= c.len(),
    decreases c.len(),
{
    if c.len() > 0 {
        lemma_units_bounds(c.drop_last());
    }
}

proof fn lemma_units_cover_tiles(c: Seq<u8>)
    ensures
        2 * pair_units(c) + single_units(c) == total_count(c),
        (forall|k: int| 0 <= k < c.len() ==> #[trigger] c[k] % 2 == 0) ==> single_units(c) == 0,
    decreases c.len(),
{
    if c.len() > 0 {
        lemma_units_cover_tiles(c.drop_last());
        if forall|k: int| 0 <= k < c.len() ==> #[trigger] c[k] % 2 == 0 {
            assert forall|k: int| 0 <= k < c.drop_last().len() implies #[trigger] c.drop_last()[k] % 2 == 0 by {
                assert(c.drop_last()[k] == c[k]);
            }
            assert(c[c.len() - 1] % 2 == 0);
        }
    }
}

/// Seven pairs splits every tile into pairs and leftovers: a kind held four times gives two
/// pairs, three times a pair and a leftover. With no exposed meld, a hand of at most fourteen
/// tiles held in pairs only (a quad as two) is `13 - tiles` from ready, so fourteen such tiles
/// are complete.
pub proof fn seven_pairs_count_every_tile(c: Seq<u8>)
    ensures
        2 * pair_units(c) + single_units(c) == total_count(c),
        (forall|k: int| 0 <= k < c.len() ==> #[trigger] c[k] % 2 == 0) && total_count(c) <= 14
            ==> spec_seven_pairs_shanten(c, 0) == 13 - total_count(c),
{
    lemma_units_cover_tiles(c);
}

pub fn seven_pairs_shanten(counts: &TileCounts, open_meld_count: usize) -> (r: i32)
    ensures
        r == spec_seven_pairs_shanten(counts@, open_meld_count as int),
{
    if open_meld_count > 0 {
        return i32::MAX / 4;
    }
    let mut pairs: i32 = 0;
    let mut singles: i32 = 0;
    let mut k: usize = 0;
    while k < TILE_KIND_COUNT
        invariant
            k <= 34,
            counts@.len() == 34,
            pairs == pair_units(counts@.take(k as int)),
            singles == single_units(counts@.take(k as int)),
        decreases 34 - k,
    {
        proof {
            assert(counts@.take(k + 1).drop_last() =~= counts@.take(k as int));
            lemma_units_bounds(counts@.take(k as int));
        }
        pairs = pairs + (counts[k] / 2) as i32;
        singles = singles + (counts[k] % 2) as i32;
        k += 1;
    }
    proof {
        assert(counts@.take(34) =~= counts@);
        lemma_units_bounds(counts@);
    }
    let rest = 7 - pairs - singles;
    6 - pairs + if rest > 0 {
        rest
    } else {
        0
    }
}

/// Kinds that count as terminals or honours, in index order.
pub open spec fn orphan_index(k: int) -> int {
    if k < 6 {
        (k / 2) * 9 + (k % 2) * 8
    } else {
        k + 21
    }
}

pub open spec fn orphan_kinds_present(c: Seq<u8>, n: int) -> int
    decreases n,
{
    if n <= 0 {
        0
    } else {
        orphan_kinds_present(c, n - 1) + (if c[orphan_index(n - 1)] > 0 {
            1int
        } else {
            0int
        })
    }
}

/// Thirteen-orphans shanten: 13 minus the orphan kinds held, minus one more for an orphan pair.
pub open spec fn spec_thirteen_orphans_shanten(c: Seq<u8>, open_meld_count: int) -> int {
    if open_meld_count > 0 {
        unreachable_shanten()
    } else {
        13 - orphan_kinds_present(c, 13) - (if exists|k: int| 0 <= k < 13 && c[orphan_index(k)] >= 2 {
            1int
        } else {
            0int
        })
    }
}

pub fn thirteen_orphans_shanten(counts: &TileCounts, open_meld_count: usize) -> (r: i32)
    ensures
        r == spec_thirteen_orphans_shanten(counts@, open_meld_count as int),
{
    if open_meld_count > 0 {
        return i32::MAX / 4;
    }
    let mut unique_count: i32 = 0;
    let mut has_pair: i32 = 0;
    let mut k: usize = 0;
    while k < 13
        invariant
            k <= 13,
            counts@.len() == 34,
            unique_count == orphan_kinds_present(counts@, k as int),
            0 <= unique_count <= k,
            has_pair == 1 <==> exists|j: int| 0 <= j < k && counts@[orphan_index(j)] >= 2,
            has_pair == 0 || has_pair == 1,
        decreases 13 - k,
    {
        let index = if k < 6 {
            (k / 2) * 9 + (k % 2) * 8
        } else {
            k + 21
        };
        assert(index == orphan_index(k as int));
        if counts[index] > 0 {
            unique_count += 1;
        }
        if counts[index] >= 2 {
            has_pair = 1;
        }
        k += 1;
    }
    13 - unique_count - has_pair
}

/// Whether kind `k` is a terminal (rank 1 or 9 of a suit) or an honour.
pub open spec fn is_terminal_or_honor(k: int) -> bool {
    0 <= k < 34 && (k >= 27 || k % 9 == 0 || k % 9 == 8)
}

/// How many of the kinds below `n` are terminals or honours that the counts hold.
pub open spec fn terminal_honor_kinds_held(c: Seq<u8>, n: int) -> int
    decreases n,
{
    if n <= 0 {
        0
    } else {
        terminal_honor_kinds_held(c, n - 1) + (if is_terminal_or_honor(n - 1) && c[n - 1] > 0 {
            1int
        } else {
            0int
        })
    }
}

/// Thirteen orphans, read off the hand: with no exposed meld, the shanten is 13 less the
/// number of distinct terminal and honour kinds held, less one more when one of them is held
/// at least twice. So a closed hand that holds all thirteen of them and one a second time is
/// complete, and no form can do better than that for it.
pub proof fn thirteen_orphans_counts_kinds_and_a_pair(c: Seq<u8>)
    requires
        c.len() == 34,
    ensures
        spec_thirteen_orphans_shanten(c, 0) == 13 - terminal_honor_kinds_held(c, 34) - (if exists|k: int|
            is_terminal_or_honor(k) && #[trigger] c[k] >= 2 {
            1int
        } else {
            0int
        }),
        (forall|k: int| is_terminal_or_honor(k) ==> #[trigger] c[k] > 0) && (exists|k: int|
            is_terminal_or_honor(k) && #[trigger] c[k] >= 2) ==> spec_thirteen_orphans_shanten(c, 0) == -1
            && spec_min_shanten(c, 0) <= -1,
{
    reveal_with_fuel(orphan_kinds_present, 14);
    reveal_with_fuel(terminal_honor_kinds_held, 35);
    assert(orphan_kinds_present(c, 13) == terminal_honor_kinds_held(c, 34));
    let by_index = exists|j: int| 0 <= j < 13 && c[orphan_index(j)] >= 2;
    let by_kind = exists|k: int| is_terminal_or_honor(k) && #[trigger] c[k] >= 2;
    if by_index {
        let j = choose|j: int| 0 <= j < 13 && c[orphan_index(j)] >= 2;
        assert(is_terminal_or_honor(orphan_index(j)));
        assert(c[orphan_index(j)] >= 2);
    }
    if by_kind {
        let k = choose|k: int| is_terminal_or_honor(k) && #[trigger] c[k] >= 2;
        let j = if k >= 27 {
            k - 21
        } else if k % 9 == 0 {
            (k / 9) * 2
        } else {
            (k / 9) * 2 + 1
        };
        assert(0 <= j < 13 && orphan_index(j) == k);
        assert(c[orphan_index(j)] >= 2);
    }
    assert(by_index == by_kind);
    if forall|k: int| is_terminal_or_honor(k) ==> #[trigger] c[k] > 0 {
        assert(c[0] > 0 && c[8] > 0 && c[9] > 0 && c[17] > 0 && c[18] > 0 && c[26] > 0);
        assert(c[27] > 0 && c[28] > 0 && c[29] > 0 && c[30] > 0 && c[31] > 0 && c[32] > 0 && c[33] > 0);
        assert(terminal_honor_kinds_held(c, 34) == 13);
    }
}

/// The six knitted-straight layouts: pattern `p` puts ranks 1-4-7 in the suit
/// `knitted_suit(p, 0)`, ranks 2-5-8 in `knitted_suit(p, 1)` and ranks 3-6-9 in `knitted_suit(p, 2)`.
pub open spec fn knitted_suit(p: int, group: int) -> int {
    let perm: Seq<int> = if p == 0 {
        seq![0int, 1, 2]
    } else if p == 1 {
        seq![0int, 2, 1]
    } else if p == 2 {
        seq![1int, 0, 2]
    } else if p == 3 {
        seq![1int, 2, 0]
    } else if p == 4 {
        seq![2int, 0, 1]
    } else {
        seq![2int, 1, 0]
    };
    perm[group]
}

/// The nine tile indices of knitted pattern `p`, three per suit.
pub open spec fn spec_knitted_pattern(p: int) -> Seq<usize> {
    Seq::new(9, |k: int| (knitted_suit(p, k / 3) * 9 + k / 3 + 3 * (k % 3)) as usize)
}

/// The knitted layouts, in the order the search tries them.
pub const KNITTED_PATTERNS: [[usize; 9]; 6] = [
    [0, 3, 6, 10, 13, 16, 20, 23, 26],
    [0, 3, 6, 19, 22, 25, 11, 14, 17],
    [9, 12, 15, 1, 4, 7, 20, 23, 26],
    [9, 12, 15, 19, 22, 25, 2, 5, 8],
    [18, 21, 24, 1, 4, 7, 11, 14, 17],
    [18, 21, 24, 10, 13, 16, 2, 5, 8],
];

fn knitted_pattern(p: usize) -> (r: [usize; 9])
    requires
        p < 6,
    ensures
        r@ == spec_knitted_pattern(p as int),
{
    let r: [usize; 9] = if p == 0 {
        [0, 3, 6, 10, 13, 16, 20, 23, 26]
    } else if p == 1 {
        [0, 3, 6, 19, 22, 25, 11, 14, 17]
    } else if p == 2 {
        [9, 12, 15, 1, 4, 7, 20, 23, 26]
    } else if p == 3 {
        [9, 12, 15, 19, 22, 25, 2, 5, 8]
    } else if p == 4 {
        [18, 21, 24, 1, 4, 7, 11, 14, 17]
    } else {
        [18, 21, 24, 10, 13, 16, 2, 5, 8]
    };
    assert(r@ =~= spec_knitted_pattern(p as int));
    r
}

/// Number of times `k` occurs in `s`.
pub open spec fn occurrences(s: Seq<usize>, k: int) -> int
    decreases s.len(),
{
    if s.len() == 0 {
        0
    } else {
        occurrences(s.drop_last(), k) + (if s.last() == k {
            1int
        } else {
            0int
        })
    }
}

pub proof fn lemma_occurrences_bounds(s: Seq<usize>, k: int)
    ensures
        0 <= occurrences(s, k) <= s.len(),
    decreases s.len(),
{
    if s.len() > 0 {
        lemma_occurrences_bounds(s.drop_last(), k);
    }
}

/// Tiles still missing to reach `target` (one entry per listed index) from the counts `c`,
/// over kinds below `n`.
pub open spec fn shortfall(c: Seq<u8>, target: Seq<usize>, n: int) -> int
    decreases n,
{
    if n <= 0 {
        0
    } else {
        shortfall(c, target, n - 1) + (if occurrences(target, n - 1) > c[n - 1] {
            occurrences(target, n - 1) - c[n - 1]
        } else {
            0
        })
    }
}

/// Tiles missing from `c` to hold `target`; unreachable when some kind would be needed
/// more than four times.
pub open spec fn spec_target_missing(c: Seq<u8>, target: Seq<usize>) -> int {
    if exists|k: int| 0 <= k < 34 && occurrences(target, k) > 4 {
        unreachable_shanten()
    } else {
        shortfall(c, target, 34)
    }
}

fn knitted_target_missing(counts: &TileCounts, pattern: &[usize; 9], extra_indices: &[usize]) -> (r: i32)
    requires
        extra_indices@.len() <= 5,
        forall|k: int| 0 <= k < 9 ==> pattern@[k] < 34,
        forall|k: int| 0 <= k < extra_indices@.len() ==> extra_indices@[k] < 34,
    ensures
        r == spec_target_missing(counts@, pattern@ + extra_indices@),
        r >= 0,
{
    let ghost all = pattern@ + extra_indices@;
    let mut target = [0u8; TILE_KIND_COUNT];
    let mut j: usize = 0;
    while j < 9
        invariant
            j <= 9,
            target@.len() == 34,
            all == pattern@ + extra_indices@,
            forall|k: int| 0 <= k < 9 ==> pattern@[k] < 34,
            forall|k: int| 0 <= k < 34 ==> target@[k] == occurrences(all.take(j as int), k),
        decreases 9 - j,
    {
        let index = pattern[j];
        proof {
            assert(all.take(j + 1).drop_last() =~= all.take(j as int));
            assert(all[j as int] == index);
            lemma_occurrences_bounds(all.take(j as int), index as int);
        }
        target[index] += 1;
        j += 1;
    }
    let mut e: usize = 0;
    while e < extra_indices.len()
        invariant
            e <= extra_indices@.len() <= 5,
            target@.len() == 34,
            all == pattern@ + extra_indices@,
            forall|k: int| 0 <= k < extra_indices@.len() ==> extra_indices@[k] < 34,
            forall|k: int| 0 <= k < 34 ==> target@[k] == occurrences(all.take(9 + e), k),
        decreases extra_indices@.len() - e,
    {
        let index = extra_indices[e];
        proof {
            assert(all.take(9 + e + 1).drop_last() =~= all.take(9 + e));
            assert(all[9 + e] == index);
            lemma_occurrences_bounds(all.take(9 + e), index as int);
        }
        target[index] += 1;
        e += 1;
    }
    assert(all.take(9 + extra_indices@.len() as int) =~= all);
    let mut k: usize = 0;
    while k < TILE_KIND_COUNT
        invariant
            k <= 34,
            target@.len() == 34,
            all == pattern@ + extra_indices@,
            forall|q: int| 0 <= q < 34 ==> target@[q] == occurrences(all, q),
            forall|q: int| 0 <= q < k ==> occurrences(all, q) <= 4,
        decreases 34 - k,
    {
        if target[k] > 4 {
            assert(occurrences(all, k as int) > 4);
            assert(exists|q: int| 0 <= q < 34 && occurrences(all, q) > 4);
            return i32::MAX / 4;
        }
        k += 1;
    }
    let mut missing: i32 = 0;
    let mut k: usize = 0;
    while k < TILE_KIND_COUNT
        invariant
            k <= 34,
            target@.len() == 34,
            counts@.len() == 34,
            forall|q: int| 0 <= q < 34 ==> target@[q] == occurrences(all, q),
            forall|q: int| 0 <= q < 34 ==> occurrences(all, q) <= 4,
            all == pattern@ + extra_indices@,
            missing == shortfall(counts@, all, k as int),
            0 <= missing <= 4 * k,
        decreases 34 - k,
    {
        assert(target@[k as int] == occurrences(all, k as int));
        assert(target@[k as int] <= 4);
        if target[k] > counts[k] {
            missing = missing + (target[k] - counts[k]) as i32;
        }
        k += 1;
    }
    missing
}

/// Run `k` (0..21) of the suited runs, lowest first: suit `k / 7`, starting rank `k % 7 + 1`.
pub open spec fn spec_sequence_meld(k: int) -> Seq<usize> {
    let start = (k / 7) * 9 + k % 7;
    seq![start as usize, (start + 1) as usize, (start + 2) as usize]
}

/// Knitted pattern plus a pair of kind `p`: best over every pair (one exposed meld).
pub open spec fn best_knitted_with_pair(c: Seq<u8>, pattern: Seq<usize>, n: int) -> int
    decreases n,
{
    if n <= 0 {
        unreachable_shanten()
    } else {
        min_int(
            best_knitted_with_pair(c, pattern, n - 1),
            spec_target_missing(c, pattern + seq![(n - 1) as usize, (n - 1) as usize]),
        )
    }
}

pub open spec fn best_knitted_pair_triplet(c: Seq<u8>, pattern: Seq<usize>, p: int, n: int) -> int
    decreases n,
{
    if n <= 0 {
        unreachable_shanten()
    } else {
        let t = (n - 1) as usize;
        min_int(
            best_knitted_pair_triplet(c, pattern, p, n - 1),
            spec_target_missing(c, pattern + seq![p as usize, p as usize, t, t, t]),
        )
    }
}

pub open spec fn best_knitted_pair_run(c: Seq<u8>, pattern: Seq<usize>, p: int, n: int) -> int
    decreases n,
{
    if n <= 0 {
        unreachable_shanten()
    } else {
        min_int(
            best_knitted_pair_run(c, pattern, p, n - 1),
            spec_target_missing(c, pattern + seq![p as usize, p as usize] + spec_sequence_meld(n - 1)),
        )
    }
}

/// Knitted pattern plus a pair and one more meld (triplet or run): best over all choices.
pub open spec fn best_knitted_pair_meld(c: Seq<u8>, pattern: Seq<usize>, n: int) -> int
    decreases n,
{
    if n <= 0 {
        unreachable_shanten()
    } else {
        min_int(
            best_knitted_pair_meld(c, pattern, n - 1),
            min_int(
                best_knitted_pair_triplet(c, pattern, n - 1, 34),
                best_knitted_pair_run(c, pattern, n - 1, 21),
            ),
        )
    }
}

/// Tiles missing for a knitted straight completed by a pair (and, when closed, one more meld).
pub open spec fn spec_knitted_straight_missing(c: Seq<u8>, pattern: Seq<usize>, open_meld_count: int) -> int {
    if open_meld_count == 1 {
        best_knitted_with_pair(c, pattern, 34)
    } else {
        best_knitted_pair_meld(c, pattern, 34)
    }
}

fn knitted_straight_completion_missing(counts: &TileCounts, pattern: &[usize; 9], open_meld_count: usize) -> (r: i32)
    requires
        forall|k: int| 0 <= k < 9 ==> pattern@[k] < 34,
    ensures
        r == spec_knitted_straight_missing(counts@, pattern@, open_meld_count as int),
        r >= 0,
{
    let mut best: i32 = i32::MAX / 4;
    if open_meld_count == 1 {
        let mut pair_index: usize = 0;
        while pair_index < TILE_KIND_COUNT
            invariant
                pair_index <= 34,
                forall|k: int| 0 <= k < 9 ==> pattern@[k] < 34,
                best == best_knitted_with_pair(counts@, pattern@, pair_index as int),
                best >= 0,
            decreases 34 - pair_index,
        {
            let extra = [pair_index, pair_index];
            assert(extra@ =~= seq![pair_index, pair_index]);
            let missing = knitted_target_missing(counts, pattern, &extra);
            if missing < best {
                best = missing;
            }
            pair_index += 1;
        }
        return best;
    }
    let mut pair_index: usize = 0;
    while pair_index < TILE_KIND_COUNT
        invariant
            pair_index <= 34,
            forall|k: int| 0 <= k < 9 ==> pattern@[k] < 34,
            best == best_knitted_pair_meld(counts@, pattern@, pair_index as int),
            best >= 0,
        decreases 34 - pair_index,
    {
        let ghost before = best as int;
        let mut triplet_best: i32 = i32::MAX / 4;
        let mut triplet_index: usize = 0;
        while triplet_index < TILE_KIND_COUNT
            invariant
                triplet_index <= 34,
                pair_index < 34,
                forall|k: int| 0 <= k < 9 ==> pattern@[k] < 34,
                triplet_best == best_knitted_pair_triplet(counts@, pattern@, pair_index as int, triplet_index as int),
                triplet_best >= 0,
            decreases 34 - triplet_index,
        {
            let extra = [pair_index, pair_index, triplet_index, triplet_index, triplet_index];
            assert(extra@ =~= seq![pair_index, pair_index, triplet_index, triplet_index, triplet_index]);
            let missing = knitted_target_missing(counts, pattern, &extra);
            if missing < triplet_best {
                triplet_best = missing;
            }
            triplet_index += 1;
        }
        let mut run_best: i32 = i32::MAX / 4;
        let mut run_index: usize = 0;
        while run_index < 21
            invariant
                run_index <= 21,
                pair_index < 34,
                forall|k: int| 0 <= k < 9 ==> pattern@[k] < 34,
                run_best == best_knitted_pair_run(counts@, pattern@, pair_index as int, run_index as int),
                run_best >= 0,
            decreases 21 - run_index,
        {
            let start = (run_index / 7) * 9 + run_index % 7;
            let extra = [pair_index, pair_index, start, start + 1, start + 2];
            assert(pattern@ + extra@ =~= pattern@ + seq![pair_index, pair_index] + spec_sequence_meld(run_index as int));
            let missing = knitted_target_missing(counts, pattern, &extra);
            if missing < run_best {
                run_best = missing;
            }
            run_index += 1;
        }
        if triplet_best < best {
            best = triplet_best;
        }
        if run_best < best {
            best = run_best;
        }
        pair_index += 1;
    }
    best
}

/// Number of the listed kinds that the counts hold at least once.
pub open spec fn kinds_present(c: Seq<u8>, indices: Seq<usize>) -> int
    decreases indices.len(),
{
    if indices.len() == 0 {
        0
    } else {
        kinds_present(c, indices.drop_last()) + (if c[indices.last() as int] > 0 {
            1int
        } else {
            0int
        })
    }
}

/// Sum of the `target` smallest "missing" marks (1 for an absent kind, 0 for a held one)
/// among the listed kinds: the absent kinds that taking `target` of them cannot avoid.
pub open spec fn spec_smallest_singleton_missing(c: Seq<u8>, indices: Seq<usize>, target: int) -> int {
    let taken = if target < indices.len() {
        target
    } else {
        indices.len() as int
    };
    let present = kinds_present(c, indices);
    if taken - present > 0 {
        taken - present
    } else {
        0
    }
}

pub proof fn lemma_kinds_present_bounds(c: Seq<u8>, indices: Seq<usize>)
    ensures
        0 <= kinds_present(c, indices) <= indices.len(),
    decreases indices.len(),
{
    if indices.len() > 0 {
        lemma_kinds_present_bounds(c, indices.drop_last());
    }
}

fn smallest_singleton_missing(counts: &TileCounts, candidate_indices: &[usize], target_count: usize) -> (r: i32)
    requires
        candidate_indices@.len() <= 9,
        forall|k: int| 0 <= k < candidate_indices@.len() ==> candidate_indices@[k] < 34,
    ensures
        r == spec_smallest_singleton_missing(counts@, candidate_indices@, target_count as int),
        0 <= r <= 9,
{
    let mut present: i32 = 0;
    let mut k: usize = 0;
    while k < candidate_indices.len()
        invariant
            k <= candidate_indices@.len() <= 9,
            forall|q: int| 0 <= q < candidate_indices@.len() ==> candidate_indices@[q] < 34,
            present == kinds_present(counts@, candidate_indices@.take(k as int)),
            0 <= present <= k,
        decreases candidate_indices@.len() - k,
    {
        proof {
            assert(candidate_indices@.take(k + 1).drop_last() =~= candidate_indices@.take(k as int));
        }
        if counts[candidate_indices[k]] > 0 {
            present += 1;
        }
        k += 1;
    }
    assert(candidate_indices@.take(k as int) =~= candidate_indices@);
    let taken = if target_count < candidate_indices.len() {
        target_count as i32
    } else {
        candidate_indices.len() as i32
    };
    if taken - present > 0 {
        taken - present
    } else {
        0
    }
}

/// The seven honour kinds.
pub open spec fn honor_indices() -> Seq<usize> {
    seq![27usize, 28, 29, 30, 31, 32, 33]
}

/// Tiles missing for a knitted hand of singletons (five to seven honours with
/// the rest from the knitted pattern), best over the honour count.
pub open spec fn spec_knitted_singletons_missing(c: Seq<u8>, pattern: Seq<usize>) -> int {
    let h5 = spec_smallest_singleton_missing(c, honor_indices(), 5) + spec_smallest_singleton_missing(c, pattern, 9);
    let h6 = spec_smallest_singleton_missing(c, honor_indices(), 6) + spec_smallest_singleton_missing(c, pattern, 8);
    let h7 = spec_smallest_singleton_missing(c, honor_indices(), 7) + spec_smallest_singleton_missing(c, pattern, 7);
    min_int(h5, min_int(h6, h7))
}

pub fn knitted_singletons_missing(counts: &TileCounts, pattern: &[usize; 9]) -> (r: i32)
    requires
        forall|k: int| 0 <= k < 9 ==> pattern@[k] < 34,
    ensures
        r == spec_knitted_singletons_missing(counts@, pattern@),
        r >= 0,
{
    let honors: [usize; 7] = [27, 28, 29, 30, 31, 32, 33];
    assert(honors@ =~= honor_indices());
    let mut best: i32 = i32::MAX / 4;
    let mut honor_count: usize = 5;
    while honor_count <= 7
        invariant
            5 <= honor_count <= 8,
            honors@ == honor_indices(),
            forall|k: int| 0 <= k < 9 ==> pattern@[k] < 34,
            honor_count == 5 ==> best == unreachable_shanten(),
            honor_count == 6 ==> best == spec_smallest_singleton_missing(counts@, honor_indices(), 5) + spec_smallest_singleton_missing(counts@, pattern@, 9),
            honor_count == 7 ==> best == min_int(
                spec_smallest_singleton_missing(counts@, honor_indices(), 5) + spec_smallest_singleton_missing(counts@, pattern@, 9),
                spec_smallest_singleton_missing(counts@, honor_indices(), 6) + spec_smallest_singleton_missing(counts@, pattern@, 8)),
            honor_count == 8 ==> best == spec_knitted_singletons_missing(counts@, pattern@),
            best >= 0,
        decreases 8 - honor_count,
    {
        let suited_count = 14 - honor_count;
        let missing = smallest_singleton_missing(counts, &honors, honor_count)
            + smallest_singleton_missing(counts, pattern, suited_count);
        if missing < best {
            best = missing;
        }
        honor_count += 1;
    }
    best
}

/// Special knitted forms: knitted singletons with honours (closed only) or a knitted
/// straight completed by a pair and one meld (at most one exposed meld).
pub open spec fn best_knitted_over_patterns(c: Seq<u8>, open_meld_count: int, n: int) -> int
    decreases n,
{
    if n <= 0 {
        unreachable_shanten()
    } else {
        let pattern = spec_knitted_pattern(n - 1);
        let straight = spec_knitted_straight_missing(c, pattern, open_meld_count);
        let here = if open_meld_count == 0 {
            min_int(spec_knitted_singletons_missing(c, pattern), straight)
        } else {
            straight
        };
        min_int(best_knitted_over_patterns(c, open_meld_count, n - 1), here)
    }
}

pub open spec fn spec_special_knitted_shanten(c: Seq<u8>, open_meld_count: int) -> int {
    if open_meld_count > 1 {
        unreachable_shanten()
    } else {
        best_knitted_over_patterns(c, open_meld_count, 6) - 1
    }
}

pub proof fn lemma_knitted_pattern_in_range(p: int)
    requires
        0 <= p < 6,
    ensures
        forall|k: int| 0 <= k < 9 ==> spec_knitted_pattern(p)[k] < 34,
{
}

pub fn special_knitted_shanten(counts: &TileCounts, open_meld_count: usize) -> (r: i32)
    ensures
        r == spec_special_knitted_shanten(counts@, open_meld_count as int),
{
    if open_meld_count > 1 {
        return i32::MAX / 4;
    }
    let mut best_missing: i32 = i32::MAX / 4;
    let mut p: usize = 0;
    while p < 6
        invariant
            p <= 6,
            open_meld_count <= 1,
            best_missing == best_knitted_over_patterns(counts@, open_meld_count as int, p as int),
            0 <= best_missing <= unreachable_shanten(),
        decreases 6 - p,
    {
        let pattern = knitted_pattern(p);
        proof {
            lemma_knitted_pattern_in_range(p as int);
        }
        if open_meld_count == 0 {
            let singles = knitted_singletons_missing(counts, &pattern);
            if singles < best_missing {
                best_missing = singles;
            }
        }
        let straight = knitted_straight_completion_missing(counts, &pattern, open_meld_count);
        if straight < best_missing {
            best_missing = straight;
        }
        p += 1;
    }
    best_missing - 1
}

/// Lowest shanten over the standard, seven-pairs, thirteen-orphans and knitted forms.
pub open spec fn spec_min_shanten(c: Seq<u8>, open_meld_count: int) -> int {
    min_int(
        min_int(spec_standard_shanten(c, open_meld_count), spec_seven_pairs_shanten(c, open_meld_count)),
        min_int(spec_thirteen_orphans_shanten(c, open_meld_count), spec_special_knitted_shanten(c, open_meld_count)),
    )
}

/// The hand's shanten is the best of its forms: no higher than the standard, seven-pairs,
/// thirteen-orphans or knitted value, and equal to one of them.
pub proof fn min_shanten_is_the_best_form(c: Seq<u8>, open_meld_count: int)
    ensures
        spec_min_shanten(c, open_meld_count) <= spec_standard_shanten(c, open_meld_count),
        spec_min_shanten(c, open_meld_count) <= spec_seven_pairs_shanten(c, open_meld_count),
        spec_min_shanten(c, open_meld_count) <= spec_thirteen_orphans_shanten(c, open_meld_count),
        spec_min_shanten(c, open_meld_count) <= spec_special_knitted_shanten(c, open_meld_count),
        spec_min_shanten(c, open_meld_count) == spec_standard_shanten(c, open_meld_count)
            || spec_min_shanten(c, open_meld_count) == spec_seven_pairs_shanten(c, open_meld_count)
            || spec_min_shanten(c, open_meld_count) == spec_thirteen_orphans_shanten(c, open_meld_count)
            || spec_min_shanten(c, open_meld_count) == spec_special_knitted_shanten(c, open_meld_count),
{
}

pub fn min_shanten_for_counts(concealed_counts: &TileCounts, open_meld_count: usize) -> (r: i32)
    requires
        open_meld_count <= 0x7fff_ffff,
    ensures
        r == spec_min_shanten(concealed_counts@, open_meld_count as int),
{
    let standard = standard_shanten_with_open_melds(concealed_counts, open_meld_count);
    let pairs = seven_pairs_shanten(concealed_counts, open_meld_count);
    let orphans = thirteen_orphans_shanten(concealed_counts, open_meld_count);
    let knitted = special_knitted_shanten(concealed_counts, open_meld_count);
    let mut best = standard;
    if pairs < best {
        best = pairs;
    }
    let ghost first = best;
    let mut second = orphans;
    if knitted < second {
        second = knitted;
    }
    if second < best {
        best = second;
    }
    best
}

} // verus!
