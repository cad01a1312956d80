use vstd::prelude::*;

use crate::shanten::{
    adjacent_ok, child_value, lemma_search_leaf, lemma_search_unfold, first_nonzero, gapped_ok, lemma_first_nonzero, lemma_take_decreases, min_int, no_value,
    partial_shanten, seq_start_ok, spec_standard_shanten, standard_search, take_adjacent, take_gapped,
    take_sequence, take_tiles, total_count,
};

verus! {

/// A group taken from a hand: its sort and the lowest tile kind it uses. Sorts: 0 a triplet,
/// 1 a run of three in one suit, 2 the pair, 3 a pair kept as a partial set, 4 two suited
/// tiles one rank apart, 5 two suited tiles two ranks apart.
pub type Group = (int, int);

/// How many tiles of kind `k` the group uses.
pub open spec fn group_use(g: Group, k: int) -> int {
    let kind = g.0;
    let i = g.1;
    if kind == 0 {
        if k == i {
            3
        } else {
            0
        }
    } else if kind == 1 {
        if k == i || k == i + 1 || k == i + 2 {
            1
        } else {
            0
        }
    } else if kind == 2 || kind == 3 {
        if k == i {
            2
        } else {
            0
        }
    } else if kind == 4 {
        if k == i || k == i + 1 {
            1
        } else {
            0
        }
    } else {
        if k == i || k == i + 2 {
            1
        } else {
            0
        }
    }
}

/// Whether the group is one of the six sorts on a tile kind, runs and two-tile suited shapes
/// staying inside one suit.
pub open spec fn group_ok(g: Group) -> bool {
    &&& 0 <= g.0 <= 5
    &&& 0 <= g.1 < 34
    &&& (g.0 == 1 || g.0 == 5) ==> g.1 < 27 && g.1 % 9 <= 6
    &&& g.0 == 4 ==> g.1 < 27 && g.1 % 9 <= 7
}

/// How many tiles of kind `k` the groups of a plan use together.
pub open spec fn plan_use(plan: Seq<Group>, k: int) -> int
    decreases plan.len(),
{
    if plan.len() == 0 {
        0
    } else {
        plan_use(plan.drop_last(), k) + group_use(plan.last(), k)
    }
}

/// How many groups of the plan are of a sort from `lo` to `hi`.
pub open spec fn plan_count(plan: Seq<Group>, lo: int, hi: int) -> int
    decreases plan.len(),
{
    if plan.len() == 0 {
        0
    } else {
        plan_count(plan.drop_last(), lo, hi) + if lo <= plan.last().0 <= hi {
            1int
        } else {
            0
        }
    }
}

/// The complete melds of a plan: triplets and runs.
pub open spec fn plan_melds(plan: Seq<Group>) -> int {
    plan_count(plan, 0, 1)
}

/// The pairs of a plan kept as the pair.
pub open spec fn plan_pairs(plan: Seq<Group>) -> int {
    plan_count(plan, 2, 2)
}

/// The partial sets of a plan: pairs kept as partial sets and two-tile suited shapes.
pub open spec fn plan_taatsu(plan: Seq<Group>) -> int {
    plan_count(plan, 3, 5)
}

/// Whether the plan's groups are well formed and together use no more tiles of any kind than
/// the counts hold.
pub open spec fn plan_fits(plan: Seq<Group>, c: Seq<u8>) -> bool {
    &&& forall|j: int| 0 <= j < plan.len() ==> group_ok(#[trigger] plan[j])
    &&& forall|k: int| 0 <= k < 34 ==> #[trigger] plan_use(plan, k) <= c[k]
}

/// Whether the plan may be counted with `open` exposed melds: four melds in all at most,
/// at most four partial sets, at most one pair.
pub open spec fn plan_allowed(plan: Seq<Group>, open: int) -> bool {
    &&& plan_melds(plan) + open <= 4
    &&& plan_taatsu(plan) <= 4
    &&& plan_pairs(plan) <= 1
}

/// The shanten that a plan gives with `open` exposed melds.
pub open spec fn plan_value(plan: Seq<Group>, open: int) -> int {
    partial_shanten(plan_melds(plan), plan_taatsu(plan), plan_pairs(plan), open)
}

/// The counts once the group's tiles are taken out.
pub open spec fn after_group(c: Seq<u8>, g: Group) -> Seq<u8> {
    let i = g.1;
    if g.0 == 0 {
        take_tiles(c, i, 3)
    } else if g.0 == 1 {
        take_sequence(c, i)
    } else if g.0 == 2 || g.0 == 3 {
        take_tiles(c, i, 2)
    } else if g.0 == 4 {
        take_adjacent(c, i)
    } else {
        take_gapped(c, i)
    }
}

proof fn lemma_counts_nonneg(plan: Seq<Group>, lo: int, hi: int)
    ensures
        0 <= plan_count(plan, lo, hi) <= plan.len(),
    decreases plan.len(),
{
    if plan.len() > 0 {
        lemma_counts_nonneg(plan.drop_last(), lo, hi);
    }
}

proof fn lemma_use_nonneg(plan: Seq<Group>, k: int)
    ensures
        plan_use(plan, k) >= 0,
    decreases plan.len(),
{
    if plan.len() > 0 {
        lemma_use_nonneg(plan.drop_last(), k);
    }
}

proof fn lemma_concat_use(a: Seq<Group>, b: Seq<Group>, k: int)
    ensures
        plan_use(a + b, k) == plan_use(a, k) + plan_use(b, k),
    decreases b.len(),
{
    if b.len() == 0 {
        assert(a + b =~= a);
    } else {
        lemma_concat_use(a, b.drop_last(), k);
        assert((a + b).drop_last() =~= a + b.drop_last());
        assert((a + b).last() == b.last());
    }
}

proof fn lemma_concat_count(a: Seq<Group>, b: Seq<Group>, lo: int, hi: int)
    ensures
        plan_count(a + b, lo, hi) == plan_count(a, lo, hi) + plan_count(b, lo, hi),
    decreases b.len(),
{
    if b.len() == 0 {
        assert(a + b =~= a);
    } else {
        lemma_concat_count(a, b.drop_last(), lo, hi);
        assert((a + b).drop_last() =~= a + b.drop_last());
        assert((a + b).last() == b.last());
    }
}

proof fn lemma_remove(plan: Seq<Group>, j: int)
    requires
        0 <= j < plan.len(),
    ensures
        forall|k: int| #[trigger] plan_use(plan, k) == plan_use(plan.remove(j), k) + group_use(plan[j], k),
        forall|lo: int, hi: int|
            #[trigger] plan_count(plan, lo, hi) == plan_count(plan.remove(j), lo, hi) + if lo <= plan[j].0 <= hi {
                1int
            } else {
                0
            },
{
    let a = plan.take(j);
    let b = plan.skip(j + 1);
    let one = seq![plan[j]];
    assert(plan =~= a + one + b);
    assert(plan.remove(j) =~= a + b);
    assert(one.drop_last() =~= Seq::<Group>::empty());
    assert forall|k: int| #[trigger] plan_use(plan, k) == plan_use(plan.remove(j), k) + group_use(plan[j], k) by {
        lemma_concat_use(a, one, k);
        lemma_concat_use(a + one, b, k);
        lemma_concat_use(a, b, k);
        assert(plan_use(one.drop_last(), k) == 0);
        assert(plan_use(one, k) == group_use(plan[j], k));
        assert(plan_use(plan, k) == plan_use(a + one + b, k));
        assert(plan_use(plan.remove(j), k) == plan_use(a + b, k));
    }
    assert forall|lo: int, hi: int|
        #[trigger] plan_count(plan, lo, hi) == plan_count(plan.remove(j), lo, hi) + if lo <= plan[j].0 <= hi {
            1int
        } else {
            0
        } by {
        lemma_concat_count(a, one, lo, hi);
        lemma_concat_count(a + one, b, lo, hi);
        lemma_concat_count(a, b, lo, hi);
        assert(plan_count(one.drop_last(), lo, hi) == 0);
        assert(plan_count(plan, lo, hi) == plan_count(a + one + b, lo, hi));
        assert(plan_count(plan.remove(j), lo, hi) == plan_count(a + b, lo, hi));
    }
}

proof fn lemma_push(plan: Seq<Group>, g: Group)
    ensures
        forall|k: int| #[trigger] plan_use(plan.push(g), k) == plan_use(plan, k) + group_use(g, k),
        forall|lo: int, hi: int|
            #[trigger] plan_count(plan.push(g), lo, hi) == plan_count(plan, lo, hi) + if lo <= g.0 <= hi {
                1int
            } else {
                0
            },
{
    assert(plan.push(g).drop_last() =~= plan);
}

/// A plan that fits counts with nothing below kind `i` has no group below `i`.
proof fn lemma_groups_start_at_least(plan: Seq<Group>, c: Seq<u8>, i: int)
    requires
        c.len() == 34,
        plan_fits(plan, c),
        forall|k: int| 0 <= k < i && k < 34 ==> c[k] == 0,
    ensures
        forall|j: int| 0 <= j < plan.len() ==> (#[trigger] plan[j]).1 >= i,
{
    assert forall|j: int| 0 <= j < plan.len() implies (#[trigger] plan[j]).1 >= i by {
        let s = plan[j].1;
        assert(group_ok(plan[j]));
        if s < i {
            lemma_remove(plan, j);
            lemma_use_nonneg(plan.remove(j), s);
            assert(plan_use(plan, s) >= 1);
            assert(plan_use(plan, s) <= c[s]);
        }
    }
}

/// Groups that all start above kind `i` use none of it.
proof fn lemma_no_use_below_starts(plan: Seq<Group>, i: int)
    requires
        forall|j: int| 0 <= j < plan.len() ==> (#[trigger] plan[j]).1 > i,
    ensures
        plan_use(plan, i) == 0,
    decreases plan.len(),
{
    if plan.len() > 0 {
        assert(plan.last() == plan[plan.len() - 1]);
        lemma_no_use_below_starts(plan.drop_last(), i);
    }
}

proof fn lemma_after_group(c: Seq<u8>, g: Group)
    requires
        c.len() == 34,
        group_ok(g),
        forall|k: int| 0 <= k < 34 ==> group_use(g, k) <= #[trigger] c[k],
    ensures
        after_group(c, g).len() == 34,
        forall|k: int| 0 <= k < 34 ==> #[trigger] after_group(c, g)[k] == c[k] - group_use(g, k),
{
    let i = g.1;
    assert(group_use(g, i) <= c[i]);
    if g.0 == 1 || g.0 == 5 {
        assert(group_use(g, i + 2) <= c[i + 2]);
    }
    if g.0 == 1 || g.0 == 4 {
        assert(group_use(g, i + 1) <= c[i + 1]);
    }
}

/// The search at a node is no higher than any of its children, nor than the value of stopping.
proof fn lemma_search_below_child(c: Seq<u8>, start: int, m: int, t: int, p: int, o: int, w: int)
    requires
        c.len() == 34,
        0 <= start <= 34,
        m + o <= 4,
        first_nonzero(c, start) < 34,
        0 <= w <= 6,
    ensures
        standard_search(c, start, m, t, p, o) <= partial_shanten(m, t, p, o),
        standard_search(c, start, m, t, p, o) <= child_value(c, first_nonzero(c, start), w, m, t, p, o),
{
    lemma_search_unfold(c, start, m, t, p, o);
}

/// The child of a search node that takes the group `g` at the lowest remaining kind.
proof fn lemma_child_is_group(c: Seq<u8>, i: int, g: Group, m: int, t: int, p: int, o: int)
    requires
        c.len() == 34,
        g.1 == i,
        group_ok(g),
        forall|k: int| 0 <= k < 34 ==> group_use(g, k) <= #[trigger] c[k],
        g.0 == 2 ==> p == 0,
        3 <= g.0 ==> t < 4,
    ensures
        child_value(c, i, g.0, m, t, p, o) == standard_search(
            after_group(c, g),
            i,
            if g.0 <= 1 { m + 1 } else { m },
            if g.0 >= 3 { t + 1 } else { t },
            if g.0 == 2 { 1 } else { p },
            o,
        ),
{
    assert(group_use(g, i) <= c[i]);
    if g.0 == 1 || g.0 == 5 {
        assert(group_use(g, i + 2) <= c[i + 2]);
    }
    if g.0 == 1 || g.0 == 4 {
        assert(group_use(g, i + 1) <= c[i + 1]);
    }
}

/// No order of taking groups does better than the search: whatever allowed plan fits the
/// counts, the search from the same state gives a shanten no higher than the plan's.
#[verifier::rlimit(40)]
proof fn lemma_search_below_plan(c: Seq<u8>, start: int, m: int, t: int, p: int, o: int, plan: Seq<Group>)
    requires
        c.len() == 34,
        0 <= start <= 34,
        forall|k: int| 0 <= k < start ==> c[k] == 0,
        plan_fits(plan, c),
        m >= 0,
        t >= 0,
        p >= 0,
        o >= 0,
        m + plan_melds(plan) + o <= 4,
        t + plan_taatsu(plan) <= 4,
        p + plan_pairs(plan) <= 1,
    ensures
        standard_search(c, start, m, t, p, o) <= partial_shanten(
            m + plan_melds(plan),
            t + plan_taatsu(plan),
            p + plan_pairs(plan),
            o,
        ),
    decreases total_count(c),
{
    lemma_counts_nonneg(plan, 0, 1);
    lemma_counts_nonneg(plan, 2, 2);
    lemma_counts_nonneg(plan, 3, 5);
    lemma_first_nonzero(c, start);
    let i = first_nonzero(c, start);
    let target = partial_shanten(m + plan_melds(plan), t + plan_taatsu(plan), p + plan_pairs(plan), o);
    lemma_groups_start_at_least(plan, c, i);
    if i >= 34 {
        if plan.len() > 0 {
            assert(group_ok(plan[0]));
        }
        assert(plan.len() == 0);
        assert(plan_melds(plan) == 0);
        assert(plan_taatsu(plan) == 0);
        assert(plan_pairs(plan) == 0);
        lemma_search_leaf(c, start, m, t, p, o);
    } else {
        lemma_take_decreases(c, i);
        if exists|j: int| 0 <= j < plan.len() && (#[trigger] plan[j]).1 == i {
            let j = choose|j: int| 0 <= j < plan.len() && (#[trigger] plan[j]).1 == i;
            let g = plan[j];
            let rest = plan.remove(j);
            lemma_remove(plan, j);
            assert(group_ok(g));
            assert forall|k: int| 0 <= k < 34 implies group_use(g, k) <= #[trigger] c[k] by {
                lemma_use_nonneg(rest, k);
                assert(plan_use(plan, k) <= c[k]);
            }
            lemma_after_group(c, g);
            let c2 = after_group(c, g);
            assert(plan_fits(rest, c2)) by {
                assert forall|q: int| 0 <= q < rest.len() implies group_ok(#[trigger] rest[q]) by {
                    if q < j {
                        assert(rest[q] == plan[q]);
                    } else {
                        assert(rest[q] == plan[q + 1]);
                    }
                }
                assert forall|k: int| 0 <= k < 34 implies #[trigger] plan_use(rest, k) <= c2[k] by {
                    assert(plan_use(plan, k) <= c[k]);
                }
            }
            assert forall|k: int| 0 <= k < i implies c2[k] == 0 by {
                assert(c[k] == 0);
                assert(group_use(g, k) == 0);
            }
            assert(plan_melds(plan) == plan_melds(rest) + if g.0 <= 1 { 1int } else { 0 });
            assert(plan_pairs(plan) == plan_pairs(rest) + if g.0 == 2 { 1int } else { 0 });
            assert(plan_taatsu(plan) == plan_taatsu(rest) + if g.0 >= 3 { 1int } else { 0 });
            lemma_counts_nonneg(rest, 0, 1);
            lemma_counts_nonneg(rest, 2, 2);
            lemma_counts_nonneg(rest, 3, 5);
            lemma_child_is_group(c, i, g, m, t, p, o);
            lemma_search_below_child(c, start, m, t, p, o, g.0);
            assert(total_count(c2) < total_count(c));
            lemma_search_below_plan(
                c2,
                i,
                if g.0 <= 1 { m + 1 } else { m },
                if g.0 >= 3 { t + 1 } else { t },
                if g.0 == 2 { 1 } else { p },
                o,
                rest,
            );
        } else {
            assert forall|j: int| 0 <= j < plan.len() implies (#[trigger] plan[j]).1 > i by {
                assert(plan[j].1 >= i);
            }
            lemma_no_use_below_starts(plan, i);
            let c2 = take_tiles(c, i, 1);
            assert(plan_fits(plan, c2)) by {
                assert forall|k: int| 0 <= k < 34 implies #[trigger] plan_use(plan, k) <= c2[k] by {
                    assert(plan_use(plan, k) <= c[k]);
                }
            }
            lemma_search_below_child(c, start, m, t, p, o, 6);
            lemma_search_below_plan(c2, i, m, t, p, o, plan);
        }
    }
}

/// The search's value is reached by some allowed plan that fits the counts.
proof fn lemma_search_reached(c: Seq<u8>, start: int, m: int, t: int, p: int, o: int) -> (plan: Seq<Group>)
    requires
        c.len() == 34,
        0 <= start <= 34,
        m >= 0,
        0 <= t <= 4,
        0 <= p <= 1,
        o >= 0,
        m + o <= 4,
    ensures
        plan_fits(plan, c),
        m + plan_melds(plan) + o <= 4,
        t + plan_taatsu(plan) <= 4,
        p + plan_pairs(plan) <= 1,
        standard_search(c, start, m, t, p, o) == partial_shanten(
            m + plan_melds(plan),
            t + plan_taatsu(plan),
            p + plan_pairs(plan),
            o,
        ),
    decreases total_count(c),
{
    reveal(standard_search);
    let empty = Seq::<Group>::empty();
    assert forall|k: int| 0 <= k < 34 implies #[trigger] plan_use(empty, k) <= c[k] by {}
    let here = partial_shanten(m, t, p, o);
    assert(here <= 8);
    lemma_first_nonzero(c, start);
    let i = first_nonzero(c, start);
    if i >= 34 {
        return empty;
    }
    lemma_take_decreases(c, i);
    let v = standard_search(c, start, m, t, p, o);
    if v == here {
        return empty;
    }
    // The best value comes from one of the groups that start at `i`.
    let g: Group = if c[i] >= 3 && standard_search(take_tiles(c, i, 3), i, m + 1, t, p, o) == v {
        (0, i)
    } else if seq_start_ok(c, i) && standard_search(take_sequence(c, i), i, m + 1, t, p, o) == v {
        (1, i)
    } else if p == 0 && c[i] >= 2 && standard_search(take_tiles(c, i, 2), i, m, t, 1, o) == v {
        (2, i)
    } else if t < 4 && c[i] >= 2 && standard_search(take_tiles(c, i, 2), i, m, t + 1, p, o) == v {
        (3, i)
    } else if t < 4 && adjacent_ok(c, i) && standard_search(take_adjacent(c, i), i, m, t + 1, p, o) == v {
        (4, i)
    } else if t < 4 && gapped_ok(c, i) && standard_search(take_gapped(c, i), i, m, t + 1, p, o) == v {
        (5, i)
    } else {
        (6, i)
    };
    if g.0 == 6 {
        // Leaving one tile of kind `i` unused.
        let c2 = take_tiles(c, i, 1);
        let rest = lemma_search_reached(c2, i, m, t, p, o);
        assert(plan_fits(rest, c)) by {
            assert forall|k: int| 0 <= k < 34 implies #[trigger] plan_use(rest, k) <= c[k] by {
                assert(plan_use(rest, k) <= c2[k]);
            }
        }
        return rest;
    }
    let c2 = after_group(c, g);
    assert(v <= 8);
    let m2 = if g.0 <= 1 { m + 1 } else { m };
    let t2 = if g.0 >= 3 { t + 1 } else { t };
    let p2 = if g.0 == 2 { 1 } else { p };
    assert(standard_search(c2, i, m2, t2, p2, o) == v);
    if m2 + o > 4 {
        assert(standard_search(c2, i, m2, t2, p2, o) == no_value());
    }
    let rest = lemma_search_reached(c2, i, m2, t2, p2, o);
    let plan = rest.push(g);
    lemma_push(rest, g);
    lemma_counts_nonneg(rest, 0, 1);
    assert forall|k: int| 0 <= k < 34 implies group_use(g, k) <= #[trigger] c[k] by {
        if g.0 == 1 {
            assert(seq_start_ok(c, i));
        } else if g.0 == 4 {
            assert(adjacent_ok(c, i));
        } else if g.0 == 5 {
            assert(gapped_ok(c, i));
        }
    }
    assert(group_ok(g)) by {
        if g.0 == 1 {
            assert(seq_start_ok(c, i));
        } else if g.0 == 4 {
            assert(adjacent_ok(c, i));
        } else if g.0 == 5 {
            assert(gapped_ok(c, i));
        }
    }
    lemma_after_group(c, g);
    assert(plan_fits(plan, c)) by {
        assert forall|q: int| 0 <= q < plan.len() implies group_ok(#[trigger] plan[q]) by {
            if q < rest.len() {
                assert(plan[q] == rest[q]);
            }
        }
        assert forall|k: int| 0 <= k < 34 implies #[trigger] plan_use(plan, k) <= c[k] by {
            assert(plan_use(rest, k) <= c2[k]);
        }
    }
    plan
}

/// Standard-form shanten is the best that any way of taking groups from the hand gives: no
/// allowed plan that fits the counts (at most four melds with the exposed ones, four partial
/// sets and one pair) does better than it, none is worse than eight, and with at most four
/// exposed melds some allowed plan gives exactly it; with more, no plan is allowed and it is
/// eight.
pub proof fn standard_shanten_is_the_best_plan(c: Seq<u8>, open: int, plan: Seq<Group>)
    requires
        c.len() == 34,
        open >= 0,
    ensures
        spec_standard_shanten(c, open) <= 8,
        open > 4 ==> spec_standard_shanten(c, open) == 8,
        plan_fits(plan, c) && plan_allowed(plan, open) ==> spec_standard_shanten(c, open) <= plan_value(plan, open),
        open <= 4 ==> exists|best: Seq<Group>|
            plan_fits(best, c) && plan_allowed(best, open) && spec_standard_shanten(c, open) == plan_value(best, open),
{
    lemma_search_leaf(c, 0, 0, 0, 0, open);
    if plan_fits(plan, c) && plan_allowed(plan, open) {
        lemma_search_below_plan(c, 0, 0, 0, 0, open, plan);
    }
    if open <= 4 {
        let best = lemma_search_reached(c, 0, 0, 0, 0, open);
        lemma_counts_nonneg(best, 0, 1);
        lemma_counts_nonneg(best, 2, 2);
        lemma_counts_nonneg(best, 3, 5);
        assert(plan_fits(best, c) && plan_allowed(best, open) && spec_standard_shanten(c, open) == plan_value(best, open));
    }
}

} // verus!
