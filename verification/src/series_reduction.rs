//! Reduction of a series string: which cells are folded together, what the
//! reduced string holds, and what reduction keeps.

use vstd::prelude::*;
use crate::grouping::{
    group_count, group_to_origins, is_leader, leader, leader_at, lemma_all_leaders, lemma_leader,
    lemma_leader_at, lemma_leader_at_rank, lemma_leader_is_leader, lemma_members,
    lemma_members_first, lemma_members_start, lemma_rank_after_leader, lemma_rank_bounds,
    lemma_rank_injective, lemma_singleton_groups, members, origin_to_group, rank, transitive,
};
use crate::pvcell::PvCell;

verus! {

/// Series equivalence as a relation on cells.
pub open spec fn series_relation() -> spec_fn(PvCell, PvCell) -> bool {
    |a: PvCell, b: PvCell| a.series_equivalent(b)
}

/// The sum of the series counts of the cells at the listed indices.
pub open spec fn series_count_over(cells: Seq<PvCell>, indices: Seq<u32>) -> int
    decreases indices.len(),
{
    if indices.len() == 0 {
        0
    } else {
        series_count_over(cells, indices.drop_last()) + cells[indices.last() as int].ns
    }
}

/// The sum of the series counts of all cells.
pub open spec fn total_series_count(cells: Seq<PvCell>) -> int
    decreases cells.len(),
{
    if cells.len() == 0 {
        0
    } else {
        total_series_count(cells.drop_last()) + cells.last().ns
    }
}

/// The series count of the group led by `l`: the sum over its members.
pub open spec fn folded_series_count(cells: Seq<PvCell>, l: int) -> int {
    series_count_over(cells, members(cells, series_relation(), l, cells.len() as int))
}

/// Every group's series count fits the counter of a cell.
pub open spec fn foldable(cells: Seq<PvCell>) -> bool {
    forall|l: int| 0 <= l < cells.len() ==> #[trigger] folded_series_count(cells, l) <= u32::MAX
}

/// The cell that stands for the group led by `l`: the leader's parameters,
/// parallel count and solver, with the group's series count.
pub open spec fn merged_cell(cells: Seq<PvCell>, l: int) -> PvCell {
    PvCell { ns: folded_series_count(cells, l) as u32, ..cells[l] }
}

/// The reduced string: one merged cell per group, in the order of the leaders.
pub open spec fn reduced_cells(cells: Seq<PvCell>) -> Seq<PvCell> {
    Seq::new(
        group_count(cells, series_relation()) as nat,
        |j: int| merged_cell(cells, leader_at(cells, series_relation(), j)),
    )
}

/// Series equivalence is transitive.
pub proof fn lemma_series_relation_transitive()
    ensures
        transitive(series_relation()),
{
}

/// Listing one more index adds that cell's series count.
pub proof fn lemma_series_count_push(cells: Seq<PvCell>, indices: Seq<u32>, x: u32)
    ensures
        series_count_over(cells, indices.push(x)) == series_count_over(cells, indices)
            + cells[x as int].ns,
{
    assert(indices.push(x).drop_last() =~= indices);
}

/// A group's series count over a prefix never exceeds its count over the whole string.
pub proof fn lemma_series_count_grows(cells: Seq<PvCell>, l: int, a: int, b: int)
    requires
        a <= b,
    ensures
        0 <= series_count_over(cells, members(cells, series_relation(), l, a))
            <= series_count_over(cells, members(cells, series_relation(), l, b)),
    decreases b - a, b,
{
    let rel = series_relation();
    if a < b {
        lemma_series_count_grows(cells, l, a, b - 1);
        if b > 0 && leader(cells, rel, b - 1) == l {
            lemma_series_count_push(cells, members(cells, rel, l, b - 1), (b - 1) as u32);
        }
    } else if a > 0 {
        lemma_series_count_grows(cells, l, a - 1, a - 1);
        if leader(cells, rel, a - 1) == l {
            lemma_series_count_push(cells, members(cells, rel, l, a - 1), (a - 1) as u32);
        }
    }
}

/// A string whose series counts add up to a 32-bit value can be reduced.
pub proof fn lemma_foldable_by_total(cells: Seq<PvCell>)
    requires
        cells.len() <= u32::MAX,
        total_series_count(cells) <= u32::MAX,
    ensures
        foldable(cells),
{
    assert forall|l: int| 0 <= l < cells.len() implies #[trigger] folded_series_count(cells, l)
        <= u32::MAX by {
        lemma_group_within_total(cells, l, cells.len() as int);
        assert(cells.take(cells.len() as int) =~= cells);
    }
}

/// Over any prefix, a group's series count is at most the prefix's total.
pub proof fn lemma_group_within_total(cells: Seq<PvCell>, l: int, k: int)
    requires
        0 <= k <= cells.len() <= u32::MAX,
    ensures
        series_count_over(cells, members(cells, series_relation(), l, k)) <= total_series_count(
            cells.take(k),
        ),
    decreases k,
{
    let rel = series_relation();
    if k > 0 {
        lemma_group_within_total(cells, l, k - 1);
        assert(cells.take(k).drop_last() =~= cells.take(k - 1));
        if leader(cells, rel, k - 1) == l {
            lemma_series_count_push(cells, members(cells, rel, l, k - 1), (k - 1) as u32);
        }
    }
}

/// No cell of a reduced string is series-equivalent to a later one.
pub proof fn lemma_reduced_cells_distinct(cells: Seq<PvCell>, a: int, b: int)
    requires
        0 <= a < b < reduced_cells(cells).len(),
    ensures
        !reduced_cells(cells)[a].series_equivalent(reduced_cells(cells)[b]),
{
    let rel = series_relation();
    lemma_rank_bounds(cells, rel, cells.len() as int);
    lemma_leader_at(cells, rel, a);
    lemma_leader_at(cells, rel, b);
    let la = leader_at(cells, rel, a);
    let lb = leader_at(cells, rel, b);
    if lb < la {
        lemma_rank_after_leader(cells, rel, lb, la);
    }
    lemma_leader(cells, rel, lb);
    assert(!rel(cells[la], cells[lb]));
}

/// A string in which no cell is series-equivalent to a later one is its own reduction.
pub proof fn lemma_reduced_cells_of_distinct(cells: Seq<PvCell>)
    requires
        cells.len() <= u32::MAX,
        forall|a: int, b: int|
            0 <= a < b < cells.len() ==> !(#[trigger] cells[a]).series_equivalent(
                #[trigger] cells[b],
            ),
    ensures
        reduced_cells(cells) == cells,
        foldable(cells),
{
    let rel = series_relation();
    assert forall|a: int, b: int| 0 <= a < b < cells.len() implies !rel(
        #[trigger] cells[a],
        #[trigger] cells[b],
    ) by {
        assert(!cells[a].series_equivalent(cells[b]));
    }
    lemma_all_leaders(cells, rel, cells.len() as int);
    assert forall|j: int| 0 <= j < cells.len() implies #[trigger] folded_series_count(cells, j)
        == cells[j].ns by {
        lemma_singleton_groups(cells, rel, j, cells.len() as int);
        lemma_series_count_push(cells, Seq::<u32>::empty(), j as u32);
        assert(seq![j as u32] =~= Seq::<u32>::empty().push(j as u32));
    }
    assert forall|j: int| 0 <= j < cells.len() implies #[trigger] reduced_cells(cells)[j]
        == cells[j] by {
        lemma_all_leaders(cells, rel, j);
        lemma_leader_at_rank(cells, rel, j);
        assert(folded_series_count(cells, j) == cells[j].ns);
    }
    assert(reduced_cells(cells) =~= cells);
}

/// Reducing a reduced string changes nothing: no further cells can be
/// folded, so the cells and their number stay as they are.
pub proof fn lemma_reduce_idempotent(cells: Seq<PvCell>)
    requires
        cells.len() <= u32::MAX,
    ensures
        reduced_cells(reduced_cells(cells)) == reduced_cells(cells),
        reduced_cells(reduced_cells(cells)).len() == reduced_cells(cells).len(),
        reduced_cells(cells).len() <= cells.len(),
        foldable(reduced_cells(cells)),
{
    let once = reduced_cells(cells);
    lemma_rank_bounds(cells, series_relation(), cells.len() as int);
    assert forall|a: int, b: int| 0 <= a < b < once.len() implies !(#[trigger] once[a])
        .series_equivalent(#[trigger] once[b]) by {
        lemma_reduced_cells_distinct(cells, a, b);
    }
    lemma_reduced_cells_of_distinct(once);
}

/// Each cell of the string is represented by the cell of its group: that cell
/// is the given one with another series count where the given one leads the
/// group, and series-equivalent to the given one otherwise.
pub proof fn lemma_reduced_cell_represents(cells: Seq<PvCell>, i: int)
    requires
        0 <= i < cells.len() <= u32::MAX,
    ensures
        0 <= origin_to_group(cells, series_relation())[i] < reduced_cells(cells).len(),
        ({
            let cell = reduced_cells(cells)[origin_to_group(cells, series_relation())[i] as int];
            if is_leader(cells, series_relation(), i) {
                cell == (PvCell { ns: cell.ns, ..cells[i] })
            } else {
                cell.series_equivalent(cells[i])
            }
        }),
        group_to_origins(cells, series_relation())[origin_to_group(
            cells,
            series_relation(),
        )[i] as int].contains(i as u32),
{
    let rel = series_relation();
    lemma_series_relation_transitive();
    lemma_leader(cells, rel, i);
    lemma_leader_is_leader(cells, rel, i);
    let l = leader(cells, rel, i);
    lemma_leader_at_rank(cells, rel, l);
    lemma_rank_bounds(cells, rel, cells.len() as int);
    lemma_members(cells, rel, l, cells.len() as int);
}

/// The cell of a group carries the parameters, parallel count and solver of
/// the first index that the group lists, and the series counts of all of them.
pub proof fn lemma_reduced_cell_from_members(cells: Seq<PvCell>, j: int)
    requires
        cells.len() <= u32::MAX,
        0 <= j < reduced_cells(cells).len(),
    ensures
        group_to_origins(cells, series_relation())[j].len() >= 1,
        group_to_origins(cells, series_relation())[j][0] < cells.len(),
        reduced_cells(cells)[j] == (PvCell {
            ns: series_count_over(cells, group_to_origins(cells, series_relation())[j]) as u32,
            ..cells[group_to_origins(cells, series_relation())[j][0] as int]
        }),
{
    let rel = series_relation();
    lemma_rank_bounds(cells, rel, cells.len() as int);
    lemma_leader_at(cells, rel, j);
    lemma_members_first(cells, rel, leader_at(cells, rel, j), cells.len() as int);
}

/// Reduction keeps multiplicities positive.
pub proof fn lemma_reduced_cells_wf(cells: Seq<PvCell>, j: int)
    requires
        cells.len() <= u32::MAX,
        foldable(cells),
        forall|i: int| 0 <= i < cells.len() ==> (#[trigger] cells[i]).wf(),
        0 <= j < reduced_cells(cells).len(),
    ensures
        reduced_cells(cells)[j].wf(),
{
    let rel = series_relation();
    lemma_rank_bounds(cells, rel, cells.len() as int);
    lemma_leader_at(cells, rel, j);
    let l = leader_at(cells, rel, j);
    lemma_members_start(cells, rel, l, l);
    lemma_series_count_push(cells, Seq::<u32>::empty(), l as u32);
    lemma_series_count_grows(cells, l, l + 1, cells.len() as int);
    assert(cells[l].wf());
    assert(folded_series_count(cells, l) <= u32::MAX);
}

/// The two cells are series-equivalent, or differ in their series count alone.
pub open spec fn series_alike(a: PvCell, b: PvCell) -> bool {
    a.series_equivalent(b) || (PvCell { ns: b.ns, ..a }) == b
}

/// `weight` is a quantity of one sub-cell that series-equivalent cells share
/// and that does not depend on how many sub-cells are stacked: such is the
/// voltage of one sub-cell at a given string current, in any fixed unit.
pub open spec fn per_subcell(weight: spec_fn(PvCell) -> int) -> bool {
    forall|a: PvCell, b: PvCell| #[trigger] series_alike(a, b) ==> weight(a) == weight(b)
}

/// The string's total of a per-sub-cell quantity: each cell counts as many
/// times as it has sub-cells in series.
pub open spec fn weighted_series_total(cells: Seq<PvCell>, weight: spec_fn(PvCell) -> int) -> int
    decreases cells.len(),
{
    if cells.len() == 0 {
        0
    } else {
        weighted_series_total(cells.drop_last(), weight) + cells.last().ns * weight(cells.last())
    }
}

/// The total of a per-sub-cell quantity over the cells at the listed indices.
pub open spec fn weighted_series_over(
    cells: Seq<PvCell>,
    indices: Seq<u32>,
    weight: spec_fn(PvCell) -> int,
) -> int
    decreases indices.len(),
{
    if indices.len() == 0 {
        0
    } else {
        weighted_series_over(cells, indices.drop_last(), weight) + cells[indices.last() as int].ns
            * weight(cells[indices.last() as int])
    }
}

/// The total of a per-sub-cell quantity over the members below `k` of the first `g` groups.
pub open spec fn weighted_groups_total(
    cells: Seq<PvCell>,
    g: int,
    k: int,
    weight: spec_fn(PvCell) -> int,
) -> int
    decreases g,
{
    if g <= 0 {
        0
    } else {
        weighted_groups_total(cells, g - 1, k, weight) + weighted_series_over(
            cells,
            members(cells, series_relation(), leader_at(cells, series_relation(), g - 1), k),
            weight,
        )
    }
}

/// The weight that counts every sub-cell once.
pub open spec fn unit_weight() -> spec_fn(PvCell) -> int {
    |c: PvCell| 1int
}

/// Listing one more index adds that cell's share.
proof fn lemma_weighted_series_push(
    cells: Seq<PvCell>,
    indices: Seq<u32>,
    x: u32,
    weight: spec_fn(PvCell) -> int,
)
    ensures
        weighted_series_over(cells, indices.push(x), weight) == weighted_series_over(
            cells,
            indices,
            weight,
        ) + cells[x as int].ns * weight(cells[x as int]),
{
    assert(indices.push(x).drop_last() =~= indices);
}

/// Within one group every member weighs what the leader weighs, so the
/// group's total is its series count times the leader's weight.
proof fn lemma_weighted_group(cells: Seq<PvCell>, l: int, k: int, weight: spec_fn(PvCell) -> int)
    requires
        per_subcell(weight),
        0 <= k <= cells.len() <= u32::MAX,
        0 <= l,
    ensures
        weighted_series_over(cells, members(cells, series_relation(), l, k), weight)
            == series_count_over(cells, members(cells, series_relation(), l, k)) * weight(cells[l]),
    decreases k,
{
    let rel = series_relation();
    if k > 0 {
        lemma_weighted_group(cells, l, k - 1, weight);
        if leader(cells, rel, k - 1) == l {
            let before = members(cells, rel, l, k - 1);
            lemma_weighted_series_push(cells, before, (k - 1) as u32, weight);
            lemma_series_count_push(cells, before, (k - 1) as u32);
            lemma_leader(cells, rel, k - 1);
            assert(series_alike(cells[l], cells[k - 1]));
            let count = series_count_over(cells, before);
            let ns = cells[k - 1].ns as int;
            let w = weight(cells[l]);
            assert((count + ns) * w == count * w + ns * w) by (nonlinear_arith);
        }
    } else {
        assert(0 * weight(cells[l]) == 0);
    }
}

/// Taking one more cell into account adds its share to the one group that it joins.
proof fn lemma_weighted_groups_step(
    cells: Seq<PvCell>,
    g: int,
    k: int,
    weight: spec_fn(PvCell) -> int,
)
    requires
        0 <= k < cells.len() <= u32::MAX,
        0 <= g <= group_count(cells, series_relation()),
    ensures
        weighted_groups_total(cells, g, k + 1, weight) == weighted_groups_total(cells, g, k, weight)
            + if rank(cells, series_relation(), leader(cells, series_relation(), k)) < g {
            cells[k].ns * weight(cells[k])
        } else {
            0
        },
    decreases g,
{
    let rel = series_relation();
    lemma_rank_bounds(cells, rel, leader(cells, rel, k));
    if g > 0 {
        lemma_weighted_groups_step(cells, g - 1, k, weight);
        lemma_series_relation_transitive();
        lemma_leader_at(cells, rel, g - 1);
        lemma_leader(cells, rel, k);
        lemma_leader_is_leader(cells, rel, k);
        let l = leader_at(cells, rel, g - 1);
        let lk = leader(cells, rel, k);
        if lk == l {
            lemma_weighted_series_push(cells, members(cells, rel, l, k), k as u32, weight);
        } else if rank(cells, rel, lk) == g - 1 {
            lemma_rank_injective(cells, rel, lk, l);
        }
    }
}

/// Before any cell is taken into account every group's total is zero.
proof fn lemma_weighted_groups_start(cells: Seq<PvCell>, g: int, weight: spec_fn(PvCell) -> int)
    ensures
        weighted_groups_total(cells, g, 0, weight) == 0,
    decreases g,
{
    if g > 0 {
        lemma_weighted_groups_start(cells, g - 1, weight);
    }
}

/// Over any prefix, the groups' totals add up to the prefix's total.
proof fn lemma_weighted_groups_cover(cells: Seq<PvCell>, k: int, weight: spec_fn(PvCell) -> int)
    requires
        0 <= k <= cells.len() <= u32::MAX,
    ensures
        weighted_groups_total(cells, group_count(cells, series_relation()), k, weight)
            == weighted_series_total(cells.take(k), weight),
    decreases k,
{
    let rel = series_relation();
    let groups = group_count(cells, rel);
    lemma_rank_bounds(cells, rel, cells.len() as int);
    if k == 0 {
        lemma_weighted_groups_start(cells, groups, weight);
    } else {
        lemma_weighted_groups_cover(cells, k - 1, weight);
        lemma_weighted_groups_step(cells, groups, k - 1, weight);
        lemma_series_relation_transitive();
        lemma_leader(cells, rel, k - 1);
        lemma_leader_is_leader(cells, rel, k - 1);
        lemma_rank_after_leader(cells, rel, leader(cells, rel, k - 1), cells.len() as int);
        assert(cells.take(k).drop_last() =~= cells.take(k - 1));
    }
}

/// The first `g` cells of the reduced string weigh what the first `g` groups weigh.
proof fn lemma_weighted_reduced_prefix(cells: Seq<PvCell>, g: int, weight: spec_fn(PvCell) -> int)
    requires
        per_subcell(weight),
        cells.len() <= u32::MAX,
        foldable(cells),
        0 <= g <= reduced_cells(cells).len(),
    ensures
        weighted_series_total(reduced_cells(cells).take(g), weight) == weighted_groups_total(
            cells,
            g,
            cells.len() as int,
            weight,
        ),
    decreases g,
{
    let rel = series_relation();
    let reduced = reduced_cells(cells);
    if g > 0 {
        lemma_weighted_reduced_prefix(cells, g - 1, weight);
        lemma_rank_bounds(cells, rel, cells.len() as int);
        lemma_leader_at(cells, rel, g - 1);
        let l = leader_at(cells, rel, g - 1);
        lemma_series_count_grows(cells, l, 0, cells.len() as int);
        assert(folded_series_count(cells, l) <= u32::MAX);
        lemma_weighted_group(cells, l, cells.len() as int, weight);
        assert(reduced.take(g).drop_last() =~= reduced.take(g - 1));
        assert(reduced.take(g).last() == merged_cell(cells, l));
        assert(series_alike(cells[l], merged_cell(cells, l)));
    }
}

/// Reduction changes no total that is linear in the series count: whatever
/// series-equivalent cells share per sub-cell, and so the voltage of one
/// sub-cell at the string's current, adds up over the reduced string to
/// what it adds up to over the given one.
pub proof fn lemma_reduce_keeps_weighted_total(cells: Seq<PvCell>, weight: spec_fn(PvCell) -> int)
    requires
        cells.len() <= u32::MAX,
        foldable(cells),
        per_subcell(weight),
    ensures
        weighted_series_total(reduced_cells(cells), weight) == weighted_series_total(cells, weight),
{
    let reduced = reduced_cells(cells);
    lemma_rank_bounds(cells, series_relation(), cells.len() as int);
    lemma_weighted_reduced_prefix(cells, reduced.len() as int, weight);
    lemma_weighted_groups_cover(cells, cells.len() as int, weight);
    assert(reduced.take(reduced.len() as int) =~= reduced);
    assert(cells.take(cells.len() as int) =~= cells);
}

/// Counting every sub-cell once gives the total series count.
proof fn lemma_unit_weight_total(cells: Seq<PvCell>)
    ensures
        weighted_series_total(cells, unit_weight()) == total_series_count(cells),
    decreases cells.len(),
{
    if cells.len() > 0 {
        lemma_unit_weight_total(cells.drop_last());
    }
}

/// Reduction moves series counts between cells and loses none: the reduced
/// string's counts add up to what the given string's add up to.
pub proof fn lemma_reduce_keeps_total_series_count(cells: Seq<PvCell>)
    requires
        cells.len() <= u32::MAX,
        foldable(cells),
    ensures
        total_series_count(reduced_cells(cells)) == total_series_count(cells),
{
    lemma_reduce_keeps_weighted_total(cells, unit_weight());
    lemma_unit_weight_total(cells);
    lemma_unit_weight_total(reduced_cells(cells));
}

} // verus!
