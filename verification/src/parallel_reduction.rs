//! Reduction of a parallel array: which strings are folded together, what
//! the reduced array holds, and what reduction keeps.

use vstd::prelude::*;
use crate::grouping::{
    group_count, group_to_origins, is_leader, leader, leader_at, lemma_all_leaders,
    lemma_group_count_full, lemma_leader, lemma_leader_at, lemma_leader_at_rank,
    lemma_leader_is_leader, lemma_members, lemma_members_start, lemma_rank_after_leader,
    lemma_rank_bounds, lemma_singleton_groups, members, origin_to_group, transitive,
};
use crate::pvcell::PvCell;
use crate::series_reduction::{
    foldable, lemma_reduced_cells_of_distinct, lemma_reduced_cells_wf, reduced_cells,
    series_relation,
};

verus! {

/// Parallel equivalence of two strings: the same number of cells, and cell by
/// cell the same physical parameters and the same series count.
pub open spec fn strings_parallel_equivalent(a: Seq<PvCell>, b: Seq<PvCell>) -> bool {
    &&& a.len() == b.len()
    &&& forall|q: int| 0 <= q < a.len() ==> (#[trigger] a[q]).parallel_equivalent(b[q])
}

/// Parallel equivalence as a relation on strings.
pub open spec fn parallel_relation() -> spec_fn(Seq<PvCell>, Seq<PvCell>) -> bool {
    |a: Seq<PvCell>, b: Seq<PvCell>| strings_parallel_equivalent(a, b)
}

/// Each string reduced on its own.
pub open spec fn reduced_children(strings: Seq<Seq<PvCell>>) -> Seq<Seq<PvCell>> {
    Seq::new(strings.len(), |k: int| reduced_cells(strings[k]))
}

/// The sum, over the listed strings, of the parallel count of the cell at position `q`.
pub open spec fn parallel_count_over(strings: Seq<Seq<PvCell>>, indices: Seq<u32>, q: int) -> int
    decreases indices.len(),
{
    if indices.len() == 0 {
        0
    } else {
        parallel_count_over(strings, indices.drop_last(), q) + strings[indices.last() as int][q].np
    }
}

/// The string that stands for the members below `upto` of the group led by
/// `l`: the leader's cells, each with the members' parallel counts added up.
pub open spec fn folded_string(strings: Seq<Seq<PvCell>>, l: int, upto: int) -> Seq<PvCell> {
    Seq::new(
        strings[l].len(),
        |q: int|
            PvCell {
                np: parallel_count_over(
                    strings,
                    members(strings, parallel_relation(), l, upto),
                    q,
                ) as u32,
                ..strings[l][q]
            },
    )
}

/// At every position the parallel counts of the members below `upto` of the
/// group led by `l` add up to a 32-bit value.
pub open spec fn group_fits(strings: Seq<Seq<PvCell>>, l: int, upto: int) -> bool {
    forall|q: int|
        0 <= q < strings[l].len() ==> #[trigger] parallel_count_over(
            strings,
            members(strings, parallel_relation(), l, upto),
            q,
        ) <= u32::MAX
}

/// Every group's parallel counts fit the counter of a cell.
pub open spec fn parallel_foldable(strings: Seq<Seq<PvCell>>) -> bool {
    forall|l: int| 0 <= l < strings.len() ==> #[trigger] group_fits(strings, l, strings.len() as int)
}

/// One folded string per group of parallel-equivalent strings, in the order of the leaders.
pub open spec fn merged_strings(strings: Seq<Seq<PvCell>>) -> Seq<Seq<PvCell>> {
    Seq::new(
        group_count(strings, parallel_relation()) as nat,
        |j: int|
            folded_string(strings, leader_at(strings, parallel_relation(), j), strings.len() as int),
    )
}

/// The reduced array: every string reduced on its own, then parallel-equivalent
/// strings folded together.
pub open spec fn reduced_strings(strings: Seq<Seq<PvCell>>) -> Seq<Seq<PvCell>> {
    merged_strings(reduced_children(strings))
}

/// The array can be reduced within 32-bit indices and counts.
pub open spec fn reducible(strings: Seq<Seq<PvCell>>) -> bool {
    &&& strings.len() <= u32::MAX
    &&& forall|k: int|
        0 <= k < strings.len() ==> (#[trigger] strings[k]).len() <= u32::MAX && foldable(strings[k])
    &&& parallel_foldable(reduced_children(strings))
}

/// Parallel equivalence of strings is transitive.
pub proof fn lemma_parallel_relation_transitive()
    ensures
        transitive(parallel_relation()),
{
    let rel = parallel_relation();
    assert forall|a: Seq<PvCell>, b: Seq<PvCell>, c: Seq<PvCell>|
        #![trigger rel(a, b), rel(b, c)]
        rel(a, b) && rel(b, c) implies rel(a, c) by {
        assert forall|q: int| 0 <= q < a.len() implies (#[trigger] a[q]).parallel_equivalent(
            c[q],
        ) by {
            assert(a[q].parallel_equivalent(b[q]));
            assert(b[q].parallel_equivalent(c[q]));
        }
    }
}

/// Listing one more string adds the parallel count of its cell at `q`.
pub proof fn lemma_parallel_count_push(
    strings: Seq<Seq<PvCell>>,
    indices: Seq<u32>,
    x: u32,
    q: int,
)
    ensures
        parallel_count_over(strings, indices.push(x), q) == parallel_count_over(strings, indices, q)
            + strings[x as int][q].np,
{
    assert(indices.push(x).drop_last() =~= indices);
}

/// A group's parallel count over a prefix never exceeds its count over the whole array.
pub proof fn lemma_parallel_count_grows(strings: Seq<Seq<PvCell>>, l: int, q: int, a: int, b: int)
    requires
        a <= b,
    ensures
        0 <= parallel_count_over(strings, members(strings, parallel_relation(), l, a), q)
            <= parallel_count_over(strings, members(strings, parallel_relation(), l, b), q),
    decreases b - a, b,
{
    let rel = parallel_relation();
    if a < b {
        lemma_parallel_count_grows(strings, l, q, a, b - 1);
        if b > 0 && leader(strings, rel, b - 1) == l {
            lemma_parallel_count_push(strings, members(strings, rel, l, b - 1), (b - 1) as u32, q);
        }
    } else if a > 0 {
        lemma_parallel_count_grows(strings, l, q, a - 1, a - 1);
        if leader(strings, rel, a - 1) == l {
            lemma_parallel_count_push(strings, members(strings, rel, l, a - 1), (a - 1) as u32, q);
        }
    }
}

/// Folding changes parallel counts only, so a folded string is
/// parallel-equivalent to whatever its leader is.
pub proof fn lemma_folded_string_stands_for_leader(
    strings: Seq<Seq<PvCell>>,
    l: int,
    upto: int,
    other: Seq<PvCell>,
)
    ensures
        strings_parallel_equivalent(folded_string(strings, l, upto), other)
            == strings_parallel_equivalent(strings[l], other),
{
    let folded = folded_string(strings, l, upto);
    if strings_parallel_equivalent(folded, other) {
        assert forall|q: int| 0 <= q < strings[l].len() implies (#[trigger] strings[l][q])
            .parallel_equivalent(other[q]) by {
            assert(folded[q].parallel_equivalent(other[q]));
        }
    }
    if strings_parallel_equivalent(strings[l], other) {
        assert forall|q: int| 0 <= q < folded.len() implies (#[trigger] folded[q])
            .parallel_equivalent(other[q]) by {
            assert(strings[l][q].parallel_equivalent(other[q]));
        }
    }
}

/// No string of a reduced array is parallel-equivalent to a later one.
pub proof fn lemma_merged_strings_distinct(strings: Seq<Seq<PvCell>>, a: int, b: int)
    requires
        0 <= a < b < merged_strings(strings).len(),
    ensures
        !strings_parallel_equivalent(merged_strings(strings)[a], merged_strings(strings)[b]),
{
    let rel = parallel_relation();
    let n = strings.len() as int;
    lemma_rank_bounds(strings, rel, n);
    lemma_leader_at(strings, rel, a);
    lemma_leader_at(strings, rel, b);
    let la = leader_at(strings, rel, a);
    let lb = leader_at(strings, rel, b);
    if lb < la {
        lemma_rank_after_leader(strings, rel, lb, la);
    }
    lemma_leader(strings, rel, lb);
    assert(!rel(strings[la], strings[lb]));
    lemma_folded_string_stands_for_leader(strings, la, n, strings[lb]);
    if strings_parallel_equivalent(merged_strings(strings)[a], merged_strings(strings)[b]) {
        let fa = folded_string(strings, la, n);
        let fb = folded_string(strings, lb, n);
        assert forall|q: int| 0 <= q < fa.len() implies (#[trigger] fa[q]).parallel_equivalent(
            strings[lb][q],
        ) by {
            assert(fa[q].parallel_equivalent(fb[q]));
        }
        assert(strings_parallel_equivalent(fa, strings[lb]));
    }
}

/// An array in which no string is parallel-equivalent to a later one is left
/// as it is when its strings are folded.
pub proof fn lemma_merged_strings_of_distinct(strings: Seq<Seq<PvCell>>)
    requires
        strings.len() <= u32::MAX,
        forall|a: int, b: int|
            0 <= a < b < strings.len() ==> !strings_parallel_equivalent(
                #[trigger] strings[a],
                #[trigger] strings[b],
            ),
    ensures
        merged_strings(strings) == strings,
        parallel_foldable(strings),
{
    let rel = parallel_relation();
    let n = strings.len() as int;
    assert forall|a: int, b: int| 0 <= a < b < strings.len() implies !rel(
        #[trigger] strings[a],
        #[trigger] strings[b],
    ) by {
        assert(!strings_parallel_equivalent(strings[a], strings[b]));
    }
    lemma_all_leaders(strings, rel, n);
    assert forall|j: int, q: int| 0 <= j < n implies #[trigger] parallel_count_over(
        strings,
        members(strings, rel, j, n),
        q,
    ) == strings[j][q].np by {
        lemma_singleton_groups(strings, rel, j, n);
        lemma_parallel_count_push(strings, Seq::<u32>::empty(), j as u32, q);
        assert(seq![j as u32] =~= Seq::<u32>::empty().push(j as u32));
    }
    assert forall|j: int| 0 <= j < n implies #[trigger] merged_strings(strings)[j]
        == strings[j] by {
        lemma_all_leaders(strings, rel, j);
        lemma_leader_at_rank(strings, rel, j);
        assert(folded_string(strings, j, n) =~= strings[j]);
    }
    assert(merged_strings(strings) =~= strings);
    assert forall|l: int| 0 <= l < n implies #[trigger] group_fits(strings, l, n) by {}
}

/// Reducing a reduced array changes nothing, provided that folding its
/// strings did not leave two series-equivalent cells in one string (adding
/// parallel counts can make cells of one string alike that were not).
pub proof fn lemma_parallel_reduce_idempotent(strings: Seq<Seq<PvCell>>)
    requires
        strings.len() <= u32::MAX,
        forall|k: int| 0 <= k < strings.len() ==> (#[trigger] strings[k]).len() <= u32::MAX,
        forall|j: int, a: int, b: int|
            0 <= j < reduced_strings(strings).len() && 0 <= a < b < reduced_strings(
                strings,
            )[j].len() ==> !(#[trigger] reduced_strings(strings)[j][a]).series_equivalent(
                #[trigger] reduced_strings(strings)[j][b],
            ),
    ensures
        reduced_strings(reduced_strings(strings)) == reduced_strings(strings),
        reduced_strings(reduced_strings(strings)).len() == reduced_strings(strings).len(),
        reducible(reduced_strings(strings)),
{
    let rel = parallel_relation();
    let children = reduced_children(strings);
    let once = reduced_strings(strings);
    lemma_rank_bounds(children, rel, children.len() as int);
    assert forall|j: int| 0 <= j < once.len() implies #[trigger] reduced_cells(once[j]) == once[j]
        && once[j].len() <= u32::MAX && foldable(once[j]) by {
        lemma_leader_at(children, rel, j);
        let l = leader_at(children, rel, j);
        lemma_rank_bounds(strings[l], series_relation(), strings[l].len() as int);
        assert(once[j].len() == children[l].len());
        assert forall|a: int, b: int| 0 <= a < b < once[j].len() implies !(#[trigger] once[j][a])
            .series_equivalent(#[trigger] once[j][b]) by {
            assert(!reduced_strings(strings)[j][a].series_equivalent(
                reduced_strings(strings)[j][b],
            ));
        }
        lemma_reduced_cells_of_distinct(once[j]);
    }
    assert(reduced_children(once) =~= once);
    assert forall|a: int, b: int| 0 <= a < b < once.len() implies !strings_parallel_equivalent(
        #[trigger] once[a],
        #[trigger] once[b],
    ) by {
        lemma_merged_strings_distinct(children, a, b);
    }
    lemma_merged_strings_of_distinct(once);
}

/// Reducing a reduced array keeps the number of its strings exactly when
/// none of them, reduced once more, is parallel-equivalent to a later one.
pub proof fn lemma_parallel_reduce_keeps_count(strings: Seq<Seq<PvCell>>)
    ensures
        reduced_strings(reduced_strings(strings)).len() == reduced_strings(strings).len()
            <==> forall|a: int, b: int|
            0 <= a < b < reduced_strings(strings).len() ==> !strings_parallel_equivalent(
                #[trigger] reduced_children(reduced_strings(strings))[a],
                #[trigger] reduced_children(reduced_strings(strings))[b],
            ),
{
    let rel = parallel_relation();
    let again = reduced_children(reduced_strings(strings));
    lemma_group_count_full(again, rel);
    lemma_rank_bounds(again, rel, again.len() as int);
    if forall|a: int, b: int|
        0 <= a < b < again.len() ==> !rel(#[trigger] again[a], #[trigger] again[b]) {
        assert forall|a: int, b: int|
            0 <= a < b < again.len() implies !strings_parallel_equivalent(
            #[trigger] again[a],
            #[trigger] again[b],
        ) by {
            assert(!rel(again[a], again[b]));
        }
    } else {
        let (a, b) = choose|a: int, b: int|
            0 <= a < b < again.len() && rel(#[trigger] again[a], #[trigger] again[b]);
        assert(strings_parallel_equivalent(again[a], again[b]));
    }
}

/// Each string of the array, once reduced, is represented by the string of its
/// group: that string has the reduced string's cells with other parallel
/// counts where it leads the group, and is parallel-equivalent to it otherwise.
pub proof fn lemma_reduced_string_represents(strings: Seq<Seq<PvCell>>, i: int)
    requires
        0 <= i < strings.len() <= u32::MAX,
    ensures
        0 <= origin_to_group(reduced_children(strings), parallel_relation())[i] < reduced_strings(
            strings,
        ).len(),
        strings_parallel_equivalent(
            reduced_strings(strings)[origin_to_group(
                reduced_children(strings),
                parallel_relation(),
            )[i] as int],
            reduced_cells(strings[i]),
        ) || is_leader(reduced_children(strings), parallel_relation(), i),
        is_leader(reduced_children(strings), parallel_relation(), i) ==> reduced_strings(
            strings,
        )[origin_to_group(reduced_children(strings), parallel_relation())[i] as int].len()
            == reduced_cells(strings[i]).len(),
        group_to_origins(reduced_children(strings), parallel_relation())[origin_to_group(
            reduced_children(strings),
            parallel_relation(),
        )[i] as int].contains(i as u32),
{
    let rel = parallel_relation();
    let children = reduced_children(strings);
    let n = children.len() as int;
    lemma_parallel_relation_transitive();
    lemma_leader(children, rel, i);
    lemma_leader_is_leader(children, rel, i);
    let l = leader(children, rel, i);
    lemma_leader_at_rank(children, rel, l);
    lemma_rank_bounds(children, rel, n);
    lemma_members(children, rel, l, n);
    lemma_folded_string_stands_for_leader(children, l, n, children[i]);
}

/// Reduction of an array keeps multiplicities positive.
pub proof fn lemma_reduced_strings_wf(strings: Seq<Seq<PvCell>>, j: int, q: int)
    requires
        reducible(strings),
        forall|k: int, p: int|
            0 <= k < strings.len() && 0 <= p < strings[k].len() ==> (#[trigger] strings[k][p]).wf(),
        0 <= j < reduced_strings(strings).len(),
        0 <= q < reduced_strings(strings)[j].len(),
    ensures
        reduced_strings(strings)[j][q].wf(),
{
    let rel = parallel_relation();
    let children = reduced_children(strings);
    let n = children.len() as int;
    lemma_rank_bounds(children, rel, n);
    lemma_leader_at(children, rel, j);
    let l = leader_at(children, rel, j);
    assert(strings[l].len() <= u32::MAX && foldable(strings[l]));
    assert forall|i: int| 0 <= i < strings[l].len() implies (#[trigger] strings[l][i]).wf() by {}
    lemma_reduced_cells_wf(strings[l], q);
    lemma_members_start(children, rel, l, l);
    lemma_parallel_count_push(children, Seq::<u32>::empty(), l as u32, q);
    lemma_parallel_count_grows(children, l, q, l + 1, n);
    assert(group_fits(children, l, n));
    assert(parallel_count_over(children, members(children, rel, l, n), q) <= u32::MAX);
}

} // verus!
