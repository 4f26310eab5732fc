//! The parallel array: strings that share one voltage, and its reduction to
//! one string per class of parallel-equivalent strings.

use vstd::prelude::*;
use crate::grouping::{
    group_to_origins, is_leader, lemma_first_fit, lemma_leader_at_rank, lemma_members_of_follower,
    lemma_members_start, lemma_place_merge, lemma_place_new, lemma_placed_all, lemma_rank_bounds,
    lemma_rank_injective, members, nested_view, origin_to_group, placed, rank, transitive,
};
use crate::parallel_reduction::{
    folded_string, group_fits, lemma_folded_string_stands_for_leader, lemma_parallel_count_grows,
    lemma_parallel_count_push, lemma_parallel_relation_transitive, lemma_reduced_strings_wf,
    merged_strings, parallel_count_over, parallel_foldable, parallel_relation, reduced_children,
    reduced_strings, reducible, strings_parallel_equivalent,
};
use crate::pvcell::PvCell;
use crate::scalar::Scalar;
use crate::series::{Series, SeriesSolver};
use crate::series_reduction::foldable;

verus! {

/// Bit pattern of the default current tolerance of the array, 0.1 A.
pub const DEFAULT_PARALLEL_TOL_I_BITS: u64 = 0x3fb9_9999_9999_999a;

/// Iteration budget and tolerance kept with an array.
#[derive(Debug)]
pub struct ParallelSolver {
    pub max_iter: usize,
    /// Current tolerance, in amperes.
    pub tol_i: Scalar,
}

impl ParallelSolver {
    /// The settings an array starts with: 1000 steps, 0.1 A.
    pub open spec fn standard() -> ParallelSolver {
        ParallelSolver { max_iter: 1000, tol_i: Scalar { bits: DEFAULT_PARALLEL_TOL_I_BITS } }
    }
}

impl Default for ParallelSolver {
    fn default() -> (r: ParallelSolver)
        ensures
            r == ParallelSolver::standard(),
    {
        ParallelSolver { max_iter: 1000, tol_i: Scalar { bits: DEFAULT_PARALLEL_TOL_I_BITS } }
    }
}

impl Clone for ParallelSolver {
    fn clone(&self) -> (r: ParallelSolver)
        ensures
            r == *self,
    {
        ParallelSolver { max_iter: self.max_iter, tol_i: self.tol_i }
    }
}

/// An ordered collection of strings that see the same voltage.
#[derive(Debug)]
pub struct Parallel {
    pub elements: Vec<Series>,
    pub solver: ParallelSolver,
}

impl View for Parallel {
    type V = Seq<Seq<PvCell>>;

    /// The strings, in order, each as its cells.
    open spec fn view(&self) -> Seq<Seq<PvCell>> {
        Seq::new(self.elements@.len(), |k: int| self.elements@[k]@)
    }
}

impl Clone for Parallel {
    fn clone(&self) -> (r: Parallel)
        ensures
            r@ == self@,
            r.solver == self.solver,
            forall|k: int|
                0 <= k < self.elements@.len() ==> (#[trigger] r.elements@[k]).solver
                    == self.elements@[k].solver,
    {
        let n = self.elements.len();
        let mut elements: Vec<Series> = Vec::new();
        let mut k: usize = 0;
        while k < n
            invariant
                n == self.elements@.len(),
                k <= n,
                elements@.len() == k,
                forall|m: int|
                    0 <= m < k ==> (#[trigger] elements@[m])@ == self.elements@[m]@
                        && elements@[m].solver == self.elements@[m].solver,
            decreases n - k,
        {
            elements.push(self.elements[k].clone());
            k += 1;
        }
        let r = Parallel { elements, solver: self.solver.clone() };
        assert(r@ =~= self@);
        r
    }
}

impl Parallel {
    /// Every cell of every string has positive multiplicities.
    pub open spec fn wf(&self) -> bool {
        forall|k: int, p: int|
            0 <= k < self@.len() && 0 <= p < self@[k].len() ==> (#[trigger] self@[k][p]).wf()
    }

    pub fn new(elements: Vec<Series>) -> (r: Parallel)
        ensures
            r.elements == elements,
            r.solver == ParallelSolver::standard(),
    {
        Parallel { elements, solver: ParallelSolver::default() }
    }

    pub fn empty() -> (r: Parallel)
        ensures
            r@ == Seq::<Seq<PvCell>>::empty(),
            r.elements@.len() == 0,
            r.solver == ParallelSolver::standard(),
    {
        Parallel { elements: Vec::new(), solver: ParallelSolver::default() }
    }

    pub fn with_solver(self, settings: ParallelSolver) -> (r: Parallel)
        ensures
            r.elements == self.elements,
            r.solver == settings,
    {
        let mut array = self;
        array.solver = settings;
        array
    }

    pub fn len(&self) -> (r: usize)
        ensures
            r == self@.len(),
    {
        self.elements.len()
    }

    /// The position of the first string that is parallel-equivalent to `other`.
    pub fn find_parallel_equivalent(&self, other: &Series) -> (r: Option<usize>)
        ensures
            match r {
                Some(k) => k < self@.len() && strings_parallel_equivalent(self@[k as int], other@)
                    && forall|m: int|
                    0 <= m < k ==> !strings_parallel_equivalent(#[trigger] self@[m], other@),
                None => forall|m: int|
                    0 <= m < self@.len() ==> !strings_parallel_equivalent(
                        #[trigger] self@[m],
                        other@,
                    ),
            },
    {
        let n = self.elements.len();
        let mut k: usize = 0;
        while k < n
            invariant
                n == self@.len(),
                k <= n,
                forall|m: int|
                    0 <= m < k ==> !strings_parallel_equivalent(#[trigger] self@[m], other@),
            decreases n - k,
        {
            if self.elements[k].is_parallel_equivalent(other) {
                return Some(k);
            }
            k += 1;
        }
        None
    }

    /// Reduces every string, then folds parallel-equivalent strings together,
    /// first fit, in the order of the array. Returns the reduced array, whose
    /// strings and which itself start with the standard solver settings; for
    /// each index of this array the position of its group; and for each group
    /// the indices of this array that it holds.
    pub fn reduce(&self) -> (r: (Parallel, Vec<u32>, Vec<Vec<u32>>))
        requires
            reducible(self@),
        ensures
            r.0@ == reduced_strings(self@),
            r.0.solver == ParallelSolver::standard(),
            forall|k: int|
                0 <= k < r.0.elements@.len() ==> (#[trigger] r.0.elements@[k]).solver
                    == SeriesSolver::standard(),
            r.1@ == origin_to_group(reduced_children(self@), parallel_relation()),
            nested_view(r.2) == group_to_origins(reduced_children(self@), parallel_relation()),
            self.wf() ==> r.0.wf(),
    {
        self.checked_reduce().unwrap()
    }

    /// `reduce` for any array: `None` where an index or a folded count would
    /// not fit in 32 bits, and the reduction otherwise.
    pub fn checked_reduce(&self) -> (r: Option<(Parallel, Vec<u32>, Vec<Vec<u32>>)>)
        ensures
            r.is_some() <==> reducible(self@),
            match r {
                Some(t) => {
                    &&& t.0@ == reduced_strings(self@)
                    &&& t.0.solver == ParallelSolver::standard()
                    &&& forall|k: int|
                        0 <= k < t.0.elements@.len() ==> (#[trigger] t.0.elements@[k]).solver
                            == SeriesSolver::standard()
                    &&& t.1@ == origin_to_group(reduced_children(self@), parallel_relation())
                    &&& nested_view(t.2) == group_to_origins(
                        reduced_children(self@),
                        parallel_relation(),
                    )
                    &&& self.wf() ==> t.0.wf()
                },
                None => true,
            },
    {
        let n = self.elements.len();
        if n > u32::MAX as usize {
            return None;
        }
        let mut reduced = Parallel::empty();
        let mut origin_to_reduced: Vec<u32> = Vec::new();
        let mut reduced_to_origin: Vec<Vec<u32>> = Vec::new();
        let ghost strings = reduced_children(self@);
        let ghost rel = parallel_relation();
        let ghost mut lead: Seq<int> = Seq::empty();
        let mut z: usize = 0;
        while z < n
            invariant
                z <= n,
                origin_to_reduced@.len() == z,
            decreases n - z,
        {
            origin_to_reduced.push(0);
            z += 1;
        }
        proof {
            lemma_rank_bounds(strings, rel, 0);
            lemma_parallel_relation_transitive();
        }
        let mut i: usize = 0;
        while i < n
            invariant
                strings == reduced_children(self@),
                rel == parallel_relation(),
                transitive(rel),
                n == self@.len(),
                n == strings.len(),
                n <= u32::MAX,
                i <= n,
                forall|k: int|
                    0 <= k < i ==> (#[trigger] self@[k]).len() <= u32::MAX && foldable(self@[k]),
                reduced.solver == ParallelSolver::standard(),
                reduced@.len() == lead.len(),
                placed(
                    strings,
                    rel,
                    i as int,
                    lead,
                    origin_to_reduced@,
                    nested_view(reduced_to_origin),
                ),
                forall|j: int|
                    0 <= j < lead.len() ==> (#[trigger] reduced.elements@[j]).solver
                        == SeriesSolver::standard(),
                forall|j: int|
                    0 <= j < lead.len() ==> group_fits(strings, #[trigger] lead[j], i as int),
                forall|j: int|
                    0 <= j < lead.len() ==> #[trigger] reduced@[j] == folded_string(
                        strings,
                        lead[j],
                        i as int,
                    ),
            decreases n - i,
        {
            let copy = match self.elements[i].checked_reduce() {
                Some(t) => t.0,
                None => {
                    proof {
                        assert(!(self@[i as int].len() <= u32::MAX && foldable(self@[i as int])));
                    }
                    return None;
                },
            };
            assert(copy@ == strings[i as int]);
            let found = reduced.find_parallel_equivalent(&copy);
            let ghost forward = origin_to_reduced@;
            let ghost backward = nested_view(reduced_to_origin);
            let ghost before = reduced@;
            proof {
                lemma_rank_bounds(strings, rel, i as int);
                assert forall|m: int| 0 <= m < lead.len() implies rel(
                    strings[#[trigger] lead[m]],
                    strings[i as int],
                ) == strings_parallel_equivalent(before[m], copy@) by {
                    lemma_folded_string_stands_for_leader(
                        strings,
                        lead[m],
                        i as int,
                        strings[i as int],
                    );
                }
            }
            match found {
                Some(j) => {
                    let ghost l = lead[j as int];
                    proof {
                        lemma_first_fit(strings, rel, i as int, lead, j as int);
                        lemma_place_merge(strings, rel, i as int, lead, forward, backward, j as int);
                        assert(strings[l].len() == strings[i as int].len());
                        assert forall|q: int| 0 <= q < strings[l].len() implies parallel_count_over(
                            strings,
                            members(strings, rel, l, i + 1),
                            q,
                        ) == #[trigger] parallel_count_over(
                            strings,
                            members(strings, rel, l, i as int),
                            q,
                        ) + strings[i as int][q].np by {
                            lemma_parallel_count_push(
                                strings,
                                members(strings, rel, l, i as int),
                                i as u32,
                                q,
                            );
                        }
                    }
                    let ok = reduced.elements[j].absorb_parallel(&copy);
                    if !ok {
                        proof {
                            let q = choose|q: int|
                                0 <= q < copy@.len() && (#[trigger] before[j as int][q]).np
                                    + copy@[q].np > u32::MAX;
                            let so_far = parallel_count_over(
                                strings,
                                members(strings, rel, l, i as int),
                                q,
                            );
                            assert(group_fits(strings, l, i as int));
                            assert(so_far <= u32::MAX);
                            lemma_parallel_count_grows(strings, l, q, i as int, i as int);
                            assert(before[j as int][q] == folded_string(strings, l, i as int)[q]);
                            assert(before[j as int][q].np == so_far);
                            assert(parallel_count_over(
                                strings,
                                members(strings, rel, l, i + 1),
                                q,
                            ) == so_far + strings[i as int][q].np);
                            lemma_parallel_count_grows(strings, l, q, i + 1, n as int);
                            assert(parallel_count_over(
                                strings,
                                members(strings, rel, l, n as int),
                                q,
                            ) > u32::MAX);
                            assert(!group_fits(strings, l, n as int));
                            assert(!parallel_foldable(strings));
                        }
                        return None;
                    }
                    reduced_to_origin[j].push(i as u32);
                    origin_to_reduced[i] = j as u32;
                    proof {
                        assert(nested_view(reduced_to_origin) =~= backward.update(
                            j as int,
                            backward[j as int].push(i as u32),
                        ));
                        assert(group_fits(strings, l, i as int));
                        assert forall|q: int| 0 <= q < strings[l].len() implies reduced@[j as int][q]
                            == folded_string(strings, l, i + 1)[q] && #[trigger] parallel_count_over(
                            strings,
                            members(strings, rel, l, i + 1),
                            q,
                        ) <= u32::MAX by {
                            let so_far = parallel_count_over(
                                strings,
                                members(strings, rel, l, i as int),
                                q,
                            );
                            assert(so_far <= u32::MAX);
                            lemma_parallel_count_grows(strings, l, q, i as int, i as int);
                            assert(before[j as int][q] == folded_string(strings, l, i as int)[q]);
                            assert(before[j as int][q].np == so_far);
                            assert(before[j as int][q].np + copy@[q].np <= u32::MAX);
                            assert(reduced@[j as int] == reduced.elements@[j as int]@);
                            assert(reduced@[j as int][q] == (PvCell {
                                np: (before[j as int][q].np + copy@[q].np) as u32,
                                ..before[j as int][q]
                            }));
                        }
                        assert(reduced@[j as int] =~= folded_string(strings, l, i + 1));
                        assert forall|k: int| 0 <= k < lead.len() implies group_fits(
                            strings,
                            #[trigger] lead[k],
                            i + 1,
                        ) && #[trigger] reduced@[k] == folded_string(strings, lead[k], i + 1) by {
                            if k != j {
                                if lead[k] == l {
                                    lemma_rank_injective(strings, rel, lead[k], l);
                                }
                                assert(group_fits(strings, lead[k], i as int));
                                assert(reduced@[k] == before[k]);
                                assert(folded_string(strings, lead[k], i + 1) =~= folded_string(
                                    strings,
                                    lead[k],
                                    i as int,
                                ));
                            }
                        }
                    }
                },
                None => {
                    proof {
                        lemma_first_fit(strings, rel, i as int, lead, lead.len() as int);
                        lemma_place_new(strings, rel, i as int, lead, forward, backward);
                        lemma_members_start(strings, rel, i as int, i as int);
                        assert forall|q: int|
                            0 <= q < strings[i as int].len() implies #[trigger] parallel_count_over(
                            strings,
                            members(strings, rel, i as int, i + 1),
                            q,
                        ) == strings[i as int][q].np by {
                            lemma_parallel_count_push(strings, Seq::<u32>::empty(), i as u32, q);
                        }
                        assert(folded_string(strings, i as int, i + 1) =~= strings[i as int]);
                    }
                    origin_to_reduced[i] = reduced.elements.len() as u32;
                    reduced.elements.push(copy);
                    let mut group: Vec<u32> = Vec::new();
                    group.push(i as u32);
                    reduced_to_origin.push(group);
                    proof {
                        assert(nested_view(reduced_to_origin) =~= backward.push(seq![i as u32]));
                        let lead2 = lead.push(i as int);
                        assert forall|k: int| 0 <= k < lead2.len() implies group_fits(
                            strings,
                            #[trigger] lead2[k],
                            i + 1,
                        ) && #[trigger] reduced@[k] == folded_string(strings, lead2[k], i + 1) by {
                            if k < lead.len() {
                                assert(lead2[k] == lead[k]);
                                assert(group_fits(strings, lead[k], i as int));
                                assert(reduced@[k] == before[k]);
                                assert(folded_string(strings, lead[k], i + 1) =~= folded_string(
                                    strings,
                                    lead[k],
                                    i as int,
                                ));
                            }
                        }
                        lead = lead2;
                    }
                },
            }
            i += 1;
        }
        proof {
            lemma_placed_all(strings, rel, lead, origin_to_reduced@, nested_view(reduced_to_origin));
            assert(reduced@ =~= merged_strings(strings));
            assert forall|l: int| 0 <= l < strings.len() implies #[trigger] group_fits(
                strings,
                l,
                strings.len() as int,
            ) by {
                if is_leader(strings, rel, l) {
                    lemma_leader_at_rank(strings, rel, l);
                    assert(lead[rank(strings, rel, l)] == l);
                } else {
                    lemma_members_of_follower(strings, rel, l, n as int);
                }
            }
            assert(reducible(self@));
            if self.wf() {
                let folded = reduced@;
                assert forall|k: int, p: int|
                    0 <= k < folded.len() && 0 <= p < folded[k].len() implies (#[trigger] folded[k][p])
                    .wf() by {
                    lemma_reduced_strings_wf(self@, k, p);
                }
            }
        }
        Some((reduced, origin_to_reduced, reduced_to_origin))
    }
}

} // verus!
