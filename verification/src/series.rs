//! The series string: cells that share one current, and its reduction to one
//! cell per class of series-equivalent cells.

use vstd::prelude::*;
use vstd::std_specs::iter::IteratorSpec;
use crate::grouping::{
    group_to_origins, is_leader, lemma_first_fit, lemma_leader_at_rank, lemma_members_of_follower,
    lemma_members_start, lemma_place_merge, lemma_place_new, lemma_placed_all, lemma_rank_bounds,
    lemma_rank_injective, members, nested_view, origin_to_group, placed, rank,
};
use crate::parallel_reduction::strings_parallel_equivalent;
use crate::series_reduction::{
    foldable, folded_series_count, lemma_reduced_cells_wf, lemma_series_count_grows,
    lemma_series_count_push, lemma_series_relation_transitive, reduced_cells, series_count_over,
    series_relation,
};
use crate::convergence::{signal, signal_of, NonConvergence, SolverCalls};
use crate::pvcell::PvCell;
use crate::scalar::Scalar;

verus! {

/// Bit pattern of the default voltage tolerance of the string search, 0.1 V.
pub const DEFAULT_SERIES_TOL_V_BITS: u64 = 0x3fb9_9999_9999_999a;

/// Bit pattern of the default gain floor of the string search, 0.00001 A/V.
pub const DEFAULT_MIN_GAIN_BITS: u64 = 0x3ee4_f8b5_88e3_68f1;

/// Iteration budget, tolerance and gain floor of the string's current search.
#[derive(Debug)]
pub struct SeriesSolver {
    /// Largest number of search steps.
    pub max_iter: usize,
    /// Voltage tolerance, in volts.
    pub tol_v: Scalar,
    /// Smallest gain, in amperes per volt, that a step may use.
    pub min_g: Scalar,
}

impl SeriesSolver {
    /// The settings a string starts with: 1000 steps, 0.1 V, 0.00001 A/V.
    pub open spec fn standard() -> SeriesSolver {
        SeriesSolver {
            max_iter: 1000,
            tol_v: Scalar { bits: DEFAULT_SERIES_TOL_V_BITS },
            min_g: Scalar { bits: DEFAULT_MIN_GAIN_BITS },
        }
    }
}

impl Default for SeriesSolver {
    fn default() -> (r: SeriesSolver)
        ensures
            r == SeriesSolver::standard(),
    {
        SeriesSolver {
            max_iter: 1000,
            tol_v: Scalar { bits: DEFAULT_SERIES_TOL_V_BITS },
            min_g: Scalar { bits: DEFAULT_MIN_GAIN_BITS },
        }
    }
}

impl Clone for SeriesSolver {
    fn clone(&self) -> (r: SeriesSolver)
        ensures
            r == *self,
    {
        SeriesSolver { max_iter: self.max_iter, tol_v: self.tol_v, min_g: self.min_g }
    }
}

/// Progress of one current search of a string.
#[derive(Clone, Copy, Debug)]
pub struct SearchState {
    /// Correction steps taken so far.
    pub iterations: usize,
    /// The gain, in amperes per volt, that the last step used; before the
    /// first step, the caller's first estimate of it.
    pub gain: Scalar,
    /// The voltage error that the last step acted on; zero before the first.
    pub last_error: Scalar,
}

/// What the caller of the search does next.
#[derive(Clone, Copy, Debug)]
pub enum SearchAction {
    /// The error is within tolerance: the current estimate is the result.
    Finish,
    /// Add the error times `gain` to the current estimate.
    Advance { gain: Scalar },
}

impl SeriesSolver {
    /// The gain of the next step: half the last one if the error changed
    /// sign, which shows in a negative product of the two errors, and never
    /// below the floor.
    pub open spec fn next_gain(
        self,
        state: SearchState,
        product: Scalar,
        halved_gain: Scalar,
    ) -> Scalar {
        (if product.below(Scalar::zero_value()) {
            halved_gain
        } else {
            state.gain
        }).at_least(self.min_g)
    }

    /// One step of the search, from the state before it and what the caller
    /// observed to the state after it and what the caller is to do. Within
    /// tolerance the search is finished and the state stays as it is;
    /// otherwise one step is counted and its gain fixed.
    pub open spec fn step(
        self,
        state: SearchState,
        error: Scalar,
        product: Scalar,
        halved_gain: Scalar,
    ) -> (SearchState, SearchAction) {
        if error.absolute().below(self.tol_v) {
            (state, SearchAction::Finish)
        } else {
            let gain = self.next_gain(state, product, halved_gain);
            (
                SearchState { iterations: (state.iterations + 1) as usize, gain, last_error: error },
                SearchAction::Advance { gain },
            )
        }
    }

    /// The state has not used more than the iteration budget.
    pub open spec fn admits(self, state: SearchState) -> bool {
        state.iterations <= self.max_iter
    }

    /// Starts a search with a first estimate of the gain, and counts it.
    pub fn begin(&self, gain: Scalar, calls: &mut SolverCalls) -> (r: SearchState)
        requires
            old(calls).series < u64::MAX,
        ensures
            r == (SearchState { iterations: 0, gain, last_error: Scalar::zero_value() }),
            self.admits(r),
            final(calls).series == old(calls).series + 1,
            final(calls).cell == old(calls).cell,
    {
        calls.record_series();
        SearchState { iterations: 0, gain, last_error: Scalar { bits: 0 } }
    }

    pub fn has_budget(&self, state: &SearchState) -> (r: bool)
        ensures
            r == (state.iterations < self.max_iter),
    {
        state.iterations < self.max_iter
    }

    /// Decides one step of the search. `error` is the string's voltage at the
    /// current estimate less the target voltage; `product` is `error` times
    /// `state.last_error`; `halved_gain` is half of `state.gain`.
    ///
    /// The step count stays within the budget, and the gain that a step is to
    /// use is never below the floor.
    pub fn observe(
        &self,
        state: SearchState,
        error: Scalar,
        product: Scalar,
        halved_gain: Scalar,
    ) -> (r: (SearchState, SearchAction))
        requires
            state.iterations < self.max_iter,
        ensures
            r == self.step(state, error, product, halved_gain),
            self.admits(r.0),
            r.1 matches SearchAction::Advance { gain } ==> !gain.below(self.min_g),
    {
        if error.abs().num_lt(self.tol_v) {
            return (state, SearchAction::Finish);
        }
        let wanted = if product.is_negative() {
            halved_gain
        } else {
            state.gain
        };
        let gain = wanted.max(self.min_g);
        (
            SearchState { iterations: state.iterations + 1, gain, last_error: error },
            SearchAction::Advance { gain },
        )
    }

    /// The signal of a search for the current at `target` volts that ended
    /// at `current`: nothing if it finished within tolerance.
    pub fn search_signal(&self, finished: bool, target: Scalar, current: Scalar) -> (r: Option<
        NonConvergence,
    >)
        ensures
            r == signal_of(finished, current, target, self.tol_v, self.max_iter),
    {
        signal(finished, current, target, self.tol_v, self.max_iter)
    }
}

/// However the search goes, no step uses a gain below the floor, and a step
/// taken within the budget leaves the step count within the budget.
pub proof fn lemma_search_is_damped_safely(
    solver: SeriesSolver,
    state: SearchState,
    error: Scalar,
    product: Scalar,
    halved_gain: Scalar,
)
    requires
        state.iterations < solver.max_iter,
    ensures
        solver.admits(solver.step(state, error, product, halved_gain).0),
        solver.step(state, error, product, halved_gain).1 matches SearchAction::Advance { gain }
            ==> !gain.below(solver.min_g),
        !solver.next_gain(state, product, halved_gain).below(solver.min_g),
{
}

/// An ordered sequence of cells that carry the same current.
#[derive(Debug)]
pub struct Series {
    pub elements: Vec<PvCell>,
    pub solver: SeriesSolver,
}

impl View for Series {
    type V = Seq<PvCell>;

    /// The cells, in order.
    open spec fn view(&self) -> Seq<PvCell> {
        self.elements@
    }
}

impl Clone for Series {
    fn clone(&self) -> (r: Series)
        ensures
            r@ == self@,
            r.solver == self.solver,
    {
        let n = self.elements.len();
        let mut elements: Vec<PvCell> = Vec::new();
        let mut k: usize = 0;
        while k < n
            invariant
                n == self@.len(),
                k <= n,
                elements@ == self@.take(k as int),
            decreases n - k,
        {
            elements.push(self.elements[k].clone());
            assert(self@.take(k + 1) =~= self@.take(k as int).push(self@[k as int]));
            k += 1;
        }
        assert(self@.take(n as int) =~= self@);
        Series { elements, solver: self.solver.clone() }
    }
}

impl core::ops::Index<usize> for Series {
    type Output = PvCell;

    fn index(&self, index: usize) -> (r: &PvCell)
        ensures
            *r == self@[index as int],
    {
        &self.elements[index]
    }
}

impl vstd::std_specs::core::IndexSpecImpl<usize> for Series {
    open spec fn index_req(&self, index: &usize) -> bool {
        *index < self@.len()
    }
}

impl IntoIterator for Series {
    type Item = PvCell;

    type IntoIter = std::vec::IntoIter<PvCell>;

    /// The cells, in order, by value.
    fn into_iter(self) -> (r: std::vec::IntoIter<PvCell>)
        ensures
            r.remaining() == self@,
    {
        broadcast use vstd::std_specs::vec::axiom_spec_into_iter;

        self.elements.into_iter()
    }
}

impl Series {
    /// Every cell has positive multiplicities.
    pub open spec fn wf(&self) -> bool {
        forall|k: int| 0 <= k < self@.len() ==> (#[trigger] self@[k]).wf()
    }

    pub fn empty() -> (r: Series)
        ensures
            r@ == Seq::<PvCell>::empty(),
            r.solver == SeriesSolver::standard(),
            r.wf(),
    {
        Series { elements: Vec::new(), solver: SeriesSolver::default() }
    }

    pub fn new(panels: Vec<PvCell>) -> (r: Series)
        ensures
            r@ == panels@,
            r.solver == SeriesSolver::standard(),
    {
        Series { elements: panels, solver: SeriesSolver::default() }
    }

    pub fn with_solver(self, settings: SeriesSolver) -> (r: Series)
        ensures
            r@ == self@,
            r.solver == settings,
    {
        let mut string = self;
        string.solver = settings;
        string
    }

    pub fn len(&self) -> (r: usize)
        ensures
            r == self@.len(),
    {
        self.elements.len()
    }

    /// The cells, in order, by reference.
    pub fn iter(&self) -> (r: core::slice::Iter<'_, PvCell>)
        ensures
            r.remaining() == self@.as_ref(),
    {
        broadcast use vstd::std_specs::slice::axiom_spec_slice_iter;

        self.elements.iter()
    }

    pub fn push(&mut self, element: PvCell)
        ensures
            final(self)@ == old(self)@.push(element),
            final(self).solver == old(self).solver,
    {
        self.elements.push(element);
    }

    /// Whether the two strings, put side by side, can be folded into one.
    pub fn is_parallel_equivalent(&self, other: &Series) -> (r: bool)
        ensures
            r == strings_parallel_equivalent(self@, other@),
    {
        let n = self.elements.len();
        if other.elements.len() != n {
            return false;
        }
        let mut q: usize = 0;
        while q < n
            invariant
                n == self@.len(),
                n == other@.len(),
                q <= n,
                forall|m: int| 0 <= m < q ==> (#[trigger] self@[m]).parallel_equivalent(other@[m]),
            decreases n - q,
        {
            if !self.elements[q].is_parallel_equivalent(&other.elements[q]) {
                return false;
            }
            q += 1;
        }
        true
    }

    /// Adds the parallel counts of `other` to those of this string, cell by
    /// cell. Returns whether every sum fits; where one does not, nothing is
    /// added.
    pub fn absorb_parallel(&mut self, other: &Series) -> (ok: bool)
        requires
            old(self)@.len() == other@.len(),
        ensures
            ok <==> forall|q: int|
                0 <= q < other@.len() ==> (#[trigger] old(self)@[q]).np + other@[q].np <= u32::MAX,
            ok ==> final(self)@ == Seq::new(
                other@.len(),
                |q: int| PvCell { np: (old(self)@[q].np + other@[q].np) as u32, ..old(self)@[q] },
            ),
            !ok ==> final(self)@ == old(self)@,
            final(self).solver == old(self).solver,
    {
        let n = self.elements.len();
        let mut q: usize = 0;
        while q < n
            invariant
                n == other@.len(),
                n == old(self)@.len(),
                self@ == old(self)@,
                self.solver == old(self).solver,
                q <= n,
                forall|m: int| 0 <= m < q ==> (#[trigger] self@[m]).np + other@[m].np <= u32::MAX,
            decreases n - q,
        {
            if self.elements[q].np > u32::MAX - other.elements[q].np {
                return false;
            }
            q += 1;
        }
        q = 0;
        while q < n
            invariant
                n == other@.len(),
                n == old(self)@.len(),
                self@.len() == n,
                self.solver == old(self).solver,
                q <= n,
                forall|m: int|
                    0 <= m < n ==> (#[trigger] old(self)@[m]).np + other@[m].np <= u32::MAX,
                forall|m: int|
                    0 <= m < q ==> #[trigger] self@[m] == (PvCell {
                        np: (old(self)@[m].np + other@[m].np) as u32,
                        ..old(self)@[m]
                    }),
                forall|m: int| q <= m < n ==> #[trigger] self@[m] == old(self)@[m],
            decreases n - q,
        {
            let sum: u32 = self.elements[q].np + other.elements[q].np;
            self.elements[q].np = sum;
            q += 1;
        }
        true
    }

    /// The position of the first cell that is series-equivalent to `other`.
    pub fn find(&self, other: &PvCell) -> (r: Option<usize>)
        ensures
            match r {
                Some(k) => k < self@.len() && self@[k as int].series_equivalent(*other)
                    && forall|m: int| 0 <= m < k ==> !(#[trigger] self@[m]).series_equivalent(*other),
                None => forall|m: int|
                    0 <= m < self@.len() ==> !(#[trigger] self@[m]).series_equivalent(*other),
            },
    {
        let n = self.elements.len();
        let mut k: usize = 0;
        while k < n
            invariant
                n == self@.len(),
                k <= n,
                forall|m: int| 0 <= m < k ==> !(#[trigger] self@[m]).series_equivalent(*other),
            decreases n - k,
        {
            if self.elements[k].is_series_equivalent(other) {
                return Some(k);
            }
            k += 1;
        }
        None
    }

    /// Folds series-equivalent cells together, first fit, in the order of the
    /// string. Returns the reduced string, which starts with the standard
    /// solver settings; for each index of this string the position of its
    /// group; and for each group the indices of this string that it holds.
    pub fn reduce(&self) -> (r: (Series, Vec<u32>, Vec<Vec<u32>>))
        requires
            self@.len() <= u32::MAX,
            foldable(self@),
        ensures
            r.0@ == reduced_cells(self@),
            r.0.solver == SeriesSolver::standard(),
            r.1@ == origin_to_group(self@, series_relation()),
            nested_view(r.2) == group_to_origins(self@, series_relation()),
            self.wf() ==> r.0.wf(),
    {
        self.checked_reduce().unwrap()
    }

    /// `reduce` for any string: `None` where an index or a group's series
    /// count would not fit in 32 bits, and the reduction otherwise.
    pub fn checked_reduce(&self) -> (r: Option<(Series, Vec<u32>, Vec<Vec<u32>>)>)
        ensures
            r.is_some() <==> self@.len() <= u32::MAX && foldable(self@),
            match r {
                Some(t) => {
                    &&& t.0@ == reduced_cells(self@)
                    &&& t.0.solver == SeriesSolver::standard()
                    &&& t.1@ == origin_to_group(self@, series_relation())
                    &&& nested_view(t.2) == group_to_origins(self@, series_relation())
                    &&& self.wf() ==> t.0.wf()
                },
                None => true,
            },
    {
        let n = self.elements.len();
        if n > u32::MAX as usize {
            return None;
        }
        let mut reduced = Series::empty();
        let mut origin_to_reduced: Vec<u32> = Vec::new();
        let mut reduced_to_origin: Vec<Vec<u32>> = Vec::new();
        let ghost cells = self@;
        let ghost rel = series_relation();
        let ghost mut lead: Seq<int> = Seq::empty();
        let mut z: usize = 0;
        while z < n
            invariant
                z <= n,
                origin_to_reduced@.len() == z,
                forall|k: int| 0 <= k < z ==> origin_to_reduced@[k] == 0,
            decreases n - z,
        {
            origin_to_reduced.push(0);
            z += 1;
        }
        proof {
            lemma_rank_bounds(cells, rel, 0);
        }
        let mut i: usize = 0;
        while i < n
            invariant
                cells == self@,
                rel == series_relation(),
                n == cells.len(),
                n <= u32::MAX,
                i <= n,
                reduced.solver == SeriesSolver::standard(),
                reduced@.len() == lead.len(),
                placed(cells, rel, i as int, lead, origin_to_reduced@, nested_view(reduced_to_origin)),
                forall|j: int|
                    0 <= j < lead.len() ==> series_count_over(
                        cells,
                        members(cells, rel, #[trigger] lead[j], i as int),
                    ) <= u32::MAX,
                forall|j: int|
                    0 <= j < lead.len() ==> #[trigger] reduced@[j] == (PvCell {
                        ns: series_count_over(cells, members(cells, rel, lead[j], i as int)) as u32,
                        ..cells[lead[j]]
                    }),
            decreases n - i,
        {
            let found = reduced.find(&self.elements[i]);
            let ghost forward = origin_to_reduced@;
            let ghost backward = nested_view(reduced_to_origin);
            proof {
                lemma_series_relation_transitive();
                lemma_rank_bounds(cells, rel, i as int);
            }
            match found {
                Some(j) => {
                    proof {
                        assert forall|m: int| 0 <= m < j implies !rel(
                            cells[#[trigger] lead[m]],
                            cells[i as int],
                        ) by {
                            assert(!reduced@[m].series_equivalent(cells[i as int]));
                        }
                        assert(reduced@[j as int].series_equivalent(cells[i as int]));
                        lemma_first_fit(cells, rel, i as int, lead, j as int);
                        lemma_place_merge(cells, rel, i as int, lead, forward, backward, j as int);
                        let l = lead[j as int];
                        lemma_series_count_push(cells, members(cells, rel, l, i as int), i as u32);
                        lemma_series_count_grows(cells, l, i as int, i as int);
                        lemma_series_count_grows(cells, l, i + 1, n as int);
                    }
                    let sum: u32 = match reduced.elements[j].ns.checked_add(self.elements[i].ns) {
                        Some(sum) => sum,
                        None => {
                            proof {
                                assert(folded_series_count(cells, lead[j as int]) > u32::MAX);
                            }
                            return None;
                        },
                    };
                    reduced.elements[j].ns = sum;
                    reduced_to_origin[j].push(i as u32);
                    origin_to_reduced[i] = j as u32;
                    proof {
                        assert(nested_view(reduced_to_origin) =~= backward.update(
                            j as int,
                            backward[j as int].push(i as u32),
                        ));
                        assert forall|k: int| 0 <= k < lead.len() implies series_count_over(
                            cells,
                            members(cells, rel, #[trigger] lead[k], i + 1),
                        ) <= u32::MAX && #[trigger] reduced@[k] == (PvCell {
                            ns: series_count_over(cells, members(cells, rel, lead[k], i + 1)) as u32,
                            ..cells[lead[k]]
                        }) by {
                            if k != j {
                                if lead[k] == lead[j as int] {
                                    lemma_rank_injective(cells, rel, lead[k], lead[j as int]);
                                }
                            }
                        }
                    }
                },
                None => {
                    proof {
                        assert forall|m: int| 0 <= m < lead.len() implies !rel(
                            cells[#[trigger] lead[m]],
                            cells[i as int],
                        ) by {
                            assert(!reduced@[m].series_equivalent(cells[i as int]));
                        }
                        lemma_first_fit(cells, rel, i as int, lead, lead.len() as int);
                        lemma_place_new(cells, rel, i as int, lead, forward, backward);
                        lemma_members_start(cells, rel, i as int, i as int);
                        lemma_series_count_push(cells, Seq::<u32>::empty(), i as u32);
                    }
                    origin_to_reduced[i] = reduced.elements.len() as u32;
                    reduced.elements.push(self.elements[i].clone());
                    let mut group: Vec<u32> = Vec::new();
                    group.push(i as u32);
                    reduced_to_origin.push(group);
                    proof {
                        assert(nested_view(reduced_to_origin) =~= backward.push(seq![i as u32]));
                        let lead2 = lead.push(i as int);
                        assert forall|k: int| 0 <= k < lead2.len() implies series_count_over(
                            cells,
                            members(cells, rel, #[trigger] lead2[k], i + 1),
                        ) <= u32::MAX && #[trigger] reduced@[k] == (PvCell {
                            ns: series_count_over(cells, members(cells, rel, lead2[k], i + 1)) as u32,
                            ..cells[lead2[k]]
                        }) by {
                            if k < lead.len() {
                                assert(lead2[k] == lead[k]);
                            }
                        }
                        lead = lead2;
                    }
                },
            }
            i += 1;
        }
        proof {
            lemma_placed_all(cells, rel, lead, origin_to_reduced@, nested_view(reduced_to_origin));
            assert(reduced@ =~= reduced_cells(cells));
            assert forall|l: int| 0 <= l < cells.len() implies #[trigger] folded_series_count(
                cells,
                l,
            ) <= u32::MAX by {
                lemma_series_relation_transitive();
                if is_leader(cells, rel, l) {
                    lemma_leader_at_rank(cells, rel, l);
                    assert(lead[rank(cells, rel, l)] == l);
                } else {
                    lemma_members_of_follower(cells, rel, l, n as int);
                }
            }
            if self.wf() {
                assert forall|j: int| 0 <= j < reduced@.len() implies (#[trigger] reduced@[j])
                    .wf() by {
                    lemma_reduced_cells_wf(cells, j);
                }
            }
        }
        Some((reduced, origin_to_reduced, reduced_to_origin))
    }
}

} // verus!
