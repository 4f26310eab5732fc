//! First-fit grouping of a sequence under a transitive relation.
//!
//! Every element is folded into the earliest element that it is related to;
//! an element with no such predecessor leads a group of its own. The groups,
//! numbered in the order of their leaders, are what a reduced topology holds.
//! The relation need be neither reflexive nor symmetric: an element related
//! to nothing, not even to itself, simply leads a group of one.

use vstd::prelude::*;

verus! {

/// `rel` is transitive.
pub open spec fn transitive<T>(rel: spec_fn(T, T) -> bool) -> bool {
    forall|a: T, b: T, c: T| #![trigger rel(a, b), rel(b, c)] rel(a, b) && rel(b, c) ==> rel(a, c)
}

/// The first index in `k..i` whose element is related to `s[i]`, or `i` if there is none.
pub open spec fn leader_from<T>(s: Seq<T>, rel: spec_fn(T, T) -> bool, i: int, k: int) -> int
    decreases i - k,
{
    if k >= i {
        i
    } else if rel(s[k], s[i]) {
        k
    } else {
        leader_from(s, rel, i, k + 1)
    }
}

/// The index of the element that `s[i]` is folded into: the earliest `l < i`
/// with `rel(s[l], s[i])`, or `i` itself if there is none.
pub open spec fn leader<T>(s: Seq<T>, rel: spec_fn(T, T) -> bool, i: int) -> int {
    leader_from(s, rel, i, 0)
}

/// `s[i]` opens a group: no earlier element is related to it.
pub open spec fn is_leader<T>(s: Seq<T>, rel: spec_fn(T, T) -> bool, i: int) -> bool {
    leader(s, rel, i) == i
}

/// The number of leaders among the first `k` elements. For a leader at `k`
/// this is the position of its group in the reduced collection.
pub open spec fn rank<T>(s: Seq<T>, rel: spec_fn(T, T) -> bool, k: int) -> int
    decreases k,
{
    if k <= 0 {
        0
    } else {
        rank(s, rel, k - 1) + if is_leader(s, rel, k - 1) {
            1int
        } else {
            0int
        }
    }
}

/// The number of groups of the whole sequence.
pub open spec fn group_count<T>(s: Seq<T>, rel: spec_fn(T, T) -> bool) -> int {
    rank(s, rel, s.len() as int)
}

/// The index of the leader of group `j`.
pub open spec fn leader_at<T>(s: Seq<T>, rel: spec_fn(T, T) -> bool, j: int) -> int {
    choose|l: int| 0 <= l < s.len() && is_leader(s, rel, l) && rank(s, rel, l) == j
}

/// The indices below `upto` that are folded into the leader `l`, in increasing order.
pub open spec fn members<T>(s: Seq<T>, rel: spec_fn(T, T) -> bool, l: int, upto: int) -> Seq<u32>
    decreases upto,
{
    if upto <= 0 {
        Seq::empty()
    } else if leader(s, rel, upto - 1) == l {
        members(s, rel, l, upto - 1).push((upto - 1) as u32)
    } else {
        members(s, rel, l, upto - 1)
    }
}

/// For each index of `s`, the position of its group.
pub open spec fn origin_to_group<T>(s: Seq<T>, rel: spec_fn(T, T) -> bool) -> Seq<u32> {
    Seq::new(s.len(), |i: int| rank(s, rel, leader(s, rel, i)) as u32)
}

/// For each group, in order, the indices of `s` that it holds, in increasing order.
pub open spec fn group_to_origins<T>(s: Seq<T>, rel: spec_fn(T, T) -> bool) -> Seq<Seq<u32>> {
    Seq::new(
        group_count(s, rel) as nat,
        |j: int| members(s, rel, leader_at(s, rel, j), s.len() as int),
    )
}

/// The views of the inner vectors, in order.
pub open spec fn nested_view(v: Vec<Vec<u32>>) -> Seq<Seq<u32>> {
    Seq::new(v@.len(), |j: int| v@[j]@)
}

/// What `leader_from` returns lies in `k..=i`, is related to `s[i]` unless it
/// is `i`, and nothing in `k..` before it is related to `s[i]`.
pub proof fn lemma_leader_from<T>(s: Seq<T>, rel: spec_fn(T, T) -> bool, i: int, k: int)
    requires
        0 <= k <= i,
    ensures
        k <= leader_from(s, rel, i, k) <= i,
        leader_from(s, rel, i, k) < i ==> rel(s[leader_from(s, rel, i, k)], s[i]),
        forall|m: int| k <= m < leader_from(s, rel, i, k) ==> !rel(#[trigger] s[m], s[i]),
    decreases i - k,
{
    if k < i && !rel(s[k], s[i]) {
        lemma_leader_from(s, rel, i, k + 1);
    }
}

/// The leader of `i` is at most `i`, is related to `s[i]` unless it is `i`,
/// and nothing before it is related to `s[i]`.
pub proof fn lemma_leader<T>(s: Seq<T>, rel: spec_fn(T, T) -> bool, i: int)
    requires
        0 <= i,
    ensures
        0 <= leader(s, rel, i) <= i,
        leader(s, rel, i) < i ==> rel(s[leader(s, rel, i)], s[i]),
        forall|m: int| 0 <= m < leader(s, rel, i) ==> !rel(#[trigger] s[m], s[i]),
{
    lemma_leader_from(s, rel, i, 0);
}

/// Under a transitive relation the leader of any index leads its own group.
pub proof fn lemma_leader_is_leader<T>(s: Seq<T>, rel: spec_fn(T, T) -> bool, i: int)
    requires
        transitive(rel),
        0 <= i,
    ensures
        is_leader(s, rel, leader(s, rel, i)),
{
    lemma_leader(s, rel, i);
    let l = leader(s, rel, i);
    if l < i {
        lemma_leader(s, rel, l);
        let above = leader(s, rel, l);
        if above < l {
            assert(rel(s[above], s[l]) && rel(s[l], s[i]));
            assert(rel(s[above], s[i]));
            assert(!rel(s[above], s[i]));
        }
    }
}

/// The rank lies between 0 and the prefix length.
pub proof fn lemma_rank_bounds<T>(s: Seq<T>, rel: spec_fn(T, T) -> bool, k: int)
    ensures
        0 <= rank(s, rel, k),
        k >= 0 ==> rank(s, rel, k) <= k,
        k <= 0 ==> rank(s, rel, k) == 0,
    decreases k,
{
    if k > 0 {
        lemma_rank_bounds(s, rel, k - 1);
    }
}

/// The rank never decreases along the sequence.
pub proof fn lemma_rank_monotone<T>(s: Seq<T>, rel: spec_fn(T, T) -> bool, a: int, b: int)
    requires
        a <= b,
    ensures
        rank(s, rel, a) <= rank(s, rel, b),
    decreases b - a,
{
    if a < b {
        lemma_rank_monotone(s, rel, a, b - 1);
        lemma_rank_bounds(s, rel, b - 1);
        lemma_rank_bounds(s, rel, b);
    }
}

/// A leader is counted by the rank of every later position.
pub proof fn lemma_rank_after_leader<T>(s: Seq<T>, rel: spec_fn(T, T) -> bool, l: int, b: int)
    requires
        0 <= l < b,
        is_leader(s, rel, l),
    ensures
        rank(s, rel, l) < rank(s, rel, b),
{
    assert(rank(s, rel, l + 1) == rank(s, rel, l) + 1);
    lemma_rank_monotone(s, rel, l + 1, b);
}

/// Two leaders of the same rank are the same index.
pub proof fn lemma_rank_injective<T>(s: Seq<T>, rel: spec_fn(T, T) -> bool, a: int, b: int)
    requires
        0 <= a,
        0 <= b,
        is_leader(s, rel, a),
        is_leader(s, rel, b),
        rank(s, rel, a) == rank(s, rel, b),
    ensures
        a == b,
{
    if a < b {
        lemma_rank_after_leader(s, rel, a, b);
    } else if b < a {
        lemma_rank_after_leader(s, rel, b, a);
    }
}

/// Every group number below the rank of `k` has a leader before `k`.
pub proof fn lemma_leader_exists<T>(s: Seq<T>, rel: spec_fn(T, T) -> bool, k: int, j: int) -> (l:
    int)
    requires
        0 <= j < rank(s, rel, k),
    ensures
        0 <= l < k,
        is_leader(s, rel, l),
        rank(s, rel, l) == j,
    decreases k,
{
    lemma_rank_bounds(s, rel, k);
    if is_leader(s, rel, k - 1) && rank(s, rel, k - 1) == j {
        k - 1
    } else {
        lemma_leader_exists(s, rel, k - 1, j)
    }
}

/// `leader_at` names the one leader whose rank is `j`.
pub proof fn lemma_leader_at<T>(s: Seq<T>, rel: spec_fn(T, T) -> bool, j: int)
    requires
        0 <= j < group_count(s, rel),
    ensures
        0 <= leader_at(s, rel, j) < s.len(),
        is_leader(s, rel, leader_at(s, rel, j)),
        rank(s, rel, leader_at(s, rel, j)) == j,
{
    let l = lemma_leader_exists(s, rel, s.len() as int, j);
    assert(0 <= l < s.len() && is_leader(s, rel, l) && rank(s, rel, l) == j);
}

/// A leader is the `leader_at` of its own rank.
pub proof fn lemma_leader_at_rank<T>(s: Seq<T>, rel: spec_fn(T, T) -> bool, l: int)
    requires
        0 <= l < s.len(),
        is_leader(s, rel, l),
    ensures
        0 <= rank(s, rel, l) < group_count(s, rel),
        leader_at(s, rel, rank(s, rel, l)) == l,
{
    lemma_rank_bounds(s, rel, l);
    lemma_rank_after_leader(s, rel, l, s.len() as int);
    lemma_leader_at(s, rel, rank(s, rel, l));
    lemma_rank_injective(s, rel, l, leader_at(s, rel, rank(s, rel, l)));
}

/// The members of a group below `upto` are exactly the indices below `upto`
/// whose leader is `l`, listed in increasing order.
pub proof fn lemma_members<T>(s: Seq<T>, rel: spec_fn(T, T) -> bool, l: int, upto: int)
    requires
        upto <= u32::MAX + 1,
    ensures
        members(s, rel, l, upto).len() <= if upto < 0 { 0 } else { upto },
        forall|t: int|
            0 <= t < members(s, rel, l, upto).len() ==> {
                let e = #[trigger] members(s, rel, l, upto)[t];
                e < upto && leader(s, rel, e as int) == l
            },
        forall|t: int, u: int|
            0 <= t < u < members(s, rel, l, upto).len() ==> members(s, rel, l, upto)[t]
                < members(s, rel, l, upto)[u],
        forall|i: int|
            0 <= i < upto && leader(s, rel, i) == l ==> members(s, rel, l, upto).contains(
                i as u32,
            ),
    decreases upto,
{
    if upto > 0 {
        lemma_members(s, rel, l, upto - 1);
        let before = members(s, rel, l, upto - 1);
        let now = members(s, rel, l, upto);
        if leader(s, rel, upto - 1) == l {
            assert(now[before.len() as int] == (upto - 1) as u32);
            assert forall|i: int| 0 <= i < upto && leader(s, rel, i) == l implies now.contains(
                i as u32,
            ) by {
                if i < upto - 1 {
                    let t = choose|t: int| 0 <= t < before.len() && before[t] == i as u32;
                    assert(now[t] == i as u32);
                }
            }
        }
    }
}

/// Before its leader a group has no member.
pub proof fn lemma_members_start<T>(s: Seq<T>, rel: spec_fn(T, T) -> bool, l: int, upto: int)
    requires
        upto <= l,
    ensures
        members(s, rel, l, upto) =~= Seq::<u32>::empty(),
    decreases upto,
{
    if upto > 0 {
        lemma_leader(s, rel, upto - 1);
        lemma_members_start(s, rel, l, upto - 1);
    }
}

/// The first member of a leader's group is the leader itself.
pub proof fn lemma_members_first<T>(s: Seq<T>, rel: spec_fn(T, T) -> bool, l: int, upto: int)
    requires
        0 <= l < upto,
        is_leader(s, rel, l),
    ensures
        members(s, rel, l, upto).len() >= 1,
        members(s, rel, l, upto)[0] == l as u32,
    decreases upto,
{
    if upto == l + 1 {
        lemma_members_start(s, rel, l, l);
    } else {
        lemma_members_first(s, rel, l, upto - 1);
    }
}

/// Where no element is related to a later one, every element leads its own
/// group, so grouping changes nothing.
pub proof fn lemma_all_leaders<T>(s: Seq<T>, rel: spec_fn(T, T) -> bool, k: int)
    requires
        0 <= k <= s.len(),
        forall|a: int, b: int| 0 <= a < b < s.len() ==> !rel(#[trigger] s[a], #[trigger] s[b]),
    ensures
        rank(s, rel, k) == k,
        forall|i: int| 0 <= i < s.len() ==> is_leader(s, rel, i),
    decreases k,
{
    assert forall|i: int| 0 <= i < s.len() implies is_leader(s, rel, i) by {
        lemma_leader(s, rel, i);
    }
    if k > 0 {
        lemma_all_leaders(s, rel, k - 1);
    }
}

/// The index maps after the first `i` elements have been placed: `lead` lists
/// the leaders found so far, `forward` sends each placed index to its group,
/// and `backward` lists each group's members.
pub open spec fn placed<T>(
    s: Seq<T>,
    rel: spec_fn(T, T) -> bool,
    i: int,
    lead: Seq<int>,
    forward: Seq<u32>,
    backward: Seq<Seq<u32>>,
) -> bool {
    &&& lead.len() == rank(s, rel, i)
    &&& forall|j: int|
        0 <= j < lead.len() ==> 0 <= #[trigger] lead[j] < i && is_leader(s, rel, lead[j]) && rank(
            s,
            rel,
            lead[j],
        ) == j
    &&& forward.len() == s.len()
    &&& forall|k: int| 0 <= k < i ==> #[trigger] forward[k] == rank(s, rel, leader(s, rel, k))
    &&& backward.len() == lead.len()
    &&& forall|j: int| 0 <= j < lead.len() ==> #[trigger] backward[j] == members(s, rel, lead[j], i)
}

/// First fit against the leaders found so far gives the leader of `s[i]`:
/// the first listed leader related to `s[i]`, or `i` itself where none is.
pub proof fn lemma_first_fit<T>(
    s: Seq<T>,
    rel: spec_fn(T, T) -> bool,
    i: int,
    lead: Seq<int>,
    found: int,
)
    requires
        transitive(rel),
        0 <= i,
        lead.len() == rank(s, rel, i),
        forall|j: int|
            0 <= j < lead.len() ==> 0 <= #[trigger] lead[j] < i && is_leader(s, rel, lead[j])
                && rank(s, rel, lead[j]) == j,
        0 <= found <= lead.len(),
        found < lead.len() ==> rel(s[lead[found]], s[i]),
        forall|j: int| 0 <= j < found ==> !rel(s[#[trigger] lead[j]], s[i]),
    ensures
        found < lead.len() ==> leader(s, rel, i) == lead[found],
        found == lead.len() ==> leader(s, rel, i) == i,
{
    lemma_leader(s, rel, i);
    lemma_leader_is_leader(s, rel, i);
    let l = leader(s, rel, i);
    if l < i {
        lemma_rank_bounds(s, rel, l);
        lemma_rank_after_leader(s, rel, l, i);
        let j0 = rank(s, rel, l);
        lemma_rank_injective(s, rel, l, lead[j0]);
        assert(rel(s[lead[j0]], s[i]));
        assert(found <= j0);
        let f = lead[found];
        if l < f {
            lemma_rank_after_leader(s, rel, l, f);
        }
        if f < l {
            assert(!rel(s[f], s[i]));
        }
    } else {
        if found < lead.len() {
            assert(!rel(s[lead[found]], s[i]));
        }
    }
}

/// Placing `s[i]` into the existing group `j` keeps the index maps in step.
pub proof fn lemma_place_merge<T>(
    s: Seq<T>,
    rel: spec_fn(T, T) -> bool,
    i: int,
    lead: Seq<int>,
    forward: Seq<u32>,
    backward: Seq<Seq<u32>>,
    j: int,
)
    requires
        0 <= i < s.len() <= u32::MAX,
        placed(s, rel, i, lead, forward, backward),
        0 <= j < lead.len(),
        leader(s, rel, i) == lead[j],
    ensures
        placed(
            s,
            rel,
            i + 1,
            lead,
            forward.update(i, j as u32),
            backward.update(j, backward[j].push(i as u32)),
        ),
{
    lemma_rank_bounds(s, rel, i);
    let forward2 = forward.update(i, j as u32);
    let backward2 = backward.update(j, backward[j].push(i as u32));
    assert forall|k: int| 0 <= k < lead.len() implies #[trigger] backward2[k] == members(
        s,
        rel,
        lead[k],
        i + 1,
    ) by {
        if k != j {
            if lead[k] == lead[j] {
                lemma_rank_injective(s, rel, lead[k], lead[j]);
            }
        }
    }
}

/// Placing `s[i]` as the leader of a new group keeps the index maps in step.
pub proof fn lemma_place_new<T>(
    s: Seq<T>,
    rel: spec_fn(T, T) -> bool,
    i: int,
    lead: Seq<int>,
    forward: Seq<u32>,
    backward: Seq<Seq<u32>>,
)
    requires
        0 <= i < s.len() <= u32::MAX,
        placed(s, rel, i, lead, forward, backward),
        leader(s, rel, i) == i,
    ensures
        placed(
            s,
            rel,
            i + 1,
            lead.push(i),
            forward.update(i, lead.len() as u32),
            backward.push(seq![i as u32]),
        ),
{
    lemma_rank_bounds(s, rel, i);
    lemma_members_start(s, rel, i, i);
    let lead2 = lead.push(i);
    let forward2 = forward.update(i, lead.len() as u32);
    let backward2 = backward.push(seq![i as u32]);
    assert(members(s, rel, i, i + 1) =~= seq![i as u32]);
    assert forall|k: int| 0 <= k < lead2.len() implies #[trigger] backward2[k] == members(
        s,
        rel,
        lead2[k],
        i + 1,
    ) by {
        if k < lead.len() {
            assert(lead2[k] == lead[k]);
            assert(backward2[k] == backward[k]);
        }
    }
    assert forall|k: int| 0 <= k < lead2.len() implies 0 <= #[trigger] lead2[k] < i + 1
        && is_leader(s, rel, lead2[k]) && rank(s, rel, lead2[k]) == k by {
        if k < lead.len() {
            assert(lead2[k] == lead[k]);
        }
    }
}

/// Once every element is placed, the index maps are the grouping's own, and
/// the listed leaders are the groups' leaders.
pub proof fn lemma_placed_all<T>(
    s: Seq<T>,
    rel: spec_fn(T, T) -> bool,
    lead: Seq<int>,
    forward: Seq<u32>,
    backward: Seq<Seq<u32>>,
)
    requires
        s.len() <= u32::MAX,
        placed(s, rel, s.len() as int, lead, forward, backward),
    ensures
        lead.len() == group_count(s, rel),
        forall|j: int| 0 <= j < lead.len() ==> #[trigger] lead[j] == leader_at(s, rel, j),
        forward =~= origin_to_group(s, rel),
        backward =~= group_to_origins(s, rel),
{
    assert forall|j: int| 0 <= j < lead.len() implies #[trigger] lead[j] == leader_at(
        s,
        rel,
        j,
    ) by {
        lemma_leader_at_rank(s, rel, lead[j]);
    }
    assert forall|k: int| 0 <= k < s.len() implies forward[k] == origin_to_group(s, rel)[k] by {
        lemma_leader(s, rel, k);
        lemma_rank_bounds(s, rel, leader(s, rel, k));
    }
}

/// Under a transitive relation only leaders have members.
pub proof fn lemma_members_of_follower<T>(
    s: Seq<T>,
    rel: spec_fn(T, T) -> bool,
    l: int,
    upto: int,
)
    requires
        transitive(rel),
        !is_leader(s, rel, l),
    ensures
        members(s, rel, l, upto) =~= Seq::<u32>::empty(),
    decreases upto,
{
    if upto > 0 {
        lemma_leader_is_leader(s, rel, upto - 1);
        lemma_members_of_follower(s, rel, l, upto - 1);
    }
}

/// Where no element is related to a later one, each group holds its leader alone.
pub proof fn lemma_singleton_groups<T>(s: Seq<T>, rel: spec_fn(T, T) -> bool, l: int, upto: int)
    requires
        0 <= l < s.len(),
        upto <= s.len() <= u32::MAX,
        forall|a: int, b: int| 0 <= a < b < s.len() ==> !rel(#[trigger] s[a], #[trigger] s[b]),
    ensures
        members(s, rel, l, upto) =~= if l < upto {
            seq![l as u32]
        } else {
            Seq::<u32>::empty()
        },
    decreases upto,
{
    if upto > 0 {
        lemma_all_leaders(s, rel, upto - 1);
        assert(is_leader(s, rel, upto - 1));
        lemma_singleton_groups(s, rel, l, upto - 1);
    }
}

/// The two index maps are inverse to each other: group `j` lists the index
/// `i` exactly when `i` is sent to group `j`.
pub proof fn lemma_maps_inverse<T>(s: Seq<T>, rel: spec_fn(T, T) -> bool, i: int, j: int)
    requires
        transitive(rel),
        0 <= i < s.len() <= u32::MAX,
        0 <= j < group_count(s, rel),
    ensures
        group_to_origins(s, rel)[j].contains(i as u32) <==> origin_to_group(s, rel)[i] == j,
{
    let n = s.len() as int;
    let l = leader_at(s, rel, j);
    lemma_leader_at(s, rel, j);
    lemma_members(s, rel, l, n);
    lemma_leader(s, rel, i);
    lemma_leader_is_leader(s, rel, i);
    lemma_rank_bounds(s, rel, leader(s, rel, i));
    let listed = members(s, rel, l, n);
    if listed.contains(i as u32) {
        let t = choose|t: int| 0 <= t < listed.len() && listed[t] == i as u32;
        assert(leader(s, rel, listed[t] as int) == l);
    }
    if rank(s, rel, leader(s, rel, i)) == j {
        lemma_rank_injective(s, rel, leader(s, rel, i), l);
    }
}

/// Between two positions the rank grows by at most their distance.
pub proof fn lemma_rank_step<T>(s: Seq<T>, rel: spec_fn(T, T) -> bool, a: int, b: int)
    requires
        0 <= a <= b,
    ensures
        rank(s, rel, b) - rank(s, rel, a) <= b - a,
    decreases b - a,
{
    if a < b {
        lemma_rank_step(s, rel, a, b - 1);
    }
}

/// There are as many groups as elements exactly when no element is related
/// to a later one.
pub proof fn lemma_group_count_full<T>(s: Seq<T>, rel: spec_fn(T, T) -> bool)
    ensures
        group_count(s, rel) == s.len() <==> forall|a: int, b: int|
            0 <= a < b < s.len() ==> !rel(#[trigger] s[a], #[trigger] s[b]),
{
    let n = s.len() as int;
    if forall|a: int, b: int| 0 <= a < b < s.len() ==> !rel(#[trigger] s[a], #[trigger] s[b]) {
        lemma_all_leaders(s, rel, n);
    } else {
        let (a, b) = choose|a: int, b: int| 0 <= a < b < s.len() && rel(#[trigger] s[a], #[trigger] s[b]);
        lemma_leader(s, rel, b);
        assert(!is_leader(s, rel, b));
        assert(rank(s, rel, b + 1) == rank(s, rel, b));
        lemma_rank_bounds(s, rel, b);
        lemma_rank_step(s, rel, b + 1, n);
    }
}

} // verus!
