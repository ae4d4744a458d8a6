//! Load balancer for selecting a target node.
use vstd::prelude::*;
use indexmap::IndexMap;
use crate::random::choose_position;
use crate::state::{initial_node_state, node_state_le, state_le, NodeState};
use crate::strategy::Strategy;
use crate::target_map::{has_key, key_index, keys_distinct, lemma_key_index, map_clone, map_get_index, map_get_mut, map_insert, map_len, map_new, target_entries, TargetEntries};
use crate::text::{is_valid_target, is_valid_target_url};

verus! {

/// Why a load balancer could not be built.
#[derive(Debug, PartialEq, Eq)]
pub enum LoadBalancerError {
    /// The list of targets was empty.
    NoTargets,
    /// This target does not start with `http://` or `https://`.
    InvalidTarget(String),
}

/// The views of a list of URLs.
pub open spec fn urls_of(v: Seq<String>) -> Seq<Seq<char>> {
    v.map_values(|s: String| s@)
}

/// What every load balancer's targets satisfy: there is at least one, no
/// URL occurs twice, and each URL starts with `http://` or `https://`.
pub open spec fn targets_wf(e: TargetEntries) -> bool {
    &&& e.len() > 0
    &&& keys_distinct(e)
    &&& forall|i: int| 0 <= i < e.len() ==> is_valid_target(#[trigger] e[i].0)
}

/// The targets of a new load balancer built from `urls`: each distinct URL
/// once, in the order of its first occurrence, with the initial state.
pub open spec fn initial_entries(urls: Seq<Seq<char>>) -> TargetEntries
    decreases urls.len(),
{
    if urls.len() == 0 {
        Seq::empty()
    } else {
        let prev = initial_entries(urls.drop_last());
        if has_key(prev, urls.last()) {
            prev
        } else {
            prev.push((urls.last(), initial_node_state()))
        }
    }
}

/// Position `i` holds the greatest state, and every later entry's state is
/// strictly smaller: `i` is the last entry of greatest state.
pub open spec fn is_last_greatest(e: TargetEntries, i: int) -> bool {
    &&& 0 <= i < e.len()
    &&& forall|k: int| 0 <= k < e.len() ==> state_le(#[trigger] e[k].1, e[i].1)
    &&& forall|k: int| i < k < e.len() ==> !state_le(e[i].1, #[trigger] e[k].1)
}

/// The entries after the target `target` reported `height` (if any) and
/// was found healthy or not; unchanged where no entry has that URL.
pub open spec fn updated_entries(
    e: TargetEntries,
    target: Seq<char>,
    height: Option<u32>,
    healthy: bool,
) -> TargetEntries {
    if has_key(e, target) {
        let i = key_index(e, target);
        let new_height = match height {
            Some(h) => h,
            None => e[i].1.height,
        };
        e.update(i, (e[i].0, NodeState { height: new_height, healthy }))
    } else {
        e
    }
}

/// The entries whose health is `healthy`, in order.
pub open spec fn health_filter(e: TargetEntries, healthy: bool) -> TargetEntries {
    e.filter(|p: (Seq<char>, NodeState)| p.1.healthy == healthy)
}


/// Every target is either healthy or unhealthy: the healthy and the
/// unhealthy targets together are as many as all targets, and each target
/// is listed among those of its own health and not among the others.
pub proof fn lemma_health_partition(e: TargetEntries)
    ensures
        health_filter(e, true).len() + health_filter(e, false).len() == e.len(),
        forall|i: int|
            0 <= i < e.len() ==> health_filter(e, e[i].1.healthy).contains(#[trigger] e[i]),
        forall|i: int|
            0 <= i < e.len() ==> !health_filter(e, !e[i].1.healthy).contains(#[trigger] e[i]),
    decreases e.len(),
{
    let p_true = |p: (Seq<char>, NodeState)| p.1.healthy == true;
    let p_false = |p: (Seq<char>, NodeState)| p.1.healthy == false;
    if e.len() > 0 {
        lemma_health_partition(e.drop_last());
        assert(e =~= e.drop_last().push(e.last()));
        e.drop_last().lemma_filter_push(e.last(), p_true);
        e.drop_last().lemma_filter_push(e.last(), p_false);
    }
    assert forall|i: int| 0 <= i < e.len() implies health_filter(e, e[i].1.healthy).contains(
        #[trigger] e[i],
    ) by {
        let h = e[i].1.healthy;
        e.lemma_filter_contains(|p: (Seq<char>, NodeState)| p.1.healthy == h, i);
    }
    assert forall|i: int| 0 <= i < e.len() implies !health_filter(e, !e[i].1.healthy).contains(
        #[trigger] e[i],
    ) by {
        let h = !e[i].1.healthy;
        let f = health_filter(e, h);
        if f.contains(e[i]) {
            let k = choose|k: int| 0 <= k < f.len() && f[k] == e[i];
            e.lemma_filter_pred(|p: (Seq<char>, NodeState)| p.1.healthy == h, k);
        }
    }
}

/// A new load balancer registers every URL it was given, registers nothing
/// else, registers no URL twice, and starts with every target healthy at
/// height zero: none is unhealthy.
pub proof fn lemma_initial_entries(urls: Seq<Seq<char>>)
    ensures
        keys_distinct(initial_entries(urls)),
        forall|i: int| 0 <= i < urls.len() ==> has_key(initial_entries(urls), #[trigger] urls[i]),
        forall|i: int|
            0 <= i < initial_entries(urls).len() ==> urls.contains(
                #[trigger] initial_entries(urls)[i].0,
            ),
        forall|i: int|
            0 <= i < initial_entries(urls).len() ==> #[trigger] initial_entries(urls)[i].1
                == initial_node_state(),
        health_filter(initial_entries(urls), false).len() == 0,
    decreases urls.len(),
{
    let e = initial_entries(urls);
    if urls.len() > 0 {
        let prev_urls = urls.drop_last();
        lemma_initial_entries(prev_urls);
        let prev = initial_entries(prev_urls);
        assert forall|i: int| 0 <= i < urls.len() implies has_key(e, #[trigger] urls[i]) by {
            if i < urls.len() - 1 {
                assert(prev_urls[i] == urls[i]);
                let k = choose|k: int| 0 <= k < prev.len() && #[trigger] prev[k].0 == urls[i];
                assert(e[k].0 == urls[i]);
            } else if !has_key(prev, urls.last()) {
                assert(e[prev.len() as int].0 == urls[i]);
            }
        }
        assert forall|i: int| 0 <= i < e.len() implies urls.contains(#[trigger] e[i].0) by {
            if i < prev.len() {
                assert(prev[i] == e[i]);
                let k = choose|k: int| 0 <= k < prev_urls.len() && prev_urls[k] == prev[i].0;
                assert(urls[k] == prev_urls[k]);
            } else {
                assert(urls[urls.len() - 1] == e[i].0);
            }
        }
        if !has_key(prev, urls.last()) {
            assert forall|a: int, b: int|
                0 <= a < e.len() && 0 <= b < e.len() && a != b implies #[trigger] e[a].0
                != #[trigger] e[b].0 by {
                if a == e.len() - 1 {
                    assert(prev[b].0 == e[b].0);
                } else if b == e.len() - 1 {
                    assert(prev[a].0 == e[a].0);
                }
            }
        }
    }
    lemma_health_partition(e);
    let f = health_filter(e, false);
    if f.len() > 0 {
        e.lemma_filter_pred(|p: (Seq<char>, NodeState)| p.1.healthy == false, 0);
        assert(f.contains(f[0]));
        e.lemma_filter_contains_rev(|p: (Seq<char>, NodeState)| p.1.healthy == false, f[0]);
    }
}

/// Built from URLs that are all different, a load balancer registers them
/// in the given order, each healthy at height zero.
pub proof fn lemma_initial_entries_keep_order(urls: Seq<Seq<char>>)
    requires
        urls.no_duplicates(),
    ensures
        initial_entries(urls).len() == urls.len(),
        forall|i: int|
            0 <= i < urls.len() ==> #[trigger] initial_entries(urls)[i] == (
                urls[i],
                initial_node_state(),
            ),
    decreases urls.len(),
{
    if urls.len() > 0 {
        let d = urls.drop_last();
        assert(d.no_duplicates()) by {
            assert forall|a: int, b: int| 0 <= a < d.len() && 0 <= b < d.len() && a != b implies d[a] != d[b] by {
                assert(d[a] == urls[a]);
                assert(d[b] == urls[b]);
            }
        }
        lemma_initial_entries_keep_order(d);
        let prev = initial_entries(d);
        if has_key(prev, urls.last()) {
            let k = choose|k: int| 0 <= k < prev.len() && #[trigger] prev[k].0 == urls.last();
            assert(urls[k] == urls[urls.len() - 1]);
        }
    }
}

/// A URL given again is not registered again (it keeps its first place);
/// a new URL is registered last, healthy at height zero.
pub proof fn lemma_initial_entries_push(urls: Seq<Seq<char>>, u: Seq<char>)
    ensures
        urls.contains(u) ==> initial_entries(urls.push(u)) == initial_entries(urls),
        !urls.contains(u) ==> initial_entries(urls.push(u)) == initial_entries(urls).push(
            (u, initial_node_state()),
        ),
{
    let all = urls.push(u);
    assert(all.drop_last() =~= urls);
    lemma_initial_entries(urls);
    let prev = initial_entries(urls);
    if urls.contains(u) {
        let i = choose|i: int| 0 <= i < urls.len() && urls[i] == u;
        assert(has_key(prev, urls[i]));
    } else {
        if has_key(prev, u) {
            let k = choose|k: int| 0 <= k < prev.len() && #[trigger] prev[k].0 == u;
            assert(urls.contains(prev[k].0));
        }
    }
}

/// Listing the targets of a given health keeps their order: a further
/// target is listed last when it has that health, and not at all otherwise.
pub proof fn lemma_health_filter_push(e: TargetEntries, x: (Seq<char>, NodeState), healthy: bool)
    ensures
        x.1.healthy == healthy ==> health_filter(e.push(x), healthy) == health_filter(
            e,
            healthy,
        ).push(x),
        x.1.healthy != healthy ==> health_filter(e.push(x), healthy) == health_filter(e, healthy),
        health_filter(Seq::<(Seq<char>, NodeState)>::empty(), healthy).len() == 0,
{
    e.lemma_filter_push(x, |p: (Seq<char>, NodeState)| p.1.healthy == healthy);
    reveal(Seq::filter);
}

/// Updating a target's state never adds, removes or reorders targets, and
/// changes no other target's state.
pub proof fn lemma_update_keeps_targets(
    e: TargetEntries,
    target: Seq<char>,
    height: Option<u32>,
    healthy: bool,
)
    requires
        keys_distinct(e),
    ensures
        updated_entries(e, target, height, healthy).len() == e.len(),
        forall|i: int|
            0 <= i < e.len() ==> (#[trigger] updated_entries(e, target, height, healthy)[i]).0
                == e[i].0,
        forall|i: int|
            0 <= i < e.len() && e[i].0 != target ==> #[trigger] updated_entries(
                e,
                target,
                height,
                healthy,
            )[i] == e[i],
{
    if has_key(e, target) {
        lemma_key_index(e, target);
    }
}

/// A failed health check leaves the target registered, at the same height,
/// and lists it among the unhealthy targets; a successful one lists it among
/// the healthy targets at the reported height.
pub proof fn lemma_health_check_outcome(e: TargetEntries, endpoint: Seq<char>, latest_height: Option<u32>)
    requires
        keys_distinct(e),
        has_key(e, endpoint),
    ensures
        ({
            let i = key_index(e, endpoint);
            let u = updated_entries(e, endpoint, latest_height, latest_height is Some);
            &&& u[i].0 == endpoint
            &&& u[i].1.healthy == latest_height is Some
            &&& u[i].1.height == match latest_height {
                Some(h) => h,
                None => e[i].1.height,
            }
            &&& health_filter(u, latest_height is Some).contains(u[i])
            &&& !health_filter(u, !(latest_height is Some)).contains(u[i])
        }),
{
    lemma_key_index(e, endpoint);
    let i = key_index(e, endpoint);
    let u = updated_entries(e, endpoint, latest_height, latest_height is Some);
    lemma_health_partition(u);
    assert(u[i].1.healthy == latest_height is Some);
}

/// At most one position holds the last target of greatest state, so the
/// `GreatestHeight` strategy always picks the same target from the same
/// states.
pub proof fn lemma_last_greatest_unique(e: TargetEntries, i: int, j: int)
    requires
        is_last_greatest(e, i),
        is_last_greatest(e, j),
    ensures
        i == j,
{
    if i < j {
        assert(state_le(e[j].1, e[i].1));
        assert(!state_le(e[i].1, e[j].1));
        crate::state::lemma_state_le_total(e[i].1, e[j].1);
    } else if j < i {
        assert(state_le(e[i].1, e[j].1));
        assert(!state_le(e[j].1, e[i].1));
    }
}

/// The last target of greatest state has the greatest block height of all
/// targets, and is healthy unless no target at that height is healthy.
pub proof fn lemma_greatest_has_max_height(e: TargetEntries, i: int)
    requires
        is_last_greatest(e, i),
    ensures
        forall|k: int| 0 <= k < e.len() ==> (#[trigger] e[k]).1.height <= e[i].1.height,
        forall|k: int|
            0 <= k < e.len() && (#[trigger] e[k]).1.height == e[i].1.height && e[k].1.healthy
                ==> e[i].1.healthy,
        forall|k: int| i < k < e.len() ==> (#[trigger] e[k]).1.height < e[i].1.height || (
        e[k].1.height == e[i].1.height && !e[k].1.healthy && e[i].1.healthy),
{
    assert forall|k: int| 0 <= k < e.len() implies (#[trigger] e[k]).1.height <= e[i].1.height by {
        crate::state::lemma_state_le_height_first(e[k].1, e[i].1);
    }
}

/// For a registered target, the update sets its health to `healthy` and
/// its height to the given one, or keeps the height where none is given;
/// the target keeps its place.
pub proof fn lemma_update_sets_state(
    e: TargetEntries,
    target: Seq<char>,
    height: Option<u32>,
    healthy: bool,
)
    requires
        keys_distinct(e),
        has_key(e, target),
    ensures
        ({
            let i = key_index(e, target);
            let u = updated_entries(e, target, height, healthy);
            &&& e[i].0 == target
            &&& u[i].0 == target
            &&& u[i].1.healthy == healthy
            &&& height matches Some(h) ==> u[i].1 == NodeState { height: h, healthy }
            &&& height is None ==> u[i].1 == NodeState { height: e[i].1.height, healthy }
        }),
{
    lemma_key_index(e, target);
}

/// Some position always holds the last target of greatest state.
pub proof fn lemma_last_greatest_exists(e: TargetEntries)
    requires
        e.len() > 0,
    ensures
        exists|i: int| is_last_greatest(e, i),
    decreases e.len(),
{
    if e.len() == 1 {
        assert(is_last_greatest(e, 0));
    } else {
        let d = e.drop_last();
        lemma_last_greatest_exists(d);
        let i = choose|i: int| is_last_greatest(d, i);
        let n = e.len() - 1;
        if state_le(e[i].1, e[n].1) {
            assert forall|k: int| 0 <= k < e.len() implies state_le(#[trigger] e[k].1, e[n].1) by {
                if k < n {
                    assert(d[k] == e[k]);
                    assert(state_le(d[k].1, d[i].1));
                }
            }
            assert(is_last_greatest(e, n));
        } else {
            assert forall|k: int| 0 <= k < e.len() implies state_le(#[trigger] e[k].1, e[i].1) by {
                if k < n {
                    assert(d[k] == e[k]);
                } else {
                    crate::state::lemma_state_le_total(e[i].1, e[n].1);
                }
            }
            assert forall|k: int| i < k < e.len() implies !state_le(e[i].1, #[trigger] e[k].1) by {
                if k < n {
                    assert(d[k] == e[k]);
                }
            }
            assert(is_last_greatest(e, i));
        }
    }
}

/// Load balancer for selecting a target node.
#[derive(Debug)]
pub struct LoadBalancer {
    targets: IndexMap<String, NodeState>,
    strategy: Strategy,
}

impl Clone for LoadBalancer {
    fn clone(&self) -> (r: Self)
        ensures
            r.wf(),
            r.entries() == self.entries(),
            r.current_strategy() == self.current_strategy(),
    {
        proof {
            use_type_invariant(self);
        }
        LoadBalancer { targets: map_clone(&self.targets), strategy: self.strategy }
    }
}

impl LoadBalancer {
    /// The targets with their states, in the order they were registered.
    pub closed spec fn entries(&self) -> TargetEntries {
        target_entries(self.targets)
    }

    /// The strategy in use.
    pub closed spec fn current_strategy(&self) -> Strategy {
        self.strategy
    }

    /// The invariant of every load balancer.
    pub open spec fn wf(&self) -> bool {
        targets_wf(self.entries())
    }

    /// Every load balancer satisfies `wf`.
    #[verifier::type_invariant]
    closed spec fn always_wf(&self) -> bool {
        targets_wf(target_entries(self.targets))
    }

    /// Create a new load balancer with a list of Aleo REST API targets.
    ///
    /// Fails with `NoTargets` on an empty list, and with `InvalidTarget` on
    /// the first URL that starts with neither `http://` nor `https://`.
    /// A URL given twice is registered once, at its first position.
    pub fn new(targets: Vec<String>, strategy: Strategy) -> (r: Result<Self, LoadBalancerError>)
        ensures
            r is Ok <==> targets@.len() > 0 && forall|i: int|
                0 <= i < targets@.len() ==> is_valid_target(#[trigger] targets@[i]@),
            (r == Err::<Self, LoadBalancerError>(LoadBalancerError::NoTargets)) <==> targets@.len()
                == 0,
            r is Err && targets@.len() > 0 ==> exists|i: int|
                0 <= i < targets@.len() && !is_valid_target(#[trigger] targets@[i]@) && (forall|j: int|
                    0 <= j < i ==> is_valid_target(targets@[j]@)) && r == Err::<
                    Self,
                    LoadBalancerError,
                >(LoadBalancerError::InvalidTarget(targets@[i])),
            r is Ok ==> r.unwrap().wf() && r.unwrap().entries() == initial_entries(
                urls_of(targets@),
            ) && r.unwrap().current_strategy() == strategy,
    {
        if targets.len() == 0 {
            return Err(LoadBalancerError::NoTargets);
        }
        let n = targets.len();
        let mut i: usize = 0;
        while i < n
            invariant
                n == targets@.len(),
                i <= n,
                forall|j: int| 0 <= j < i ==> is_valid_target(#[trigger] targets@[j]@),
            decreases n - i,
        {
            if !is_valid_target_url(targets[i].as_str()) {
                return Err(LoadBalancerError::InvalidTarget(targets[i].clone()));
            }
            i += 1;
        }
        let ghost urls = urls_of(targets@);
        let mut map = map_new();
        let mut k: usize = 0;
        while k < n
            invariant
                n == targets@.len(),
                n > 0,
                urls == urls_of(targets@),
                k <= n,
                forall|j: int| 0 <= j < n ==> is_valid_target(#[trigger] targets@[j]@),
                target_entries(map) == initial_entries(urls.take(k as int)),
                keys_distinct(target_entries(map)),
                k > 0 ==> target_entries(map).len() > 0,
                forall|j: int|
                    0 <= j < target_entries(map).len() ==> is_valid_target(
                        #[trigger] target_entries(map)[j].0,
                    ) && target_entries(map)[j].1 == initial_node_state(),
            decreases n - k,
        {
            let ghost before = target_entries(map);
            let key = targets[k].clone();
            proof {
                assert(urls.take(k + 1).drop_last() =~= urls.take(k as int));
                assert(urls.take(k + 1).last() == key@);
            }
            let state = NodeState::default();
            map_insert(&mut map, key, state);
            proof {
                let after = target_entries(map);
                if has_key(before, key@) {
                    lemma_key_index(before, key@);
                    assert(after =~= before);
                } else {
                    assert(after == before.push((key@, initial_node_state())));
                    assert(is_valid_target(targets@[k as int]@));
                    assert forall|j: int| 0 <= j < after.len() implies is_valid_target(
                        #[trigger] after[j].0,
                    ) && after[j].1 == initial_node_state() by {
                        if j < before.len() {
                            assert(after[j] == before[j]);
                        }
                    }
                    assert forall|a: int, b: int|
                        0 <= a < after.len() && 0 <= b < after.len() && a != b implies #[trigger] after[a].0
                        != #[trigger] after[b].0 by {
                        if a == after.len() - 1 {
                            assert(before[b].0 == after[b].0);
                        } else if b == after.len() - 1 {
                            assert(before[a].0 == after[a].0);
                        }
                    }
                }
                assert(target_entries(map) == initial_entries(urls.take(k + 1)));
            }
            k += 1;
        }
        assert(urls.take(n as int) =~= urls);
        Ok(LoadBalancer { targets: map, strategy })
    }

    /// Returns a target according to the strategy: under `Random`, the
    /// target at a position drawn at random (`target_at` of that position);
    /// under `GreatestHeight`, the last target of greatest state.
    pub fn get_target(&self) -> (r: &String)
        ensures
            has_key(self.entries(), r@),
            self.current_strategy() == Strategy::GreatestHeight ==> exists|i: int|
                is_last_greatest(self.entries(), i) && r@ == self.entries()[i].0,
    {
        proof {
            use_type_invariant(self);
        }
        let n = map_len(&self.targets);
        match self.strategy {
            Strategy::Random => {
                let i = choose_position(n).unwrap();
                self.target_at(i)
            },
            Strategy::GreatestHeight => {
                let i = self.greatest_position();
                let entry = map_get_index(&self.targets, i).unwrap();
                entry.0
            },
        }
    }

    /// The target registered at position `index` (counting from zero in
    /// registration order).
    pub fn target_at(&self, index: usize) -> (r: &String)
        requires
            index < self.entries().len(),
        ensures
            r@ == self.entries()[index as int].0,
    {
        let entry = map_get_index(&self.targets, index).unwrap();
        entry.0
    }

    /// The position of the last target of greatest state.
    fn greatest_position(&self) -> (i: usize)
        ensures
            is_last_greatest(self.entries(), i as int),
    {
        proof {
            use_type_invariant(self);
        }
        let ghost e = self.entries();
        let n = map_len(&self.targets);
        let mut best: usize = 0;
        let mut best_state: NodeState = *map_get_index(&self.targets, 0).unwrap().1;
        let mut j: usize = 1;
        while j < n
            invariant
                e == self.entries(),
                n == e.len(),
                1 <= j <= n,
                best < j,
                best_state == e[best as int].1,
                forall|k: int| 0 <= k < j ==> state_le(#[trigger] e[k].1, e[best as int].1),
                forall|k: int| best < k < j ==> !state_le(e[best as int].1, #[trigger] e[k].1),
            decreases n - j,
        {
            let state: NodeState = *map_get_index(&self.targets, j).unwrap().1;
            if node_state_le(&best_state, &state) {
                best = j;
                best_state = state;
            }
            j += 1;
        }
        best
    }

    /// Returns the list of targets.
    pub fn get_targets(&self) -> (r: &IndexMap<String, NodeState>)
        ensures
            target_entries(*r) == self.entries(),
    {
        &self.targets
    }

    /// The targets whose health is `healthy`, in order.
    fn targets_with_health(&self, healthy: bool) -> (r: IndexMap<String, NodeState>)
        ensures
            target_entries(r) == health_filter(self.entries(), healthy),
    {
        proof {
            use_type_invariant(self);
        }
        let ghost e = self.entries();
        let ghost pred = |p: (Seq<char>, NodeState)| p.1.healthy == healthy;
        let n = map_len(&self.targets);
        let mut out = map_new();
        let mut j: usize = 0;
        while j < n
            invariant
                e == self.entries(),
                targets_wf(e),
                n == e.len(),
                j <= n,
                pred == (|p: (Seq<char>, NodeState)| p.1.healthy == healthy),
                target_entries(out) == e.take(j as int).filter(pred),
                keys_distinct(target_entries(out)),
            decreases n - j,
        {
            let entry = map_get_index(&self.targets, j).unwrap();
            let ghost before = target_entries(out);
            proof {
                assert(e.take(j + 1) =~= e.take(j as int).push(e[j as int]));
                e.take(j as int).lemma_filter_push(e[j as int], pred);
            }
            if entry.1.healthy == healthy {
                proof {
                    if has_key(before, entry.0@) {
                        let a = choose|a: int| 0 <= a < before.len() && #[trigger] before[a].0 == entry.0@;
                        assert(before.contains(before[a]));
                        e.take(j as int).lemma_filter_contains_rev(pred, before[a]);
                        let b = choose|b: int| 0 <= b < j && #[trigger] e.take(j as int)[b] == before[a];
                        assert(e[b].0 == e[j as int].0);
                        assert(false);
                    }
                }
                map_insert(&mut out, entry.0.clone(), *entry.1);
                proof {
                    let after = target_entries(out);
                    assert(after == before.push(e[j as int]));
                    assert forall|a: int, b: int|
                        0 <= a < after.len() && 0 <= b < after.len() && a != b implies #[trigger] after[a].0
                        != #[trigger] after[b].0 by {
                        if a == after.len() - 1 {
                            assert(before[b].0 == after[b].0);
                        } else if b == after.len() - 1 {
                            assert(before[a].0 == after[a].0);
                        }
                    }
                }
            }
            j += 1;
        }
        assert(e.take(n as int) =~= e);
        out
    }

    /// Returns the list of healthy targets, in order.
    pub fn get_healthy_targets(&self) -> (r: IndexMap<String, NodeState>)
        ensures
            target_entries(r) == health_filter(self.entries(), true),
    {
        self.targets_with_health(true)
    }

    /// Returns the list of unhealthy targets, in order.
    pub fn get_unhealthy_targets(&self) -> (r: IndexMap<String, NodeState>)
        ensures
            target_entries(r) == health_filter(self.entries(), false),
    {
        self.targets_with_health(false)
    }

    /// Set the load balancer strategy.
    pub fn set_strategy(&mut self, strategy: Strategy)
        ensures
            final(self).wf(),
            final(self).entries() == old(self).entries(),
            final(self).current_strategy() == strategy,
    {
        proof {
            use_type_invariant(&*self);
        }
        self.strategy = strategy;
    }

    /// Update target height for a given target: its health becomes
    /// `healthy`, and its height `height` where one is given. A URL that is
    /// not registered is ignored.
    pub fn update_target_height(&mut self, target: &str, height: Option<u32>, healthy: bool)
        ensures
            final(self).wf(),
            final(self).current_strategy() == old(self).current_strategy(),
            final(self).entries() == updated_entries(old(self).entries(), target@, height, healthy),
    {
        proof {
            use_type_invariant(&*self);
        }
        let ghost e = self.entries();
        proof {
            if has_key(e, target@) {
                lemma_key_index(e, target@);
            }
        }
        match map_get_mut(&mut self.targets, target) {
            Some(target_height) => {
                target_height.healthy = healthy;
                if let Some(height) = height {
                    target_height.height = height;
                }
            },
            None => {},
        }
        proof {
            let after = self.entries();
            if has_key(e, target@) {
                let i = key_index(e, target@);
                assert forall|a: int, b: int|
                    0 <= a < after.len() && 0 <= b < after.len() && a != b implies #[trigger] after[a].0
                    != #[trigger] after[b].0 by {
                    assert(after[a].0 == e[a].0);
                    assert(after[b].0 == e[b].0);
                }
                assert forall|a: int| 0 <= a < after.len() implies is_valid_target(
                    #[trigger] after[a].0,
                ) by {
                    assert(after[a].0 == e[a].0);
                }
            }
        }
    }

    /// Records the outcome of a health check of `endpoint`: the latest
    /// block height it reported, or `None` where the check failed. A node
    /// that answered becomes healthy at the reported height; one that did
    /// not becomes unhealthy and keeps its height. Returns whether the node
    /// answered.
    pub fn record_health_check(&mut self, endpoint: &str, latest_height: Option<u32>) -> (r: bool)
        ensures
            r == latest_height is Some,
            final(self).wf(),
            final(self).current_strategy() == old(self).current_strategy(),
            final(self).entries() == updated_entries(
                old(self).entries(),
                endpoint@,
                latest_height,
                latest_height is Some,
            ),
    {
        match latest_height {
            Some(height) => {
                self.update_target_height(endpoint, Some(height), true);
                true
            },
            None => {
                self.update_target_height(endpoint, None, false);
                false
            },
        }
    }
}

} // verus!
