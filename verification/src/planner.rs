use vstd::prelude::*;

use crate::action::Action;
use crate::action::ActionV;
use crate::condition::Condition;
use crate::condition::conds_sat;
use crate::condition::conditions_met;
use crate::cost::Cost;
use crate::effect::apply_effects;
use crate::errors::PlannerError;
use crate::goal::Goal;
use crate::plan::Plan;
use crate::value::Value;
use crate::world::WorldState;
use crate::world::ws_equiv;

verus! {

/// Owns the action library and runs the forward state-space search.
pub struct Planner {
    actions: Vec<Action>,
}

/// All preconditions of the action hold in `s`.
pub open spec fn applicable(a: ActionV, s: Seq<Value>) -> bool {
    conds_sat(a.preconditions, s)
}

/// The state the action produces from `s`.
pub open spec fn action_result(s: Seq<Value>, a: ActionV) -> Seq<Value> {
    apply_effects(s, a.effects)
}

/// Action `k` is applicable in `from` and its result is observably equal
/// to `to`.
pub open spec fn edge_to(actions: Seq<ActionV>, k: int, from: Seq<Value>, to: Seq<Value>) -> bool {
    &&& 0 <= k < actions.len()
    &&& applicable(actions[k], from)
    &&& ws_equiv(action_result(from, actions[k]), to)
}

/// The largest action cost the planner admits.
pub const MAX_ACTION_COST: i64 = 1048576;

/// Every action's cost is non-negative, as the data model requires, and at
/// most `MAX_ACTION_COST`, so that the search's 64-bit cost accumulation
/// cannot overflow: that would take a recorded path of over 2^43 edges, far
/// more nodes than any search bookkeeping can hold.
pub open spec fn costs_admissible(actions: Seq<ActionV>) -> bool {
    forall|k: int|
        0 <= k < actions.len() ==> 0 <= (#[trigger] actions[k]).cost <= MAX_ACTION_COST as int
}

/// The indices `ks` name actions of the library and each one's
/// preconditions hold in the state reached by its predecessors: `ks` can be
/// executed from `s` as it stands.
pub open spec fn chain_ok(actions: Seq<ActionV>, s: Seq<Value>, ks: Seq<int>) -> bool
    decreases ks.len(),
{
    ks.len() == 0 || {
        &&& 0 <= ks[0] < actions.len()
        &&& applicable(actions[ks[0]], s)
        &&& chain_ok(actions, action_result(s, actions[ks[0]]), ks.skip(1))
    }
}

/// The state reached after executing `ks` from `s`.
pub open spec fn chain_end(actions: Seq<ActionV>, s: Seq<Value>, ks: Seq<int>) -> Seq<Value>
    decreases ks.len(),
{
    if ks.len() == 0 {
        s
    } else {
        chain_end(actions, action_result(s, actions[ks[0]]), ks.skip(1))
    }
}

/// The summed cost of the actions named by `ks`.
pub open spec fn chain_cost(actions: Seq<ActionV>, ks: Seq<int>) -> int
    decreases ks.len(),
{
    if ks.len() == 0 {
        0
    } else {
        actions[ks[0]].cost + chain_cost(actions, ks.skip(1))
    }
}

/// The indices `ks` name applicable actions that step, up to observable
/// equality, along some state path from `start` to a goal-satisfying state.
pub open spec fn replays_to_goal(
    actions: Seq<ActionV>,
    start: Seq<Value>,
    goal: Seq<Condition>,
    ks: Seq<int>,
) -> bool {
    exists|q: Seq<Seq<Value>>|
        {
            &&& q.len() == ks.len() + 1
            &&& q[0] == start
            &&& conds_sat(goal, q.last())
            &&& forall|i: int| 0 <= i < ks.len() ==> edge_to(actions, #[trigger] ks[i], q[i], q[i + 1])
        }
}

/// Some action sequence leads from `s0` exactly to `t`.
pub open spec fn reachable(actions: Seq<ActionV>, s0: Seq<Value>, t: Seq<Value>) -> bool {
    exists|ks: Seq<int>| chain_ok(actions, s0, ks) && chain_end(actions, s0, ks) == t
}

/// The effect-applied successor of `s` under each applicable action, in
/// library order, paired with that action's cost.
pub open spec fn successors_of(actions: Seq<ActionV>, s: Seq<Value>) -> Seq<(Seq<Value>, int)>
    decreases actions.len(),
{
    if actions.len() == 0 {
        Seq::empty()
    } else {
        let front = successors_of(actions.drop_last(), s);
        let a = actions.last();
        if applicable(a, s) {
            front.push((action_result(s, a), a.cost))
        } else {
            front
        }
    }
}

/// Every slot of `s` holds a raw integer: no references, no error sentinel.
pub open spec fn all_int(s: Seq<Value>) -> bool {
    forall|i: int| 0 <= i < s.len() ==> s[i] is Int
}

/// Every action maps integer-only states to integer-only states. On such
/// states observable equality coincides with plain equality, so the search
/// graph is exactly the action transition graph.
pub open spec fn int_preserving(actions: Seq<ActionV>) -> bool {
    forall|k: int, s: Seq<Value>|
        0 <= k < actions.len() && all_int(s) ==> all_int(#[trigger] action_result(s, actions[k]))
}

/// The views of the states along a search path.
pub open spec fn path_views(path: Seq<WorldState>) -> Seq<Seq<Value>> {
    path.map_values(|w: WorldState| w@)
}

/// What the best-first search returns for the given library, start state and
/// goal conditions: the state path and its total cost, or nothing when the
/// explored graph contains no goal-satisfying state. The search is
/// deterministic — its tie-breaking depends only on these arguments — which
/// is what this name records; its properties are stated where the search is
/// invoked.
pub uninterp spec fn search_outcome(
    actions: Seq<ActionV>,
    start: Seq<Value>,
    goal: Seq<Condition>,
) -> Option<(Seq<Seq<Value>>, int)>;

/// The lowest library index explaining the transition `from -> to`, starting
/// the scan at `k`.
pub open spec fn first_match_from(
    actions: Seq<ActionV>,
    from: Seq<Value>,
    to: Seq<Value>,
    k: int,
) -> Option<int>
    decreases actions.len() - k when 0 <= k <= actions.len()
{
    if k >= actions.len() {
        None
    } else if applicable(actions[k], from) && ws_equiv(action_result(from, actions[k]), to) {
        Some(k)
    } else {
        first_match_from(actions, from, to, k + 1)
    }
}

/// The lowest library index explaining the transition `from -> to`.
pub open spec fn first_match(actions: Seq<ActionV>, from: Seq<Value>, to: Seq<Value>) -> Option<
    int,
> {
    first_match_from(actions, from, to, 0)
}

/// Matches each consecutive pair of path states back to the first action
/// that explains it, from window `i` on; `None` when some window has no
/// explanation.
pub open spec fn reconstruct_from(actions: Seq<ActionV>, path: Seq<Seq<Value>>, i: int) -> Option<
    Seq<int>,
>
    decreases path.len() - i when 0 <= i
{
    if i + 1 >= path.len() {
        Some(Seq::empty())
    } else {
        match first_match(actions, path[i], path[i + 1]) {
            None => None,
            Some(k) => match reconstruct_from(actions, path, i + 1) {
                None => None,
                Some(rest) => Some(seq![k] + rest),
            },
        }
    }
}

/// The action indices explaining a whole path, or `None` when a window has
/// no explanation.
pub open spec fn reconstruct(actions: Seq<ActionV>, path: Seq<Seq<Value>>) -> Option<Seq<int>> {
    reconstruct_from(actions, path, 0)
}

/// What `plan` returns, as a function of the planner's library, the start
/// state and the goal conditions: the reconstructed action indices with the
/// search's total cost, or the error naming what failed.
pub open spec fn plan_outcome(
    actions: Seq<ActionV>,
    start: Seq<Value>,
    goal: Seq<Condition>,
) -> Result<(Seq<int>, int), PlannerError> {
    match search_outcome(actions, start, goal) {
        None => Err(PlannerError::NoPlanFound),
        Some((path, cost)) => match reconstruct(actions, path) {
            None => Err(PlannerError::UnreachableState),
            Some(ks) => Ok((ks, cost)),
        },
    }
}

impl View for Planner {
    type V = Seq<ActionV>;

    closed spec fn view(&self) -> Seq<ActionV> {
        Seq::new(self.actions@.len(), |i: int| self.actions@[i]@)
    }
}

/// The effect assigns a concrete integer to its target slot.
pub open spec fn assigns_int(e: crate::effect::Effect) -> bool {
    match e {
        crate::effect::Effect::Assign(_, v) => v is Int,
        _ => false,
    }
}

/// Applying integer assignments to an integer-only state keeps it
/// integer-only.
proof fn lemma_assign_effects_all_int(s: Seq<Value>, effects: Seq<crate::effect::Effect>)
    requires
        all_int(s),
        forall|e: int| 0 <= e < effects.len() ==> assigns_int(#[trigger] effects[e]),
    ensures
        all_int(apply_effects(s, effects)),
    decreases effects.len(),
{
    if effects.len() != 0 {
        lemma_assign_effects_all_int(s, effects.drop_last());
        let mid = apply_effects(s, effects.drop_last());
        match effects.last() {
            crate::effect::Effect::Assign(f, v) => {
                assert(all_int(crate::world::grown(mid, f)));
            }
            _ => {}
        }
    }
}

/// A library whose effects all assign concrete integers is
/// integer-preserving, so `plan`'s exact clauses apply to it whenever the
/// start state is integer-only.
pub proof fn lemma_assign_library_int_preserving(actions: Seq<ActionV>)
    requires
        forall|k: int, e: int|
            0 <= k < actions.len() && 0 <= e < actions[k].effects.len() ==> assigns_int(
                #[trigger] actions[k].effects[e],
            ),
    ensures
        int_preserving(actions),
{
    assert forall|k: int, s: Seq<Value>|
        0 <= k < actions.len() && all_int(s) implies all_int(
        #[trigger] action_result(s, actions[k]),
    ) by {
        lemma_assign_effects_all_int(s, actions[k].effects);
    }
}

/// Executing an action chain from an integer-only state under an
/// integer-preserving library ends in an integer-only state.
proof fn lemma_chain_all_int(actions: Seq<ActionV>, s: Seq<Value>, ks: Seq<int>)
    requires
        chain_ok(actions, s, ks),
        all_int(s),
        int_preserving(actions),
    ensures
        all_int(chain_end(actions, s, ks)),
    decreases ks.len(),
{
    if ks.len() != 0 {
        lemma_chain_all_int(actions, action_result(s, actions[ks[0]]), ks.skip(1));
    }
}

/// On integer-only states, observable equality is plain equality: every slot
/// resolves to itself.
proof fn lemma_all_int_equiv_eq(x: Seq<Value>, y: Seq<Value>)
    requires
        all_int(x),
        all_int(y),
        ws_equiv(x, y),
    ensures
        x == y,
{
    assert forall|i: int| 0 <= i < x.len() implies x[i] == y[i] by {
        assert(crate::world::resolved_seq(x)[i] == crate::value::resolve_full(x, x[i]));
        assert(crate::world::resolved_seq(y)[i] == crate::value::resolve_full(y, y[i]));
        assert(crate::value::resolve_full(x, x[i]) == x[i]);
        assert(crate::value::resolve_full(y, y[i]) == y[i]);
    }
    assert(x =~= y);
}

/// When some action explains a transition, the scan from any earlier index
/// finds one.
proof fn lemma_first_match_some(
    actions: Seq<ActionV>,
    from: Seq<Value>,
    to: Seq<Value>,
    k: int,
    j: int,
)
    requires
        edge_to(actions, k, from, to),
        0 <= j <= k,
    ensures
        first_match_from(actions, from, to, j) is Some,
    decreases k - j,
{
    if j < k && !(applicable(actions[j], from) && ws_equiv(action_result(from, actions[j]), to)) {
        lemma_first_match_some(actions, from, to, k, j + 1);
    }
}

proof fn lemma_first_match_from_least(
    actions: Seq<ActionV>,
    from: Seq<Value>,
    to: Seq<Value>,
    j: int,
)
    requires
        0 <= j <= actions.len(),
    ensures
        first_match_from(actions, from, to, j) matches Some(k) ==> {
            &&& j <= k < actions.len()
            &&& edge_to(actions, k, from, to)
            &&& forall|i: int| j <= i < k ==> !edge_to(actions, i, from, to)
        },
    decreases actions.len() - j,
{
    if j < actions.len() && !(applicable(actions[j], from) && ws_equiv(
        action_result(from, actions[j]),
        to,
    )) {
        lemma_first_match_from_least(actions, from, to, j + 1);
    }
}

/// The reconstruction tie-break, stated on its own: when the scan finds an
/// action explaining a transition, that action explains it and no action of
/// a smaller library index does.
pub proof fn lemma_first_match_is_least(actions: Seq<ActionV>, from: Seq<Value>, to: Seq<Value>)
    ensures
        first_match(actions, from, to) matches Some(k) ==> {
            &&& edge_to(actions, k, from, to)
            &&& forall|i: int| 0 <= i < k ==> !edge_to(actions, i, from, to)
        },
{
    lemma_first_match_from_least(actions, from, to, 0);
}

proof fn lemma_reconstruct_from_least(actions: Seq<ActionV>, path: Seq<Seq<Value>>, i: int)
    requires
        0 <= i <= path.len(),
    ensures
        reconstruct_from(actions, path, i) matches Some(ks) ==> {
            &&& ks.len() == if i + 1 >= path.len() {
                0
            } else {
                path.len() - 1 - i
            }
            &&& forall|w: int|
                0 <= w < ks.len() ==> first_match(actions, path[i + w], path[i + w + 1]) == Some(
                    #[trigger] ks[w],
                )
        },
    decreases path.len() - i,
{
    if i + 1 < path.len() {
        lemma_reconstruct_from_least(actions, path, i + 1);
        match first_match(actions, path[i], path[i + 1]) {
            Some(k) => match reconstruct_from(actions, path, i + 1) {
                Some(rest) => {
                    let ks = seq![k] + rest;
                    assert forall|w: int|
                        0 <= w < ks.len() implies first_match(actions, path[i + w], path[i + w + 1])
                        == Some(#[trigger] ks[w]) by {
                        if w > 0 {
                            assert(ks[w] == rest[w - 1]);
                        }
                    }
                },
                None => {},
            },
            None => {},
        }
    }
}

/// Reconstruction applies the deterministic tie-break at every window: each
/// returned index is the first match for its consecutive state pair — by
/// `lemma_first_match_is_least`, the lowest library index explaining it.
pub proof fn lemma_reconstruct_picks_first_matches(actions: Seq<ActionV>, path: Seq<Seq<Value>>)
    requires
        path.len() >= 1,
    ensures
        reconstruct(actions, path) matches Some(ks) ==> {
            &&& ks.len() == path.len() - 1
            &&& forall|w: int|
                0 <= w < ks.len() ==> first_match(actions, path[w], path[w + 1]) == Some(
                    #[trigger] ks[w],
                )
        },
{
    lemma_reconstruct_from_least(actions, path, 0);
}

/// When every window from `i` on has a first match, reconstruction from `i`
/// returns exactly those matches.
proof fn lemma_reconstruct_of_matches(
    actions: Seq<ActionV>,
    path: Seq<Seq<Value>>,
    ms: Seq<int>,
    i: int,
)
    requires
        path.len() >= 1,
        ms.len() == path.len() - 1,
        0 <= i <= ms.len(),
        forall|j: int|
            i <= j < ms.len() ==> first_match(actions, path[j], path[j + 1]) == Some(
                #[trigger] ms[j],
            ),
    ensures
        reconstruct_from(actions, path, i) == Some(ms.skip(i)),
    decreases ms.len() - i,
{
    if i == ms.len() {
        assert(ms.skip(i) =~= Seq::<int>::empty());
    } else {
        lemma_reconstruct_of_matches(actions, path, ms, i + 1);
        assert(seq![ms[i]] + ms.skip(i + 1) =~= ms.skip(i));
    }
}

/// A path whose windows are exact action transitions is an executable chain:
/// the matched indices run from the window's state to the path's last state,
/// at the summed cost of the matched actions.
proof fn lemma_path_chain(actions: Seq<ActionV>, path: Seq<Seq<Value>>, ms: Seq<int>, i: int)
    requires
        path.len() >= 1,
        ms.len() == path.len() - 1,
        0 <= i <= ms.len(),
        forall|j: int|
            i <= j < ms.len() ==> {
                &&& 0 <= #[trigger] ms[j] < actions.len()
                &&& applicable(actions[ms[j]], path[j])
                &&& action_result(path[j], actions[ms[j]]) == path[j + 1]
            },
    ensures
        chain_ok(actions, path[i], ms.skip(i)),
        chain_end(actions, path[i], ms.skip(i)) == path.last(),
    decreases ms.len() - i,
{
    if i == ms.len() {
    } else {
        lemma_path_chain(actions, path, ms, i + 1);
        assert(ms.skip(i)[0] == ms[i]);
        assert(ms.skip(i).skip(1) =~= ms.skip(i + 1));
    }
}

impl Planner {
    /// A planner with an empty action library.
    pub fn new() -> (r: Self)
        ensures
            r@ == Seq::<ActionV>::empty(),
    {
        let r = Planner { actions: Vec::new() };
        proof {
            assert(r@ =~= Seq::<ActionV>::empty());
        }
        r
    }

    /// Appends an action to the library; the new index is the append order,
    /// and it is what `Plan.actions` later refers to.
    pub fn add_action(&mut self, action: Action)
        ensures
            final(self)@ == old(self)@.push(action@),
    {
        let ghost av = action@;
        self.actions.push(action);
        proof {
            assert(self@ =~= old(self)@.push(av));
        }
    }

    /// The effect-applied successor states of `state`, one per applicable
    /// action in library order, each paired with its action's cost.
    pub fn successors(&self, state: &WorldState) -> (r: Vec<(WorldState, Cost)>)
        ensures
            r@.map_values(|p: (WorldState, Cost)| (p.0@, p.1.0 as int)) == successors_of(
                self@,
                state@,
            ),
    {
        let mut result: Vec<(WorldState, Cost)> = Vec::new();
        let n = self.actions.len();
        let mut k: usize = 0;
        while k < n
            invariant
                k <= n == self@.len(),
                n == self.actions@.len(),
                forall|i: int| 0 <= i < n ==> self@[i] == self.actions@[i]@,
                result@.map_values(|p: (WorldState, Cost)| (p.0@, p.1.0 as int))
                    == successors_of(self@.take(k as int), state@),
            decreases n - k,
        {
            proof {
                assert(self@.take(k + 1 as int).drop_last() =~= self@.take(k as int));
                assert(self@.take(k + 1 as int).last() == self@[k as int]);
            }
            let action = &self.actions[k];
            if conditions_met(action.preconditions.as_slice(), state) {
                let next_state = state.with_effects(action.effects.as_slice());
                result.push((next_state, action.cost));
            }
            proof {
                assert(result@.map_values(|p: (WorldState, Cost)| (p.0@, p.1.0 as int))
                    =~= successors_of(self@.take(k + 1 as int), state@));
            }
            k = k + 1;
        }
        proof {
            assert(self@.take(n as int) =~= self@);
        }
        result
    }

    /// Relies on `pathfinding::prelude::astar` with a zero heuristic, which
    /// makes it a uniform-cost (Dijkstra) search: it returns a path of
    /// states from `start` to a state satisfying the goal together with the
    /// path's total cost, or `None` when the explored graph holds no such
    /// state. Nodes are deduplicated by `WorldState`'s observable equality
    /// and hash; every returned state was produced from `start` by applying
    /// applicable actions; consecutive states are linked by edges the
    /// successor function generated, and the cost is the sum of those
    /// edges' action costs. A start state that already satisfies the goal
    /// is popped first and returned alone at cost zero. The search is
    /// documented to return a minimal-cost path (the zero heuristic is
    /// admissible) and `None` only on exhaustion, which the last two clauses
    /// state on the action transition graph itself for libraries where
    /// observable equality is a congruence — guaranteed here by the
    /// integer-only premise. Its tie-breaking is deterministic (hashing and
    /// iteration order depend on the inputs alone), which `search_outcome`
    /// records. The cost bound in `costs_admissible` keeps the search's
    /// internal 64-bit cost sums from overflowing; on a state graph whose
    /// reachable part is infinite and holds no goal, the call does not
    /// return.
    #[verifier::external_body]
    fn run_search(&self, start: &WorldState, goal: &Goal) -> (r: Option<(Vec<WorldState>, i64)>)
        requires
            costs_admissible(self@),
        ensures
            (r matches Some(pc) ==> search_outcome(self@, start@, goal@.conditions) == Some(
                (path_views(pc.0@), pc.1 as int),
            )),
            (r is None ==> search_outcome(self@, start@, goal@.conditions) is None),
            conds_sat(goal@.conditions, start@) ==> {
                &&& (r is Some)
                &&& (r matches Some(pc) ==> path_views(pc.0@).len() == 1 && path_views(pc.0@)[0]
                    == start@ && pc.1 == 0)
            },
            (r matches Some(pc) ==> {
                let p = path_views(pc.0@);
                &&& p.len() >= 1
                &&& p[0] == start@
                &&& conds_sat(goal@.conditions, p.last())
                &&& forall|i: int| 0 <= i < p.len() ==> reachable(self@, start@, #[trigger] p[i])
                &&& exists|ks: Seq<int>|
                    {
                        &&& ks.len() == p.len() - 1
                        &&& (forall|i: int|
                            0 <= i < ks.len() ==> edge_to(self@, #[trigger] ks[i], p[i], p[i + 1]))
                        &&& chain_cost(self@, ks) == pc.1 as int
                    }
            }),
            all_int(start@) && int_preserving(self@) ==> {
                &&& (r is None ==> forall|ks: Seq<int>|
                    chain_ok(self@, start@, ks) ==> !conds_sat(
                        goal@.conditions,
                        chain_end(self@, start@, ks),
                    ))
                &&& (r matches Some(pc) ==> forall|ks: Seq<int>|
                    chain_ok(self@, start@, ks) && conds_sat(
                        goal@.conditions,
                        chain_end(self@, start@, ks),
                    ) ==> chain_cost(self@, ks) >= pc.1 as int)
            },
    {
        pathfinding::prelude::astar(
            start,
            |state: &WorldState| {
                self.successors(state).into_iter().map(|p: (WorldState, Cost)| (p.0, p.1.0))
            },
            |_state: &WorldState| 0i64,
            |state: &WorldState| conditions_met(goal.conditions.as_slice(), state),
        )
    }

    /// The lowest-index action whose preconditions hold in `from` and whose
    /// effect application turns `from` into a state observably equal to `to`.
    fn find_match(&self, from: &WorldState, to: &WorldState) -> (r: Option<usize>)
        ensures
            match r {
                Some(k) => first_match(self@, from@, to@) == Some(k as int) && edge_to(
                    self@,
                    k as int,
                    from@,
                    to@,
                ),
                None => first_match(self@, from@, to@) is None,
            },
    {
        let m = self.actions.len();
        let mut k: usize = 0;
        while k < m
            invariant
                k <= m == self@.len(),
                m == self.actions@.len(),
                forall|i: int| 0 <= i < m ==> self@[i] == self.actions@[i]@,
                first_match(self@, from@, to@) == first_match_from(self@, from@, to@, k as int),
            decreases m - k,
        {
            let action = &self.actions[k];
            if conditions_met(action.preconditions.as_slice(), from) {
                let next = from.with_effects(action.effects.as_slice());
                if next == *to {
                    return Some(k);
                }
            }
            k = k + 1;
        }
        None
    }

    /// Computes a minimum-total-cost action sequence from `start` to a state
    /// satisfying `goal`'s conditions.
    ///
    /// The search yields a path of states; each consecutive pair is matched
    /// back to the lowest-index action whose preconditions hold in the
    /// earlier state and whose effects produce the later one, a
    /// deterministic tie-break when several actions explain one transition.
    /// The search contract guarantees such an action exists for every pair,
    /// so the distinct `UnreachableState` report, kept for callers because
    /// it signals an implementation defect rather than unreachability, is
    /// proved here never to be returned.
    ///
    /// For every domain, `Ok` means the returned indices step, up to
    /// observable state equality, along a path from `start` to a
    /// goal-satisfying state, and a start state that already satisfies the
    /// goal yields the empty plan at cost zero. On libraries whose actions
    /// keep states integer-only, the result is exact: `Ok` carries a plan
    /// executable from `start` whose total cost is the minimum over all
    /// goal-reaching action sequences and is attained by one of them, and
    /// `NoPlanFound` comes exactly when no action sequence reaches the
    /// goal. On a state graph whose reachable part is infinite and holds no
    /// goal-satisfying state, the search inside does not return.
    pub fn plan(&self, start: &WorldState, goal: &Goal) -> (r: Result<Plan, PlannerError>)
        requires
            costs_admissible(self@),
        ensures
            (r is Ok) == (plan_outcome(self@, start@, goal@.conditions) is Ok),
            (r matches Ok(p) ==> plan_outcome(self@, start@, goal@.conditions) matches Ok(pair)
                && p.actions@.map_values(|u: usize| u as int) == pair.0 && p.total_cost.0
                == pair.1),
            (r matches Err(e) ==> plan_outcome(self@, start@, goal@.conditions) == Err::<
                (Seq<int>, int),
                PlannerError,
            >(e) && e == PlannerError::NoPlanFound),
            (r matches Ok(p) ==> forall|i: int|
                0 <= i < p.actions@.len() ==> (#[trigger] p.actions@[i] as int) < self@.len()),
            (r matches Ok(p) ==> replays_to_goal(
                self@,
                start@,
                goal@.conditions,
                p.actions@.map_values(|u: usize| u as int),
            )),
            (r is Ok ==> exists|t: Seq<Value>|
                reachable(self@, start@, t) && conds_sat(goal@.conditions, t)),
            (search_outcome(self@, start@, goal@.conditions) matches Some(pc) ==> {
                &&& pc.0.len() >= 1
                &&& pc.0[0] == start@
                &&& conds_sat(goal@.conditions, pc.0.last())
                &&& forall|i: int| 0 <= i < pc.0.len() ==> reachable(self@, start@, #[trigger] pc.0[i])
                &&& exists|ks: Seq<int>|
                    {
                        &&& ks.len() == pc.0.len() - 1
                        &&& (forall|i: int|
                            0 <= i < ks.len() ==> edge_to(self@, #[trigger] ks[i], pc.0[i], pc.0[i + 1]))
                        &&& chain_cost(self@, ks) == pc.1
                    }
            }),
            conds_sat(goal@.conditions, start@) ==> {
                &&& (r is Ok)
                &&& (r matches Ok(p) ==> p.actions@.len() == 0 && p.total_cost.0 == 0)
            },
            all_int(start@) && int_preserving(self@) ==> match r {
                Ok(p) => {
                    let ks = p.actions@.map_values(|u: usize| u as int);
                    &&& chain_ok(self@, start@, ks)
                    &&& conds_sat(goal@.conditions, chain_end(self@, start@, ks))
                    &&& forall|o: Seq<int>|
                        chain_ok(self@, start@, o) && conds_sat(
                            goal@.conditions,
                            chain_end(self@, start@, o),
                        ) ==> chain_cost(self@, o) >= p.total_cost.0
                    &&& exists|o: Seq<int>|
                        chain_ok(self@, start@, o) && conds_sat(
                            goal@.conditions,
                            chain_end(self@, start@, o),
                        ) && chain_cost(self@, o) == p.total_cost.0
                },
                Err(e) => forall|o: Seq<int>|
                    chain_ok(self@, start@, o) ==> !conds_sat(
                        goal@.conditions,
                        chain_end(self@, start@, o),
                    ),
            },
    {
        let result = self.run_search(start, goal);
        match result {
            None => Err(PlannerError::NoPlanFound),
            Some((path, total)) => {
                let ghost p = path_views(path@);
                let ghost goalc = goal@.conditions;
                let n = path.len();
                let mut action_indices: Vec<usize> = Vec::new();
                let mut w: usize = 0;
                #[verifier::loop_isolation(false)]
                while w + 1 < n
                    invariant
                        w <= n - 1,
                        action_indices@.len() == w,
                        forall|j: int|
                            0 <= j < w ==> {
                                &&& first_match(self@, p[j], p[j + 1]) == Some(
                                    action_indices@[j] as int,
                                )
                                &&& edge_to(self@, action_indices@[j] as int, p[j], p[j + 1])
                            },
                    decreases n - 1 - w,
                {
                    let from = &path[w];
                    let to = &path[w + 1];
                    proof {
                        assert(from@ == p[w as int]);
                        assert(to@ == p[w + 1 as int]);
                    }
                    match self.find_match(from, to) {
                        Some(k) => {
                            action_indices.push(k);
                        }
                        None => {
                            proof {
                                let ks = choose|ks: Seq<int>|
                                    {
                                        &&& ks.len() == p.len() - 1
                                        &&& (forall|i: int|
                                            0 <= i < ks.len() ==> edge_to(
                                                self@,
                                                #[trigger] ks[i],
                                                p[i],
                                                p[i + 1],
                                            ))
                                        &&& chain_cost(self@, ks) == total as int
                                    };
                                lemma_first_match_some(
                                    self@,
                                    p[w as int],
                                    p[w + 1 as int],
                                    ks[w as int],
                                    0,
                                );
                                assert(false);
                            }
                            return Err(PlannerError::UnreachableState);
                        }
                    }
                    w = w + 1;
                }
                proof {
                    let ms = action_indices@.map_values(|u: usize| u as int);
                    lemma_reconstruct_of_matches(self@, p, ms, 0);
                    assert(ms.skip(0) =~= ms);
                    if conds_sat(goalc, start@) {
                        assert(p == seq![start@]);
                        assert(action_indices@ =~= Seq::<usize>::empty());
                    }
                    assert(reachable(self@, start@, p.last()) && conds_sat(goalc, p.last()));
                    assert(replays_to_goal(self@, start@, goalc, ms)) by {
                        assert(p.len() == ms.len() + 1);
                        assert(p[0] == start@);
                        assert(conds_sat(goalc, p.last()));
                        assert(forall|i: int|
                            0 <= i < ms.len() ==> edge_to(self@, #[trigger] ms[i], p[i], p[i + 1]));
                    }
                    if all_int(start@) && int_preserving(self@) {
                        assert forall|i: int| 0 <= i < p.len() implies all_int(p[i]) by {
                            let ks0 = choose|ks0: Seq<int>|
                                chain_ok(self@, start@, ks0) && chain_end(self@, start@, ks0)
                                    == p[i];
                            lemma_chain_all_int(self@, start@, ks0);
                        }
                        assert forall|j: int| 0 <= j < ms.len() implies {
                            &&& 0 <= ms[j] < self@.len()
                            &&& applicable(self@[ms[j]], p[j])
                            &&& action_result(p[j], self@[ms[j]]) == p[j + 1]
                        } by {
                            assert(edge_to(self@, action_indices@[j] as int, p[j], p[j + 1]));
                            assert(all_int(action_result(p[j], self@[ms[j]])));
                            lemma_all_int_equiv_eq(action_result(p[j], self@[ms[j]]), p[j + 1]);
                        }
                        lemma_path_chain(self@, p, ms, 0);
                        let ks = choose|ks: Seq<int>|
                            {
                                &&& ks.len() == p.len() - 1
                                &&& (forall|i: int|
                                    0 <= i < ks.len() ==> edge_to(
                                        self@,
                                        #[trigger] ks[i],
                                        p[i],
                                        p[i + 1],
                                    ))
                                &&& chain_cost(self@, ks) == total as int
                            };
                        assert forall|j: int| 0 <= j < ks.len() implies {
                            &&& 0 <= ks[j] < self@.len()
                            &&& applicable(self@[ks[j]], p[j])
                            &&& action_result(p[j], self@[ks[j]]) == p[j + 1]
                        } by {
                            assert(edge_to(self@, ks[j], p[j], p[j + 1]));
                            assert(all_int(action_result(p[j], self@[ks[j]])));
                            lemma_all_int_equiv_eq(action_result(p[j], self@[ks[j]]), p[j + 1]);
                        }
                        lemma_path_chain(self@, p, ks, 0);
                        assert(ks.skip(0) =~= ks);
                        assert(chain_ok(self@, start@, ks) && conds_sat(
                            goalc,
                            chain_end(self@, start@, ks),
                        ) && chain_cost(self@, ks) == total as int);
                    }
                }
                Ok(Plan { actions: action_indices, total_cost: Cost(total) })
            }
        }
    }

    /// Looks the `index`th step of `plan` back up in the action library;
    /// `None` when either the step or the library index is out of range.
    pub fn get_plan_action<'a>(&'a self, plan: &Plan, index: usize) -> (r: Option<&'a Action>)
        ensures
            match r {
                Some(a) => {
                    &&& index < plan.actions@.len()
                    &&& (plan.actions@[index as int] as int) < self@.len()
                    &&& a@ == self@[plan.actions@[index as int] as int]
                },
                None => index >= plan.actions@.len() || (plan.actions@[index as int] as int)
                    >= self@.len(),
            },
    {
        if index < plan.actions.len() {
            let action_index = plan.actions[index];
            if action_index < self.actions.len() {
                Some(&self.actions[action_index])
            } else {
                None
            }
        } else {
            None
        }
    }
}

impl Default for Planner {
    fn default() -> (r: Self)
        ensures
            r@ == Seq::<ActionV>::empty(),
    {
        Planner::new()
    }
}

} // verus!
