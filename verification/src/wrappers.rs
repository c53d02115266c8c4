//! The typed wrappers over native handles: instances, sessions, action sets
//! and actions, with the ownership edges between them. Back-references are
//! plain handles resolved through the registry, so a destroyed parent is
//! observed as an invalid handle rather than a dangling pointer.

use vstd::prelude::*;

use crate::errors::LayerError;
use crate::god_actions::{
    binding_requests, seed_profile_god_states, spec_initial_state, spec_rest_boolean,
    spec_rest_float, spec_rest_pose, spec_rest_vector2f, spec_set_requests, spec_state_type,
    suggested_bindings, ActionState, BooleanState, FloatState, GodActionSet, GodState, PoseState,
    Vector2fState,
};
use crate::path_map::PathMap;
use crate::xrapplication_info::ActionType;

verus! {

/// One cached state per subaction path of one real action, refreshed only by
/// synchronization; queries are pure reads of it.
pub type SubactionCollection = PathMap<ActionState>;

/// An instance of the wrapped API: the root of the wrapper graph. It owns
/// its god action sets, one per catalogue profile, built at creation and
/// never mutated afterward.
#[derive(Debug, Clone)]
pub struct InstanceWrapper {
    /// The instance's native handle.
    pub handle: u64,
    /// Handles of the sessions created under this instance.
    pub sessions: Vec<u64>,
    /// Handles of the action sets created under this instance.
    pub action_sets: Vec<u64>,
    /// One god action set per catalogue profile.
    pub god_action_sets: Vec<GodActionSet>,
    /// The application's declared name.
    pub application_name: String,
    /// The application's declared version.
    pub application_version: u32,
    /// The engine's declared name.
    pub engine_name: String,
    /// The engine's declared version.
    pub engine_version: u32,
}

/// One resolved binding of an attached action: under which profile, which
/// god-state binding path it reaches, and for which subaction path.
#[derive(Debug, Clone, Copy, PartialEq, Eq, Structural)]
pub struct Resolution {
    /// The profile whose god states hold the binding.
    pub profile: u64,
    /// The resolved binding path, a key of that profile's god states.
    pub binding: u64,
    /// The subaction path the binding serves.
    pub subaction: u64,
}

/// One application action as attached: its handle, kind, and the god states
/// its suggested bindings resolve to, in suggestion order.
#[derive(Debug, Clone)]
pub struct AttachedAction {
    /// The action's native handle.
    pub action: u64,
    /// The action's declared kind.
    pub action_type: ActionType,
    /// The god states the action's bindings resolve to.
    pub resolutions: Vec<Resolution>,
}

/// One application action set as attached.
#[derive(Debug, Clone)]
pub struct AttachedSet {
    /// The action set's native handle.
    pub set: u64,
    /// The set's actions at attach time.
    pub actions: Vec<AttachedAction>,
}

/// The attachment record of a session: computed once when the application
/// attaches its action sets, cached thereafter.
#[derive(Debug, Clone)]
pub struct AttachedActionSets {
    /// The attached sets, in the order the application named them.
    pub sets: Vec<AttachedSet>,
}

/// The suggested-binding pairs the layer forwards for one profile when a
/// session is created.
#[derive(Debug, Clone)]
pub struct ProfileSuggestion {
    /// The resolved path of the profile.
    pub profile_handle: u64,
    /// Pairs of god action handle and resolved binding path.
    pub pairs: Vec<(u64, u64)>,
}

/// A session of the wrapped API. It owns the per-profile god-state cache,
/// the attachment record, and the per-action state cache; its back-reference
/// to the instance is a bare handle.
#[derive(Debug, Clone)]
pub struct SessionWrapper {
    /// The session's native handle.
    pub handle: u64,
    /// The handle of the instance the session was created under.
    pub instance: u64,
    /// Per profile, per resolved binding path, the cached god state.
    pub god_states: PathMap<PathMap<GodState>>,
    /// The attachment record; `None` until the application attaches.
    pub attached: Option<AttachedActionSets>,
    /// Per attached action, the cached state per subaction path.
    pub cached_action_states: PathMap<SubactionCollection>,
}

/// An action set created by the application.
#[derive(Debug, Clone)]
pub struct ActionSetWrapper {
    /// The action set's native handle.
    pub handle: u64,
    /// The handle of the instance the set was created under.
    pub instance: u64,
    /// Handles of the actions created within this set, in creation order.
    pub actions: Vec<u64>,
    /// The set's name.
    pub name: String,
    /// The set's localized name.
    pub localized_name: String,
    /// The set's priority, kept only for forwarding.
    pub priority: u32,
}

/// An action created by the application.
#[derive(Debug, Clone)]
pub struct ActionWrapper {
    /// The action's native handle.
    pub handle: u64,
    /// The handle of the action set the action was created within.
    pub action_set: u64,
    /// The action's name.
    pub name: String,
    /// The action's declared kind.
    pub action_type: ActionType,
    /// The resolved subaction paths the action is restricted to.
    pub subaction_paths: Vec<u64>,
    /// The action's localized name.
    pub localized_name: String,
    /// Per profile, the binding paths the application suggested, replaced on
    /// each suggestion for that profile.
    pub bindings: PathMap<Vec<u64>>,
}

impl SessionWrapper {
    /// The session's maps are well formed.
    pub open spec fn wf(&self) -> bool {
        &&& self.god_states.wf()
        &&& forall|ph: u64|
            self.god_states@.contains_key(ph) ==> (#[trigger] self.god_states@[ph]).wf()
        &&& self.cached_action_states.wf()
        &&& forall|a: u64|
            self.cached_action_states@.contains_key(a) ==> (
            #[trigger] self.cached_action_states@[a]).wf()
    }
}

/// Whether the runtime's path resolutions align with the god action sets of
/// an instance: one resolved pair per binding request of each set, distinct
/// binding paths within a profile, distinct profile handles, and every
/// request of an input kind.
pub open spec fn spec_resolutions_align(
    sets: Seq<GodActionSet>,
    resolved: Seq<Seq<(u64, u64)>>,
) -> bool {
    &&& resolved.len() == sets.len()
    &&& forall|i: int|
        0 <= i < sets.len() ==> (#[trigger] resolved[i]).len() == spec_set_requests(
            sets[i],
        ).len()
    &&& forall|i: int, k1: int, k2: int|
        0 <= i < sets.len() && 0 <= k1 < k2 < resolved[i].len() ==> (#[trigger] resolved[i][k1]).0
            != (#[trigger] resolved[i][k2]).0
    &&& forall|i: int, k: int|
        0 <= i < sets.len() && 0 <= k < spec_set_requests(sets[i]).len() ==> spec_initial_state(
            (#[trigger] spec_set_requests(sets[i])[k]).action_type,
        ) is Some
    &&& forall|i1: int, i2: int|
        0 <= i1 < i2 < sets.len() ==> (#[trigger] sets[i1]).profile_handle
            != (#[trigger] sets[i2]).profile_handle
}


/// What a freshly created session holds: no attachment, an empty per-action
/// cache, and for every profile the god states the resolutions seed, each at
/// its rest value.
pub open spec fn spec_session_built(
    s: SessionWrapper,
    handle: u64,
    instance_handle: u64,
    sets: Seq<GodActionSet>,
    resolved: Seq<Seq<(u64, u64)>>,
) -> bool {
    &&& s.handle == handle
    &&& s.instance == instance_handle
    &&& s.attached is None
    &&& s.cached_action_states@ == Map::<u64, SubactionCollection>::empty()
    &&& s.wf()
    &&& forall|i: int|
        0 <= i < sets.len() ==> s.god_states@.contains_key(
            (#[trigger] sets[i]).profile_handle,
        )
    &&& forall|ph: u64|
        s.god_states@.contains_key(ph) ==> exists|i: int|
            0 <= i < sets.len() && (#[trigger] sets[i]).profile_handle == ph
    &&& forall|i: int, k: int|
        #![trigger spec_set_requests(sets[i])[k]]
        0 <= i < sets.len() && 0 <= k < spec_set_requests(sets[i]).len() ==> {
            let states = s.god_states@[sets[i].profile_handle];
            let req = spec_set_requests(sets[i])[k];
            let pair = resolved[i][k];
            &&& states@.contains_key(pair.0)
            &&& states@[pair.0].action_handle == req.action_handle
            &&& states@[pair.0].name@ == req.binding
            &&& states@[pair.0].subaction_path == pair.1
            &&& Some(states@[pair.0].action_state) == spec_initial_state(req.action_type)
        }
    &&& forall|i: int, p: u64|
        #![trigger s.god_states@[sets[i].profile_handle]@.contains_key(p)]
        0 <= i < sets.len() && s.god_states@[sets[i].profile_handle]@.contains_key(p)
            ==> exists|k: int|
            0 <= k < resolved[i].len() && (#[trigger] resolved[i][k]).0 == p
}

/// What the suggestion list of a fresh session holds: for each profile, in
/// catalogue order, every god action paired with each of its resolved
/// binding paths, in request order.
pub open spec fn spec_suggestions_built(
    sugg: Seq<ProfileSuggestion>,
    sets: Seq<GodActionSet>,
    resolved: Seq<Seq<(u64, u64)>>,
) -> bool {
    &&& sugg.len() == sets.len()
    &&& forall|i: int|
        0 <= i < sugg.len() ==> (#[trigger] sugg[i]).profile_handle == sets[i].profile_handle
            && sugg[i].pairs@.len() == spec_set_requests(sets[i]).len() && forall|k: int|
            0 <= k < sugg[i].pairs@.len() ==> #[trigger] sugg[i].pairs@[k] == (
                spec_set_requests(sets[i])[k].action_handle,
                resolved[i][k].0,
            )
}

impl SessionWrapper {
    /// Creates the session's wrapper state right after the runtime accepted
    /// the session and the god action sets were attached: for every profile,
    /// for every god action of input kind, for every covered subaction path,
    /// seeds one god state at its rest value, and returns the
    /// suggested-binding pairs to forward for each profile. Entry `i` of
    /// `resolved` holds, for each binding request of god action set `i`, the
    /// native paths of the request's binding string and subaction path.
    /// Fails, building nothing, when the resolutions do not align.
    pub fn new(
        handle: u64,
        instance_handle: u64,
        god_action_sets: &Vec<GodActionSet>,
        resolved: &Vec<Vec<(u64, u64)>>,
    ) -> (r: Result<(SessionWrapper, Vec<ProfileSuggestion>), LayerError>)
        ensures
            r is Ok <==> spec_resolutions_align(god_action_sets@, resolved.deep_view()),
            r matches Ok((s, sugg)) ==> spec_session_built(
                s,
                handle,
                instance_handle,
                god_action_sets@,
                resolved.deep_view(),
            ) && spec_suggestions_built(sugg@, god_action_sets@, resolved.deep_view()),
    {
        if resolved.len() != god_action_sets.len() {
            return Err(LayerError::BuildFailed);
        }
        let n = god_action_sets.len();
        let mut god_states: PathMap<PathMap<GodState>> = PathMap::new();
        let mut sugg: Vec<ProfileSuggestion> = Vec::new();
        let mut i: usize = 0;
        while i < n
            invariant
                0 <= i <= n,
                n == god_action_sets@.len(),
                n == resolved@.len(),
                resolved.deep_view().len() == n,
                forall|ii: int|
                    0 <= ii < n ==> resolved.deep_view()[ii] == resolved@[ii].deep_view(),
                god_states.wf(),
                forall|ph: u64|
                    god_states@.contains_key(ph) ==> (#[trigger] god_states@[ph]).wf(),
                forall|ii: int|
                    0 <= ii < i ==> (#[trigger] resolved.deep_view()[ii]).len()
                        == spec_set_requests(god_action_sets@[ii]).len(),
                forall|ii: int, k1: int, k2: int|
                    0 <= ii < i && 0 <= k1 < k2 < resolved.deep_view()[ii].len() ==> (
                    #[trigger] resolved.deep_view()[ii][k1]).0 != (
                    #[trigger] resolved.deep_view()[ii][k2]).0,
                forall|ii: int, k: int|
                    0 <= ii < i && 0 <= k < spec_set_requests(god_action_sets@[ii]).len()
                        ==> spec_initial_state(
                        (#[trigger] spec_set_requests(god_action_sets@[ii])[k]).action_type,
                    ) is Some,
                forall|i1: int, i2: int|
                    0 <= i1 < i2 < i ==> (#[trigger] god_action_sets@[i1]).profile_handle != (
                    #[trigger] god_action_sets@[i2]).profile_handle,
                forall|ii: int|
                    0 <= ii < i ==> god_states@.contains_key(
                        (#[trigger] god_action_sets@[ii]).profile_handle,
                    ),
                forall|ph: u64|
                    god_states@.contains_key(ph) ==> exists|ii: int|
                        0 <= ii < i && (#[trigger] god_action_sets@[ii]).profile_handle == ph,
                forall|ii: int, k: int|
                    #![trigger spec_set_requests(god_action_sets@[ii])[k]]
                    0 <= ii < i && 0 <= k < spec_set_requests(god_action_sets@[ii]).len() ==> {
                        let states = god_states@[god_action_sets@[ii].profile_handle];
                        let req = spec_set_requests(god_action_sets@[ii])[k];
                        let pair = resolved.deep_view()[ii][k];
                        &&& states@.contains_key(pair.0)
                        &&& states@[pair.0].action_handle == req.action_handle
                        &&& states@[pair.0].name@ == req.binding
                        &&& states@[pair.0].subaction_path == pair.1
                        &&& Some(states@[pair.0].action_state) == spec_initial_state(
                            req.action_type,
                        )
                    },
                forall|ii: int, p: u64|
                    #![trigger god_states@[god_action_sets@[ii].profile_handle]@.contains_key(p)]
                    0 <= ii < i
                        && god_states@[god_action_sets@[ii].profile_handle]@.contains_key(p)
                        ==> exists|k: int|
                        0 <= k < resolved.deep_view()[ii].len() && (
                        #[trigger] resolved.deep_view()[ii][k]).0 == p,
                sugg@.len() == i,
                forall|ii: int|
                    0 <= ii < i ==> (#[trigger] sugg@[ii]).profile_handle
                        == god_action_sets@[ii].profile_handle && sugg@[ii].pairs@.len()
                        == spec_set_requests(god_action_sets@[ii]).len() && forall|k: int|
                        0 <= k < sugg@[ii].pairs@.len() ==> #[trigger] sugg@[ii].pairs@[k] == (
                            spec_set_requests(god_action_sets@[ii])[k].action_handle,
                            resolved.deep_view()[ii][k].0,
                        ),
            decreases n - i,
        {
            let set = &god_action_sets[i];
            let requests = binding_requests(set);
            proof {
                assert(requests@.map_values(|b: crate::god_actions::BindingRequest| b.desc()).len()
                    == spec_set_requests(god_action_sets@[i as int]).len());
            }
            let pairs_in = &resolved[i];
            proof {
                assert(resolved.deep_view()[i as int] =~= pairs_in.deep_view());
                assert forall|k: int| 0 <= k < pairs_in@.len() implies (
                #[trigger] resolved.deep_view()[i as int][k]) == pairs_in@[k] by {
                    assert(pairs_in.deep_view()[k] == pairs_in@[k].deep_view());
                }
                assert forall|k: int| 0 <= k < requests@.len() implies spec_set_requests(
                    god_action_sets@[i as int],
                )[k] == (#[trigger] requests@[k]).desc() by {
                    assert(requests@.map_values(
                        |b: crate::god_actions::BindingRequest| b.desc(),
                    )[k] == requests@[k].desc());
                }
            }
            if pairs_in.len() != requests.len() {
                proof {
                    assert(resolved.deep_view()[i as int].len() == pairs_in@.len());
                }
                return Err(LayerError::BuildFailed);
            }
            let states = match seed_profile_god_states(&requests, pairs_in) {
                Ok(m) => m,
                Err(e) => {
                    proof {
                        assert(resolved.deep_view()[i as int].len() == pairs_in@.len());
                        if spec_resolutions_align(god_action_sets@, resolved.deep_view()) {
                            if exists|k: int|
                                0 <= k < requests@.len() && spec_initial_state(
                                    (#[trigger] requests@[k]).action_type,
                                ) is None {
                                let k = choose|k: int|
                                    0 <= k < requests@.len() && spec_initial_state(
                                        (#[trigger] requests@[k]).action_type,
                                    ) is None;
                                assert(spec_set_requests(god_action_sets@[i as int])[k]
                                    == requests@[k].desc());
                                assert(spec_initial_state(
                                    spec_set_requests(god_action_sets@[i as int])[k].action_type,
                                ) is Some);
                                assert(false);
                            } else {
                                let (k1, k2) = choose|k1: int, k2: int|
                                    0 <= k1 < k2 < pairs_in@.len() && (#[trigger] pairs_in@[k1]).0
                                        == (#[trigger] pairs_in@[k2]).0;
                                assert(resolved.deep_view()[i as int][k1].0
                                    == resolved.deep_view()[i as int][k2].0);
                                assert(false);
                            }
                        }
                    }
                    return Err(e);
                },
            };
            if god_states.contains_key(set.profile_handle) {
                proof {
                    let ii = choose|ii: int|
                        0 <= ii < i && (#[trigger] god_action_sets@[ii]).profile_handle
                            == set.profile_handle;
                    assert(god_action_sets@[ii].profile_handle
                        == god_action_sets@[i as int].profile_handle);
                }
                return Err(LayerError::BuildFailed);
            }
            let pairs = suggested_bindings(&requests, pairs_in);
            let ghost pre_states = god_states@;
            god_states.insert(set.profile_handle, states);
            proof {
                assert forall|ii: int, p: u64|
                    #![trigger god_states@[god_action_sets@[ii].profile_handle]@.contains_key(p)]
                    0 <= ii < i + 1 && god_states@[god_action_sets@[ii].profile_handle]@.contains_key(
                        p,
                    ) implies exists|k: int|
                    0 <= k < resolved.deep_view()[ii].len() && (
                    #[trigger] resolved.deep_view()[ii][k]).0 == p by {
                    let ph = god_action_sets@[ii].profile_handle;
                    if ii == i {
                        assert(god_states@[ph] == states);
                        let k = choose|k: int|
                            0 <= k < pairs_in@.len() && (#[trigger] pairs_in@[k]).0 == p;
                        assert(resolved.deep_view()[ii][k].0 == p);
                    } else {
                        assert(pre_states.contains_key(ph));
                        assert(ph != god_action_sets@[i as int].profile_handle);
                        assert(god_states@[ph] == pre_states[ph]);
                    }
                }
            }
            sugg.push(ProfileSuggestion { profile_handle: set.profile_handle, pairs });
            i = i + 1;
        }
        let s = SessionWrapper {
            handle,
            instance: instance_handle,
            god_states,
            attached: None,
            cached_action_states: PathMap::new(),
        };
        Ok((s, sugg))
    }
}

/// One freshly observed god-action value: the state read from the runtime
/// for the god state keyed by `binding` under `profile`.
#[derive(Clone, Copy, Debug, PartialEq, Eq, Structural)]
pub struct SyncReading {
    /// The profile whose god state is refreshed.
    pub profile: u64,
    /// The resolved binding path of the god state.
    pub binding: u64,
    /// The freshly observed value.
    pub state: ActionState,
}

/// Whether a batch of readings fits a session: every reading refreshes an
/// existing god state, keeps its kind, and no god state is refreshed twice.
pub open spec fn spec_readings_valid(s: SessionWrapper, readings: Seq<SyncReading>) -> bool {
    &&& forall|k: int|
        0 <= k < readings.len() ==> {
            let r = #[trigger] readings[k];
            &&& s.god_states@.contains_key(r.profile)
            &&& s.god_states@[r.profile]@.contains_key(r.binding)
            &&& spec_state_type(r.state) == spec_state_type(
                s.god_states@[r.profile]@[r.binding].action_state,
            )
        }
    &&& forall|k1: int, k2: int|
        0 <= k1 < k2 < readings.len() ==> !((#[trigger] readings[k1]).profile
            == (#[trigger] readings[k2]).profile && readings[k1].binding
            == readings[k2].binding)
}

/// The state cache one action's resolutions denote, given the current god
/// states: per subaction path, the value of the first resolution that serves
/// it.
pub open spec fn spec_collection(
    gs: Map<u64, PathMap<GodState>>,
    rs: Seq<Resolution>,
) -> Map<u64, ActionState>
    decreases rs.len(),
{
    if rs.len() == 0 {
        Map::empty()
    } else {
        spec_collection(gs, rs.drop_first()).insert(
            rs.first().subaction,
            gs[rs.first().profile]@[rs.first().binding].action_state,
        )
    }
}

/// A subaction path is cached exactly when some resolution serves it.
pub proof fn lemma_collection_contains(
    gs: Map<u64, PathMap<GodState>>,
    rs: Seq<Resolution>,
    sa: u64,
)
    ensures
        spec_collection(gs, rs).contains_key(sa) <==> exists|q: int|
            0 <= q < rs.len() && (#[trigger] rs[q]).subaction == sa,
    decreases rs.len(),
{
    if rs.len() > 0 {
        lemma_collection_contains(gs, rs.drop_first(), sa);
        if rs.first().subaction != sa && spec_collection(gs, rs).contains_key(sa) {
            let q = choose|q: int|
                0 <= q < rs.drop_first().len() && (#[trigger] rs.drop_first()[q]).subaction == sa;
            assert(rs[q + 1].subaction == sa);
        }
        if exists|q: int| 0 <= q < rs.len() && (#[trigger] rs[q]).subaction == sa {
            let q = choose|q: int| 0 <= q < rs.len() && (#[trigger] rs[q]).subaction == sa;
            if q > 0 {
                assert(rs.drop_first()[q - 1].subaction == sa);
            }
        }
    }
}

/// Appending a resolution changes the cache only where no earlier resolution
/// already serves the subaction path.
pub proof fn lemma_collection_push(gs: Map<u64, PathMap<GodState>>, rs: Seq<Resolution>, r: Resolution)
    ensures
        spec_collection(gs, rs.push(r)) == if spec_collection(gs, rs).contains_key(r.subaction) {
            spec_collection(gs, rs)
        } else {
            spec_collection(gs, rs).insert(
                r.subaction,
                gs[r.profile]@[r.binding].action_state,
            )
        },
    decreases rs.len(),
{
    lemma_collection_contains(gs, rs, r.subaction);
    if rs.len() == 0 {
        assert(rs.push(r).drop_first() =~= rs);
        assert(spec_collection(gs, rs) =~= Map::<u64, ActionState>::empty());
    } else {
        assert(rs.push(r).drop_first() =~= rs.drop_first().push(r));
        lemma_collection_push(gs, rs.drop_first(), r);
        lemma_collection_contains(gs, rs.drop_first(), r.subaction);
        if spec_collection(gs, rs).contains_key(r.subaction) {
            if rs.first().subaction == r.subaction {
                if spec_collection(gs, rs.drop_first()).contains_key(r.subaction) {
                    assert(spec_collection(gs, rs.push(r)) =~= spec_collection(gs, rs));
                } else {
                    assert(spec_collection(gs, rs.push(r)) =~= spec_collection(gs, rs));
                }
            } else {
                assert(spec_collection(gs, rs.drop_first()).contains_key(r.subaction));
                assert(spec_collection(gs, rs.push(r)) =~= spec_collection(gs, rs));
            }
        } else {
            assert(!spec_collection(gs, rs.drop_first()).contains_key(r.subaction));
            assert(rs.first().subaction != r.subaction);
            assert(spec_collection(gs, rs.push(r)) =~= spec_collection(gs, rs).insert(
                r.subaction,
                gs[r.profile]@[r.binding].action_state,
            ));
        }
    }
}

/// Whether an attachment record fits a session's god states: every
/// resolution reaches an existing god state, and no action appears twice.
pub open spec fn spec_record_wf(rec: AttachedActionSets, gs: Map<u64, PathMap<GodState>>) -> bool {
    &&& forall|i: int, j: int|
        #![trigger rec.sets@[i].actions@[j]]
        0 <= i < rec.sets@.len() && 0 <= j < rec.sets@[i].actions@.len() ==> forall|q: int|
            0 <= q < rec.sets@[i].actions@[j].resolutions@.len() ==> {
                let res = #[trigger] rec.sets@[i].actions@[j].resolutions@[q];
                &&& gs.contains_key(res.profile)
                &&& gs[res.profile]@.contains_key(res.binding)
            }
    &&& forall|i1: int, j1: int, i2: int, j2: int|
        #![trigger rec.sets@[i1].actions@[j1], rec.sets@[i2].actions@[j2]]
        0 <= i1 < rec.sets@.len() && 0 <= j1 < rec.sets@[i1].actions@.len() && 0 <= i2
            < rec.sets@.len() && 0 <= j2 < rec.sets@[i2].actions@.len() && (i1 != i2 || j1 != j2)
            ==> rec.sets@[i1].actions@[j1].action != rec.sets@[i2].actions@[j2].action
}

/// How a synchronized session relates to its pre-sync state: every named god
/// state took its fresh value and kept its identity, every unnamed god state
/// is untouched, and the per-action cache was recomputed from the refreshed
/// god states, so the two caches agree within the pass.
pub open spec fn spec_synced(
    pre: SessionWrapper,
    post: SessionWrapper,
    readings: Seq<SyncReading>,
) -> bool {
    &&& post.handle == pre.handle
    &&& post.instance == pre.instance
    &&& post.attached == pre.attached
    &&& post.god_states@.dom() == pre.god_states@.dom()
    &&& forall|k: int|
        0 <= k < readings.len() ==> {
            let rd = #[trigger] readings[k];
            let g_old = pre.god_states@[rd.profile]@[rd.binding];
            let g_new = post.god_states@[rd.profile]@[rd.binding];
            &&& post.god_states@[rd.profile]@.contains_key(rd.binding)
            &&& g_new.action_state == rd.state
            &&& g_new.action_handle == g_old.action_handle
            &&& g_new.name == g_old.name
            &&& g_new.subaction_path == g_old.subaction_path
        }
    &&& forall|pr: u64|
        pre.god_states@.contains_key(pr) ==> (#[trigger] post.god_states@[pr])@.dom()
            == pre.god_states@[pr]@.dom()
    &&& forall|pr: u64, b: u64|
        #![trigger post.god_states@[pr]@[b]]
        pre.god_states@.contains_key(pr) && pre.god_states@[pr]@.contains_key(b) && (forall|
            k: int,
        |
            0 <= k < readings.len() ==> !((#[trigger] readings[k]).profile == pr
                && readings[k].binding == b)) ==> post.god_states@[pr]@[b]
            == pre.god_states@[pr]@[b]
    &&& match pre.attached {
        None => post.cached_action_states == pre.cached_action_states,
        Some(rec) => {
            &&& forall|a: u64|
                post.cached_action_states@.contains_key(a) <==> exists|i: int, j: int|
                    0 <= i < rec.sets@.len() && 0 <= j < rec.sets@[i].actions@.len()
                        && (#[trigger] rec.sets@[i].actions@[j]).action == a
            &&& forall|i: int, j: int|
                #![trigger rec.sets@[i].actions@[j]]
                0 <= i < rec.sets@.len() && 0 <= j < rec.sets@[i].actions@.len() ==> {
                    let aa = rec.sets@[i].actions@[j];
                    let col = post.cached_action_states@[aa.action];
                    col@ == spec_collection(post.god_states@, aa.resolutions@)
                }
        },
    }
}

impl SessionWrapper {
    /// The session's maps are well formed and its attachment record, if any,
    /// fits its god states.
    pub open spec fn inv(&self) -> bool {
        &&& self.wf()
        &&& match self.attached {
            None => true,
            Some(rec) => spec_record_wf(rec, self.god_states@),
        }
    }

    /// Checks that a batch of readings fits this session.
    fn readings_valid(&self, readings: &Vec<SyncReading>) -> (r: bool)
        requires
            self.wf(),
        ensures
            r == spec_readings_valid(*self, readings@),
    {
        let n = readings.len();
        let mut k: usize = 0;
        while k < n
            invariant
                0 <= k <= n,
                n == readings@.len(),
                self.wf(),
                forall|kk: int|
                    0 <= kk < k ==> {
                        let r = #[trigger] readings@[kk];
                        &&& self.god_states@.contains_key(r.profile)
                        &&& self.god_states@[r.profile]@.contains_key(r.binding)
                        &&& spec_state_type(r.state) == spec_state_type(
                            self.god_states@[r.profile]@[r.binding].action_state,
                        )
                    },
                forall|k1: int, k2: int|
                    0 <= k1 < k2 < k ==> !((#[trigger] readings@[k1]).profile
                        == (#[trigger] readings@[k2]).profile && readings@[k1].binding
                        == readings@[k2].binding),
            decreases n - k,
        {
            let r = &readings[k];
            let inner = match self.god_states.get(r.profile) {
                Some(m) => m,
                None => {
                    return false;
                },
            };
            let st = match inner.get(r.binding) {
                Some(g) => g,
                None => {
                    return false;
                },
            };
            let want = st.action_state.kind();
            let got = r.state.kind();
            if !(match (want, got) {
                (ActionType::BooleanInput, ActionType::BooleanInput) => true,
                (ActionType::FloatInput, ActionType::FloatInput) => true,
                (ActionType::Vector2fInput, ActionType::Vector2fInput) => true,
                (ActionType::PoseInput, ActionType::PoseInput) => true,
                _ => false,
            }) {
                return false;
            }
            let mut kk: usize = 0;
            while kk < k
                invariant
                    0 <= kk <= k < n,
                    n == readings@.len(),
                    forall|q: int|
                        0 <= q < kk ==> !((#[trigger] readings@[q]).profile
                            == readings@[k as int].profile && readings@[q].binding
                            == readings@[k as int].binding),
                decreases k - kk,
            {
                if readings[kk].profile == readings[k].profile && readings[kk].binding
                    == readings[k].binding {
                    return false;
                }
                kk = kk + 1;
            }
            k = k + 1;
        }
        true
    }

    /// Refreshes the caches from a batch of freshly observed values: every
    /// named god state takes its new value, and every attached action's
    /// cached states are recomputed from the refreshed god states, so that
    /// the two caches agree within the same pass. Nothing changes when the
    /// batch does not fit the session.
    pub fn sync_actions(&mut self, readings: &Vec<SyncReading>) -> (r: Result<(), LayerError>)
        requires
            old(self).inv(),
        ensures
            final(self).inv(),
            r is Ok <==> spec_readings_valid(*old(self), readings@),
            r is Err ==> *final(self) == *old(self),
            r is Ok ==> spec_synced(*old(self), *final(self), readings@),
    {
        if !self.readings_valid(readings) {
            return Err(LayerError::TypeMismatch);
        }
        let n = readings.len();
        let mut k: usize = 0;
        while k < n
            invariant
                0 <= k <= n,
                n == readings@.len(),
                self.wf(),
                self.handle == old(self).handle,
                self.instance == old(self).instance,
                self.attached == old(self).attached,
                spec_readings_valid(*old(self), readings@),
                self.god_states@.dom() == old(self).god_states@.dom(),
                forall|pr: u64|
                    old(self).god_states@.contains_key(pr) ==> (
                    #[trigger] self.god_states@[pr])@.dom() == old(self).god_states@[pr]@.dom(),
                forall|kk: int|
                    0 <= kk < k ==> {
                        let rd = #[trigger] readings@[kk];
                        let g_old = old(self).god_states@[rd.profile]@[rd.binding];
                        let g_new = self.god_states@[rd.profile]@[rd.binding];
                        &&& g_new.action_state == rd.state
                        &&& g_new.action_handle == g_old.action_handle
                        &&& g_new.name == g_old.name
                        &&& g_new.subaction_path == g_old.subaction_path
                    },
                forall|kk: int|
                    k <= kk < n ==> {
                        let rd = #[trigger] readings@[kk];
                        self.god_states@[rd.profile]@[rd.binding] == old(
                            self,
                        ).god_states@[rd.profile]@[rd.binding]
                    },
                forall|pr: u64, b: u64|
                    #![trigger self.god_states@[pr]@[b]]
                    old(self).god_states@.contains_key(pr) && old(
                        self,
                    ).god_states@[pr]@.contains_key(b) && (forall|kk: int|
                        0 <= kk < n ==> !((#[trigger] readings@[kk]).profile == pr
                            && readings@[kk].binding == b)) ==> self.god_states@[pr]@[b] == old(
                        self,
                    ).god_states@[pr]@[b],
                self.cached_action_states == old(self).cached_action_states,
            decreases n - k,
        {
            let rd = &readings[k];
            let mut inner = match self.god_states.remove(rd.profile) {
                Some(m) => m,
                None => {
                    proof {
                        assert(false);
                    }
                    return Err(LayerError::HandleInvalid);
                },
            };
            let mut st = match inner.remove(rd.binding) {
                Some(g) => g,
                None => {
                    proof {
                        assert(false);
                    }
                    return Err(LayerError::HandleInvalid);
                },
            };
            st.action_state = rd.state;
            inner.insert(rd.binding, st);
            self.god_states.insert(rd.profile, inner);
            proof {
                assert(self.god_states@.dom() =~= old(self).god_states@.dom());
                assert forall|pr: u64| old(self).god_states@.contains_key(pr) implies (
                #[trigger] self.god_states@[pr])@.dom() == old(self).god_states@[pr]@.dom() by {
                    if pr == rd.profile {
                        assert(self.god_states@[pr]@.dom() =~= old(
                            self,
                        ).god_states@[pr]@.dom());
                    }
                }
            }
            k = k + 1;
        }
        let rec_opt = &self.attached;
        let rec = match rec_opt {
            None => {
                return Ok(());
            },
            Some(rec) => rec,
        };
        let mut cache: PathMap<SubactionCollection> = PathMap::new();
        let ns = rec.sets.len();
        let mut i: usize = 0;
        while i < ns
            invariant
                0 <= i <= ns,
                self.wf(),
                self.attached == old(self).attached,
                old(self).attached matches Some(r) && r == *rec,
                spec_record_wf(*rec, self.god_states@),
                ns == rec.sets@.len(),
                cache.wf(),
                forall|a: u64|
                    cache@.contains_key(a) ==> (#[trigger] cache@[a]).wf(),
                forall|a: u64|
                    cache@.contains_key(a) <==> exists|ii: int, j: int|
                        0 <= ii < i && 0 <= j < rec.sets@[ii].actions@.len()
                            && (#[trigger] rec.sets@[ii].actions@[j]).action == a,
                forall|ii: int, j: int|
                    #![trigger rec.sets@[ii].actions@[j]]
                    0 <= ii < i && 0 <= j < rec.sets@[ii].actions@.len() ==> {
                        let aa = rec.sets@[ii].actions@[j];
                        cache@.contains_key(aa.action) && cache@[aa.action]@ == spec_collection(
                            self.god_states@,
                            aa.resolutions@,
                        )
                    },
            decreases ns - i,
        {
            let acts = &rec.sets[i].actions;
            let na = acts.len();
            let mut j: usize = 0;
            while j < na
                invariant
                    0 <= j <= na,
                    0 <= i < ns,
                    self.wf(),
                    self.attached == old(self).attached,
                    old(self).attached matches Some(r) && r == *rec,
                    spec_record_wf(*rec, self.god_states@),
                    ns == rec.sets@.len(),
                    na == rec.sets@[i as int].actions@.len(),
                    acts == rec.sets@[i as int].actions,
                    cache.wf(),
                    forall|a: u64|
                        cache@.contains_key(a) ==> (#[trigger] cache@[a]).wf(),
                    forall|a: u64|
                        cache@.contains_key(a) <==> (exists|ii: int, jj: int|
                            0 <= ii < i && 0 <= jj < rec.sets@[ii].actions@.len()
                                && (#[trigger] rec.sets@[ii].actions@[jj]).action == a) || (
                        exists|jj: int|
                            0 <= jj < j && (#[trigger] rec.sets@[i as int].actions@[jj]).action
                                == a),
                    forall|ii: int, jj: int|
                        #![trigger rec.sets@[ii].actions@[jj]]
                        0 <= ii < i && 0 <= jj < rec.sets@[ii].actions@.len() ==> {
                            let aa = rec.sets@[ii].actions@[jj];
                            cache@.contains_key(aa.action) && cache@[aa.action]@
                                == spec_collection(self.god_states@, aa.resolutions@)
                        },
                    forall|jj: int|
                        0 <= jj < j ==> {
                            let aa = (#[trigger] rec.sets@[i as int].actions@[jj]);
                            cache@.contains_key(aa.action) && cache@[aa.action]@
                                == spec_collection(self.god_states@, aa.resolutions@)
                        },
                decreases na - j,
            {
                let aa = &acts[j];
                let nq = aa.resolutions.len();
                let mut col: SubactionCollection = PathMap::new();
                let mut q: usize = 0;
                proof {
                    assert(aa.resolutions@.take(0) =~= Seq::<Resolution>::empty());
                }
                while q < nq
                    invariant
                        0 <= q <= nq,
                        0 <= i < ns,
                        0 <= j < na,
                        self.wf(),
                        spec_record_wf(*rec, self.god_states@),
                        ns == rec.sets@.len(),
                        na == rec.sets@[i as int].actions@.len(),
                        aa == rec.sets@[i as int].actions@[j as int],
                        nq == aa.resolutions@.len(),
                        col.wf(),
                        col@ == spec_collection(
                            self.god_states@,
                            aa.resolutions@.take(q as int),
                        ),
                    decreases nq - q,
                {
                    let res = &aa.resolutions[q];
                    proof {
                        lemma_collection_push(
                            self.god_states@,
                            aa.resolutions@.take(q as int),
                            aa.resolutions@[q as int],
                        );
                        assert(aa.resolutions@.take(q + 1) =~= aa.resolutions@.take(
                            q as int,
                        ).push(aa.resolutions@[q as int]));
                    }
                    if !col.contains_key(res.subaction) {
                        let inner = match self.god_states.get(res.profile) {
                            Some(m) => m,
                            None => {
                                proof {
                                    assert(false);
                                }
                                return Err(LayerError::HandleInvalid);
                            },
                        };
                        let g = match inner.get(res.binding) {
                            Some(g) => g,
                            None => {
                                proof {
                                    assert(false);
                                }
                                return Err(LayerError::HandleInvalid);
                            },
                        };
                        col.insert(res.subaction, g.action_state);
                    }
                    q = q + 1;
                }
                proof {
                    assert(aa.resolutions@.take(nq as int) =~= aa.resolutions@);
                }
                cache.insert(aa.action, col);
                j = j + 1;
            }
            i = i + 1;
        }
        self.cached_action_states = cache;
        Ok(())
    }
}


impl SessionWrapper {
    /// What a boolean query returns: the cached value when the pair is
    /// populated with a boolean, else the rest state with both flags false.
    pub open spec fn spec_query_boolean(&self, action: u64, subaction_path: u64) -> BooleanState {
        match self.spec_cached_state(action, subaction_path) {
            Some(ActionState::Boolean(b)) => b,
            _ => spec_rest_boolean(),
        }
    }

    /// What a float query returns.
    pub open spec fn spec_query_float(&self, action: u64, subaction_path: u64) -> FloatState {
        match self.spec_cached_state(action, subaction_path) {
            Some(ActionState::Float(f)) => f,
            _ => spec_rest_float(),
        }
    }

    /// What a 2D query returns.
    pub open spec fn spec_query_vector2f(&self, action: u64, subaction_path: u64) -> Vector2fState {
        match self.spec_cached_state(action, subaction_path) {
            Some(ActionState::Vector2f(v)) => v,
            _ => spec_rest_vector2f(),
        }
    }

    /// What a pose query returns.
    pub open spec fn spec_query_pose(&self, action: u64, subaction_path: u64) -> PoseState {
        match self.spec_cached_state(action, subaction_path) {
            Some(ActionState::Pose(p)) => p,
            _ => spec_rest_pose(),
        }
    }
}

impl SessionWrapper {
    /// The cache entry a query resolves to, if it was ever populated.
    pub open spec fn spec_cached_state(&self, action: u64, subaction_path: u64) -> Option<
        ActionState,
    > {
        if self.cached_action_states@.contains_key(action)
            && self.cached_action_states@[action]@.contains_key(subaction_path) {
            Some(self.cached_action_states@[action]@[subaction_path])
        } else {
            None
        }
    }

    /// Looks the cached entry of a query up, without calling the runtime.
    fn lookup_cached(&self, action: u64, subaction_path: u64) -> (r: Option<&ActionState>)
        requires
            self.wf(),
        ensures
            match r {
                Some(st) => self.spec_cached_state(action, subaction_path) == Some(*st),
                None => self.spec_cached_state(action, subaction_path) is None,
            },
    {
        match self.cached_action_states.get(action) {
            Some(col) => col.get(subaction_path),
            None => None,
        }
    }

    /// Serves a boolean state query from the cache: the value written by the
    /// most recent synchronization, or the rest state with both flags false
    /// when the pair was never populated or is not boolean. Never an error,
    /// and never a call to the runtime.
    pub fn get_action_state_boolean(&self, action: u64, subaction_path: u64) -> (r: BooleanState)
        requires
            self.wf(),
        ensures
            r == self.spec_query_boolean(action, subaction_path),
    {
        match self.lookup_cached(action, subaction_path) {
            Some(ActionState::Boolean(b)) => *b,
            _ => BooleanState {
                current_state: false,
                changed_since_last_sync: false,
                is_active: false,
            },
        }
    }

    /// Serves a float state query from the cache; rest state when the pair
    /// was never populated or is not a float.
    pub fn get_action_state_float(&self, action: u64, subaction_path: u64) -> (r: FloatState)
        requires
            self.wf(),
        ensures
            r == self.spec_query_float(action, subaction_path),
    {
        match self.lookup_cached(action, subaction_path) {
            Some(ActionState::Float(f)) => *f,
            _ => FloatState {
                current_state_bits: 0,
                changed_since_last_sync: false,
                is_active: false,
            },
        }
    }

    /// Serves a 2D state query from the cache; rest state when the pair was
    /// never populated or is not 2D.
    pub fn get_action_state_vector2f(&self, action: u64, subaction_path: u64) -> (r:
        Vector2fState)
        requires
            self.wf(),
        ensures
            r == self.spec_query_vector2f(action, subaction_path),
    {
        match self.lookup_cached(action, subaction_path) {
            Some(ActionState::Vector2f(v)) => *v,
            _ => Vector2fState {
                x_bits: 0,
                y_bits: 0,
                changed_since_last_sync: false,
                is_active: false,
            },
        }
    }

    /// Serves a pose state query from the cache; rest state when the pair
    /// was never populated or is not a pose.
    pub fn get_action_state_pose(&self, action: u64, subaction_path: u64) -> (r: PoseState)
        requires
            self.wf(),
        ensures
            r == self.spec_query_pose(action, subaction_path),
    {
        match self.lookup_cached(action, subaction_path) {
            Some(ActionState::Pose(p)) => *p,
            _ => PoseState { is_active: false },
        }
    }

    /// Reads one god state's cached value directly, by profile and resolved
    /// binding path.
    pub fn get_god_state(&self, profile: u64, binding: u64) -> (r: Option<&GodState>)
        requires
            self.wf(),
        ensures
            match r {
                Some(g) => self.god_states@.contains_key(profile)
                    && self.god_states@[profile]@.contains_key(binding) && *g
                    == self.god_states@[profile]@[binding],
                None => !self.god_states@.contains_key(profile)
                    || !self.god_states@[profile]@.contains_key(binding),
            },
    {
        match self.god_states.get(profile) {
            Some(states) => states.get(binding),
            None => None,
        }
    }
}

} // verus!
