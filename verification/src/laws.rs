//! The layer's cross-cutting guarantees, stated over the same spec functions
//! its operations are specified with, and proved once and for all.

use vstd::prelude::*;

use crate::god_actions::{
    spec_action_desc, spec_action_requests, spec_allowed_subactions, spec_feature_descs,
    spec_initial_state, spec_rest_boolean, spec_rest_float, spec_rest_pose, spec_rest_vector2f,
    spec_set_requests, spec_side_view, spec_subpath_requests, BindingReqDesc, BooleanState,
    FloatState, GodAction, GodActionSet, PoseState, SubpathGodActions, Vector2fState,
};
use crate::interaction_profiles::{spec_feature_str, spec_feature_type, Feature, InteractionProfile};
use crate::god_actions::spec_set_matches_profile;
use crate::wrappers::{
    spec_collection, spec_readings_valid, spec_resolutions_align, spec_session_built, spec_synced,
    Resolution, SessionWrapper, SyncReading,
};
use crate::xrapplication_info::{spec_is_actionable, spec_is_input};

verus! {

/// An element of a member sequence occurs somewhere in the flattening.
pub proof fn lemma_flatten_index<A>(ss: Seq<Seq<A>>, x: int, y: int)
    requires
        0 <= x < ss.len(),
        0 <= y < ss[x].len(),
    ensures
        exists|k: int|
            0 <= k < ss.flatten().len() && #[trigger] ss.flatten()[k] == ss[x][y],
    decreases ss.len(),
{
    assert(ss.flatten() == ss.first() + ss.drop_first().flatten());
    if x == 0 {
        assert(ss.flatten()[y] == ss[0][y]);
    } else {
        lemma_flatten_index(ss.drop_first(), x - 1, y);
        let k0 = choose|k: int|
            0 <= k < ss.drop_first().flatten().len() && #[trigger] ss.drop_first().flatten()[k]
                == ss.drop_first()[x - 1][y];
        assert(ss.drop_first()[x - 1] == ss[x]);
        assert(ss.flatten()[ss.first().len() + k0] == ss.drop_first().flatten()[k0]);
    }
}

/// Each actionable feature of a subpath has its god-action description in
/// the subpath's list.
pub proof fn lemma_feature_desc_index(
    subactions: Seq<Seq<char>>,
    sp_path: Seq<char>,
    side: Option<Seq<char>>,
    features: Seq<Feature>,
    f_i: int,
)
    requires
        0 <= f_i < features.len(),
        spec_is_actionable(spec_feature_type(features[f_i])),
    ensures
        exists|d: int|
            0 <= d < spec_feature_descs(subactions, sp_path, side, features).len()
                && #[trigger] spec_feature_descs(subactions, sp_path, side, features)[d]
                == spec_action_desc(subactions, sp_path, side, features[f_i]),
    decreases features.len(),
{
    let whole = spec_feature_descs(subactions, sp_path, side, features);
    if f_i == features.len() - 1 {
        assert(whole[whole.len() - 1] == spec_action_desc(
            subactions,
            sp_path,
            side,
            features[f_i],
        ));
    } else {
        lemma_feature_desc_index(subactions, sp_path, side, features.drop_last(), f_i);
        let rest = spec_feature_descs(subactions, sp_path, side, features.drop_last());
        let d0 = choose|d: int|
            0 <= d < rest.len() && #[trigger] rest[d] == spec_action_desc(
                subactions,
                sp_path,
                side,
                features.drop_last()[f_i],
            );
        assert(features.drop_last()[f_i] == features[f_i]);
        assert(whole[d0] == rest[d0]);
    }
}

/// After a successful session creation, for every profile of the catalogue,
/// for every subpath feature whose kind is an actionable input, for every
/// subaction path the subpath's side restriction allows, a god state exists:
/// it is keyed by the resolution of the binding string (the subaction path
/// followed by the subpath and the feature tag), and it holds the rest-state
/// value of the feature's kind.
pub proof fn lemma_attach_covers_profile(
    p: InteractionProfile,
    sets: Seq<GodActionSet>,
    resolved: Seq<Seq<(u64, u64)>>,
    s: SessionWrapper,
    handle: u64,
    instance_handle: u64,
    i: int,
    sp_i: int,
    f_i: int,
    sa_i: int,
)
    requires
        spec_session_built(s, handle, instance_handle, sets, resolved),
        spec_resolutions_align(sets, resolved),
        0 <= i < sets.len(),
        spec_set_matches_profile(sets[i], p),
        0 <= sp_i < p.subpaths@.len(),
        0 <= f_i < p.subpaths@[sp_i].features@.len(),
        spec_is_actionable(spec_feature_type(p.subpaths@[sp_i].features@[f_i])),
        spec_is_input(spec_feature_type(p.subpaths@[sp_i].features@[f_i])),
        0 <= sa_i < spec_allowed_subactions(
            p.subaction_paths.deep_view(),
            spec_side_view(p.subpaths@[sp_i].side),
        ).len(),
    ensures
        exists|k: int|
            {
                let req = #[trigger] spec_set_requests(sets[i])[k];
                let f = p.subpaths@[sp_i].features@[f_i];
                let sa = spec_allowed_subactions(
                    p.subaction_paths.deep_view(),
                    spec_side_view(p.subpaths@[sp_i].side),
                )[sa_i];
                let states = s.god_states@[sets[i].profile_handle];
                &&& 0 <= k < spec_set_requests(sets[i]).len()
                &&& req.subaction == sa
                &&& req.binding == sa + (p.subpaths@[sp_i].path@ + "/"@ + spec_feature_str(f))
                &&& req.action_type == spec_feature_type(f)
                &&& states@.contains_key(resolved[i][k].0)
                &&& states@[resolved[i][k].0].name@ == req.binding
                &&& states@[resolved[i][k].0].subaction_path == resolved[i][k].1
                &&& Some(states@[resolved[i][k].0].action_state) == spec_initial_state(
                    spec_feature_type(f),
                )
            },
{
    let set = sets[i];
    let sp = p.subpaths@[sp_i];
    let f = sp.features@[f_i];
    let subs = p.subaction_paths.deep_view();
    let side = spec_side_view(sp.side);
    let sa = spec_allowed_subactions(subs, side)[sa_i];
    lemma_feature_desc_index(subs, sp.path@, side, sp.features@, f_i);
    let d = choose|d: int|
        0 <= d < spec_feature_descs(subs, sp.path@, side, sp.features@).len()
            && #[trigger] spec_feature_descs(subs, sp.path@, side, sp.features@)[d]
            == spec_action_desc(subs, sp.path@, side, f);
    let gs = set.subpaths@[sp_i].god_actions@;
    assert(gs.map_values(|g: GodAction| g.desc()) == spec_feature_descs(
        subs,
        sp.path@,
        side,
        sp.features@,
    ));
    assert(gs.map_values(|g: GodAction| g.desc())[d] == gs[d].desc());
    let g = gs[d];
    assert(g.desc() == spec_action_desc(subs, sp.path@, side, f));
    let reqs_g = spec_action_requests(g.desc(), g.handle);
    assert(spec_is_input(g.desc().action_type));
    assert(reqs_g[sa_i] == (BindingReqDesc {
        action_handle: g.handle,
        action_type: g.desc().action_type,
        subaction: sa,
        binding: sa + g.desc().name,
    }));
    let inner_map = gs.map_values(|g: GodAction| spec_action_requests(g.desc(), g.handle));
    assert(inner_map[d] == reqs_g);
    lemma_flatten_index(inner_map, d, sa_i);
    let k1 = choose|k: int|
        0 <= k < inner_map.flatten().len() && #[trigger] inner_map.flatten()[k]
            == inner_map[d][sa_i];
    assert(spec_subpath_requests(gs) == inner_map.flatten());
    let outer_map = set.subpaths@.map_values(
        |x: SubpathGodActions| spec_subpath_requests(x.god_actions@),
    );
    assert(outer_map[sp_i] == spec_subpath_requests(gs));
    lemma_flatten_index(outer_map, sp_i, k1);
    let k = choose|k: int|
        0 <= k < outer_map.flatten().len() && #[trigger] outer_map.flatten()[k]
            == outer_map[sp_i][k1];
    assert(spec_set_requests(set) == outer_map.flatten());
    assert(spec_set_requests(set)[k] == reqs_g[sa_i]);
    assert(spec_set_requests(sets[i])[k].subaction == sa);
}

/// Two results of the same state query on the same session state are
/// bit-identical: a query is a pure cache read.
pub proof fn lemma_query_boolean_deterministic(
    s: SessionWrapper,
    action: u64,
    subaction_path: u64,
    r1: BooleanState,
    r2: BooleanState,
)
    requires
        r1 == s.spec_query_boolean(action, subaction_path),
        r2 == s.spec_query_boolean(action, subaction_path),
    ensures
        r1 == r2,
{
}

/// Two float query results on the same state are bit-identical.
pub proof fn lemma_query_float_deterministic(
    s: SessionWrapper,
    action: u64,
    subaction_path: u64,
    r1: FloatState,
    r2: FloatState,
)
    requires
        r1 == s.spec_query_float(action, subaction_path),
        r2 == s.spec_query_float(action, subaction_path),
    ensures
        r1 == r2,
{
}

/// Two 2D query results on the same state are bit-identical.
pub proof fn lemma_query_vector2f_deterministic(
    s: SessionWrapper,
    action: u64,
    subaction_path: u64,
    r1: Vector2fState,
    r2: Vector2fState,
)
    requires
        r1 == s.spec_query_vector2f(action, subaction_path),
        r2 == s.spec_query_vector2f(action, subaction_path),
    ensures
        r1 == r2,
{
}

/// Two pose query results on the same state are bit-identical.
pub proof fn lemma_query_pose_deterministic(
    s: SessionWrapper,
    action: u64,
    subaction_path: u64,
    r1: PoseState,
    r2: PoseState,
)
    requires
        r1 == s.spec_query_pose(action, subaction_path),
        r2 == s.spec_query_pose(action, subaction_path),
    ensures
        r1 == r2,
{
}

/// Querying an action with no cached god state returns the rest-state
/// default of the requested shape, never an error.
pub proof fn lemma_unbound_query_rest(s: SessionWrapper, action: u64, subaction_path: u64)
    requires
        !s.cached_action_states@.contains_key(action),
    ensures
        s.spec_query_boolean(action, subaction_path) == spec_rest_boolean(),
        s.spec_query_float(action, subaction_path) == spec_rest_float(),
        s.spec_query_vector2f(action, subaction_path) == spec_rest_vector2f(),
        s.spec_query_pose(action, subaction_path) == spec_rest_pose(),
{
}

/// The value cached for a subaction path is the one of the first resolution
/// that serves it.
pub proof fn lemma_collection_first(
    gs: Map<u64, crate::path_map::PathMap<crate::god_actions::GodState>>,
    rs: Seq<Resolution>,
    q: int,
)
    requires
        0 <= q < rs.len(),
        forall|qq: int| 0 <= qq < q ==> rs[qq].subaction != rs[q].subaction,
    ensures
        spec_collection(gs, rs).contains_key(rs[q].subaction),
        spec_collection(gs, rs)[rs[q].subaction] == gs[rs[q].profile]@[rs[q].binding].action_state,
    decreases rs.len(),
{
    if q == 0 {
    } else {
        assert(rs.drop_first()[q - 1] == rs[q]);
        assert forall|qq: int| 0 <= qq < q - 1 implies (#[trigger] rs.drop_first()[qq]).subaction
            != rs.drop_first()[q - 1].subaction by {
            assert(rs.drop_first()[qq] == rs[qq + 1]);
        }
        lemma_collection_first(gs, rs.drop_first(), q - 1);
        assert(rs[0].subaction != rs[q].subaction);
    }
}

/// Synchronization monotonicity: immediately after a synchronization, a
/// query of a populated pair observes exactly the freshly read value, never
/// an older one. The pair (action, subaction path) is served by resolution
/// `q` of the attached action, the first one for its subaction path, and the
/// fresh value is reading `k` of the pass.
pub proof fn lemma_sync_freshness(
    pre: SessionWrapper,
    post: SessionWrapper,
    readings: Seq<SyncReading>,
    i: int,
    j: int,
    q: int,
    k: int,
)
    requires
        spec_readings_valid(pre, readings),
        spec_synced(pre, post, readings),
        pre.attached matches Some(rec) && 0 <= i < rec.sets@.len() && 0 <= j
            < rec.sets@[i].actions@.len() && 0 <= q
            < rec.sets@[i].actions@[j].resolutions@.len() && (forall|qq: int|
            0 <= qq < q ==> rec.sets@[i].actions@[j].resolutions@[qq].subaction
                != rec.sets@[i].actions@[j].resolutions@[q].subaction),
        0 <= k < readings.len(),
        readings[k].profile == pre.attached.unwrap().sets@[i].actions@[j].resolutions@[q].profile,
        readings[k].binding == pre.attached.unwrap().sets@[i].actions@[j].resolutions@[q].binding,
    ensures
        post.spec_cached_state(
            pre.attached.unwrap().sets@[i].actions@[j].action,
            pre.attached.unwrap().sets@[i].actions@[j].resolutions@[q].subaction,
        ) == Some(readings[k].state),
{
    let rec = pre.attached.unwrap();
    let aa = rec.sets@[i].actions@[j];
    let res = aa.resolutions@[q];
    assert(post.cached_action_states@.contains_key(aa.action));
    assert(post.cached_action_states@[aa.action]@ == spec_collection(
        post.god_states@,
        aa.resolutions@,
    ));
    lemma_collection_first(post.god_states@, aa.resolutions@, q);
    assert(post.god_states@[res.profile]@[res.binding].action_state == readings[k].state);
}

} // verus!
