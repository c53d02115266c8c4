//! The god-action engine: for every profile of the catalogue, one synthetic
//! action per actionable subpath feature, so that bindings exist for any
//! profile the hardware might report. Scalar values are carried as IEEE-754
//! bit patterns, as read from the runtime.

use vstd::prelude::*;
use vstd::seq_lib::*;

use crate::interaction_profiles::{spec_feature_str, spec_feature_type, Feature, InteractionProfile, Subpath};
use crate::errors::LayerError;
use crate::path_map::PathMap;
use crate::text::{spec_ends_with, str_ends_with};
use crate::xrapplication_info::{spec_is_actionable, spec_is_input, ActionType};

verus! {

/// Cached state of a boolean input.
#[derive(Clone, Copy, Debug, PartialEq, Eq, Structural)]
pub struct BooleanState {
    pub current_state: bool,
    pub changed_since_last_sync: bool,
    pub is_active: bool,
}

/// Cached state of a 1D analog input; the value is the bit pattern of a
/// 32-bit IEEE float.
#[derive(Clone, Copy, Debug, PartialEq, Eq, Structural)]
pub struct FloatState {
    pub current_state_bits: u32,
    pub changed_since_last_sync: bool,
    pub is_active: bool,
}

/// Cached state of a 2D input; each axis is a 32-bit IEEE float bit pattern.
#[derive(Clone, Copy, Debug, PartialEq, Eq, Structural)]
pub struct Vector2fState {
    pub x_bits: u32,
    pub y_bits: u32,
    pub changed_since_last_sync: bool,
    pub is_active: bool,
}

/// Cached state of a pose input: only whether the pose is being tracked.
#[derive(Clone, Copy, Debug, PartialEq, Eq, Structural)]
pub struct PoseState {
    pub is_active: bool,
}

/// The last value a god action was observed to hold, tagged by its kind.
#[derive(Clone, Copy, Debug, PartialEq, Eq, Structural)]
pub enum ActionState {
    Boolean(BooleanState),
    Float(FloatState),
    Vector2f(Vector2fState),
    Pose(PoseState),
}

/// The action kind a cached state belongs to.
pub open spec fn spec_state_type(s: ActionState) -> ActionType {
    match s {
        ActionState::Boolean(_) => ActionType::BooleanInput,
        ActionState::Float(_) => ActionType::FloatInput,
        ActionState::Vector2f(_) => ActionType::Vector2fInput,
        ActionState::Pose(_) => ActionType::PoseInput,
    }
}

/// The state a god action is seeded with at attach time: the rest value of
/// its kind, not yet changed, and active (the god binding exists). Input
/// kinds only.
pub open spec fn spec_initial_state(t: ActionType) -> Option<ActionState> {
    match t {
        ActionType::BooleanInput => Some(
            ActionState::Boolean(
                BooleanState { current_state: false, changed_since_last_sync: false, is_active: true },
            ),
        ),
        ActionType::FloatInput => Some(
            ActionState::Float(
                FloatState { current_state_bits: 0, changed_since_last_sync: false, is_active: true },
            ),
        ),
        ActionType::Vector2fInput => Some(
            ActionState::Vector2f(
                Vector2fState { x_bits: 0, y_bits: 0, changed_since_last_sync: false, is_active: true },
            ),
        ),
        ActionType::PoseInput => Some(ActionState::Pose(PoseState { is_active: true })),
        ActionType::VibrationOutput => None,
        ActionType::Unknown => None,
    }
}

impl ActionState {
    /// The fresh rest state for an input kind; output and unknown kinds have
    /// none.
    pub fn new(t: ActionType) -> (r: Option<ActionState>)
        ensures
            r == spec_initial_state(t),
    {
        match t {
            ActionType::BooleanInput => Some(
                ActionState::Boolean(
                    BooleanState {
                        current_state: false,
                        changed_since_last_sync: false,
                        is_active: true,
                    },
                ),
            ),
            ActionType::FloatInput => Some(
                ActionState::Float(
                    FloatState {
                        current_state_bits: 0,
                        changed_since_last_sync: false,
                        is_active: true,
                    },
                ),
            ),
            ActionType::Vector2fInput => Some(
                ActionState::Vector2f(
                    Vector2fState {
                        x_bits: 0,
                        y_bits: 0,
                        changed_since_last_sync: false,
                        is_active: true,
                    },
                ),
            ),
            ActionType::PoseInput => Some(ActionState::Pose(PoseState { is_active: true })),
            ActionType::VibrationOutput => None,
            ActionType::Unknown => None,
        }
    }
}


impl ActionState {
    /// The action kind this state belongs to.
    pub fn kind(&self) -> (t: ActionType)
        ensures
            t == spec_state_type(*self),
    {
        match self {
            ActionState::Boolean(_) => ActionType::BooleanInput,
            ActionState::Float(_) => ActionType::FloatInput,
            ActionState::Vector2f(_) => ActionType::Vector2fInput,
            ActionState::Pose(_) => ActionType::PoseInput,
        }
    }
}

/// The rest-state answer of a boolean query on an unpopulated pair: value at
/// rest and both flags false.
pub open spec fn spec_rest_boolean() -> BooleanState {
    BooleanState { current_state: false, changed_since_last_sync: false, is_active: false }
}

/// The rest-state answer of a float query on an unpopulated pair.
pub open spec fn spec_rest_float() -> FloatState {
    FloatState { current_state_bits: 0, changed_since_last_sync: false, is_active: false }
}

/// The rest-state answer of a 2D query on an unpopulated pair.
pub open spec fn spec_rest_vector2f() -> Vector2fState {
    Vector2fState { x_bits: 0, y_bits: 0, changed_since_last_sync: false, is_active: false }
}

/// The rest-state answer of a pose query on an unpopulated pair.
pub open spec fn spec_rest_pose() -> PoseState {
    PoseState { is_active: false }
}

/// What one god action is, independent of the handles the runtime assigned:
/// its name, kind, and the subaction paths it covers.
pub struct GodActionDesc {
    pub name: Seq<char>,
    pub action_type: ActionType,
    pub subaction_paths: Seq<Seq<char>>,
}

/// The side restriction of a subpath, at the view level.
pub open spec fn spec_side_view(side: Option<String>) -> Option<Seq<char>> {
    match side {
        None => None,
        Some(s) => Some(s@),
    }
}

/// A subaction path satisfies a side restriction when it ends in that side's
/// segment; without a restriction every declared subaction path is allowed.
pub open spec fn spec_side_allows(side: Option<Seq<char>>, subaction: Seq<char>) -> bool {
    match side {
        None => true,
        Some(s) => spec_ends_with(subaction, "/"@ + s),
    }
}

/// The subaction paths of a profile a subpath's side restriction allows, in
/// declaration order.
pub open spec fn spec_allowed_subactions(
    subactions: Seq<Seq<char>>,
    side: Option<Seq<char>>,
) -> Seq<Seq<char>>
    decreases subactions.len(),
{
    if subactions.len() == 0 {
        Seq::empty()
    } else {
        let rest = spec_allowed_subactions(subactions.drop_last(), side);
        if spec_side_allows(side, subactions.last()) {
            rest.push(subactions.last())
        } else {
            rest
        }
    }
}

/// The god action one actionable feature of a subpath gives rise to: named
/// by the subpath and the feature tag, of the feature's kind, covering the
/// allowed subaction paths.
pub open spec fn spec_action_desc(
    subactions: Seq<Seq<char>>,
    sp_path: Seq<char>,
    side: Option<Seq<char>>,
    f: Feature,
) -> GodActionDesc {
    GodActionDesc {
        name: sp_path + "/"@ + spec_feature_str(f),
        action_type: spec_feature_type(f),
        subaction_paths: spec_allowed_subactions(subactions, side),
    }
}

/// The god actions a list of features gives rise to: one per actionable
/// feature, in feature order.
pub open spec fn spec_feature_descs(
    subactions: Seq<Seq<char>>,
    sp_path: Seq<char>,
    side: Option<Seq<char>>,
    features: Seq<Feature>,
) -> Seq<GodActionDesc>
    decreases features.len(),
{
    if features.len() == 0 {
        Seq::empty()
    } else {
        let rest = spec_feature_descs(subactions, sp_path, side, features.drop_last());
        if spec_is_actionable(spec_feature_type(features.last())) {
            rest.push(spec_action_desc(subactions, sp_path, side, features.last()))
        } else {
            rest
        }
    }
}

/// The god actions of one subpath: one per actionable feature, in feature
/// order.
pub open spec fn spec_subpath_descs(subactions: Seq<Seq<char>>, sp: Subpath) -> Seq<GodActionDesc> {
    spec_feature_descs(subactions, sp.path@, spec_side_view(sp.side), sp.features@)
}

/// A god action yet to be created against the runtime.
#[derive(Debug, Clone)]
pub struct GodActionPlan {
    /// The action's name: the subpath followed by the feature tag.
    pub name: String,
    /// The action's kind.
    pub action_type: ActionType,
    /// The subaction paths the action covers.
    pub subaction_paths: Vec<String>,
}

impl GodActionPlan {
    /// What this plan describes.
    pub open spec fn desc(&self) -> GodActionDesc {
        GodActionDesc {
            name: self.name@,
            action_type: self.action_type,
            subaction_paths: self.subaction_paths.deep_view(),
        }
    }
}

/// The planned god actions of one subpath.
#[derive(Debug, Clone)]
pub struct SubpathPlans {
    /// The subpath these actions stand in for.
    pub subpath: String,
    /// One plan per actionable feature, in feature order.
    pub plans: Vec<GodActionPlan>,
}

/// Copies a list of path strings.
fn clone_strings(v: &Vec<String>) -> (r: Vec<String>)
    ensures
        r.deep_view() == v.deep_view(),
{
    let mut r: Vec<String> = Vec::new();
    let n = v.len();
    let mut i: usize = 0;
    while i < n
        invariant
            0 <= i <= n,
            n == v@.len(),
            v.deep_view().len() == n,
            r@.len() == i,
            r.deep_view() =~= v.deep_view().take(i as int),
        decreases n - i,
    {
        r.push(v[i].clone());
        proof {
            assert(r.deep_view() =~= v.deep_view().take(i + 1));
        }
        i = i + 1;
    }
    proof {
        assert(r.deep_view() =~= v.deep_view());
    }
    r
}

/// The subaction paths a side restriction allows, as declared by a profile.
fn allowed_subaction_paths(subactions: &Vec<String>, side: &Option<String>) -> (r: Vec<String>)
    ensures
        r.deep_view() == spec_allowed_subactions(subactions.deep_view(), spec_side_view(*side)),
{
    let suffix: Option<String> = match side {
        None => None,
        Some(sd) => {
            let sx = String::from_str("/").concat(sd.as_str());
            proof {
                assert(sx@ == "/"@ + sd@);
            }
            Some(sx)
        },
    };
    let mut r: Vec<String> = Vec::new();
    let n = subactions.len();
    let mut i: usize = 0;
    proof {
        assert(subactions.deep_view().take(0) =~= Seq::<Seq<char>>::empty());
    }
    while i < n
        invariant
            0 <= i <= n,
            n == subactions@.len(),
            subactions.deep_view().len() == n,
            match (side, suffix) {
                (Some(sd), Some(sx)) => sx@ == "/"@ + sd@,
                (None, None) => true,
                _ => false,
            },
            r.deep_view() == spec_allowed_subactions(
                subactions.deep_view().take(i as int),
                spec_side_view(*side),
            ),
        decreases n - i,
    {
        proof {
            assert(subactions.deep_view().take(i + 1).drop_last() =~= subactions.deep_view().take(
                i as int,
            ));
            assert(subactions.deep_view().take(i + 1).last() == subactions@[i as int]@);
        }
        let keep = match &suffix {
            None => true,
            Some(sx) => str_ends_with(&subactions[i], sx.as_str()),
        };
        if keep {
            r.push(subactions[i].clone());
            proof {
                assert(r.deep_view() =~= spec_allowed_subactions(
                    subactions.deep_view().take(i + 1),
                    spec_side_view(*side),
                ));
            }
        } else {
            proof {
                assert(r.deep_view() =~= spec_allowed_subactions(
                    subactions.deep_view().take(i + 1),
                    spec_side_view(*side),
                ));
            }
        }
        i = i + 1;
    }
    proof {
        assert(subactions.deep_view().take(n as int) =~= subactions.deep_view());
    }
    r
}

/// Plans the god actions of one subpath: one action per actionable feature,
/// named by the subpath and the feature tag, covering the subaction paths the
/// subpath's side restriction allows.
pub fn plan_subpath_actions(subactions: &Vec<String>, sp: &Subpath) -> (r: Vec<GodActionPlan>)
    ensures
        r@.map_values(|g: GodActionPlan| g.desc()) == spec_subpath_descs(
            subactions.deep_view(),
            *sp,
        ),
{
    let allowed = allowed_subaction_paths(subactions, &sp.side);
    let mut r: Vec<GodActionPlan> = Vec::new();
    let n = sp.features.len();
    let mut i: usize = 0;
    proof {
        assert(sp.features@.take(0) =~= Seq::<Feature>::empty());
        assert(r@.map_values(|g: GodActionPlan| g.desc()) =~= spec_feature_descs(
            subactions.deep_view(),
            sp.path@,
            spec_side_view(sp.side),
            sp.features@.take(0),
        ));
    }
    while i < n
        invariant
            0 <= i <= n,
            n == sp.features@.len(),
            allowed.deep_view() == spec_allowed_subactions(
                subactions.deep_view(),
                spec_side_view(sp.side),
            ),
            r@.map_values(|g: GodActionPlan| g.desc()) == spec_feature_descs(
                subactions.deep_view(),
                sp.path@,
                spec_side_view(sp.side),
                sp.features@.take(i as int),
            ),
        decreases n - i,
    {
        proof {
            assert(sp.features@.take(i + 1).drop_last() =~= sp.features@.take(i as int));
            assert(sp.features@.take(i + 1).last() == sp.features@[i as int]);
        }
        let f = &sp.features[i];
        let t = f.get_type();
        if t.is_actionable() {
            let name = sp.path.clone().concat("/").concat(f.to_str());
            let plan = GodActionPlan {
                name,
                action_type: t,
                subaction_paths: clone_strings(&allowed),
            };
            proof {
                assert(plan.desc().name =~= sp.path@ + "/"@ + spec_feature_str(
                    sp.features@[i as int],
                ));
                assert(plan.desc() == spec_action_desc(
                    subactions.deep_view(),
                    sp.path@,
                    spec_side_view(sp.side),
                    sp.features@[i as int],
                ));
            }
            let ghost pre = r@;
            r.push(plan);
            proof {
                let x = spec_feature_descs(
                    subactions.deep_view(),
                    sp.path@,
                    spec_side_view(sp.side),
                    sp.features@.take(i as int),
                );
                let y = spec_feature_descs(
                    subactions.deep_view(),
                    sp.path@,
                    spec_side_view(sp.side),
                    sp.features@.take(i + 1),
                );
                assert(y == x.push(spec_action_desc(
                    subactions.deep_view(),
                    sp.path@,
                    spec_side_view(sp.side),
                    sp.features@[i as int],
                )));
                assert forall|q: int| 0 <= q < y.len() implies r@.map_values(
                    |g: GodActionPlan| g.desc(),
                )[q] == y[q] by {
                    if q < pre.len() {
                        assert(r@[q] == pre[q]);
                        assert(pre.map_values(|g: GodActionPlan| g.desc())[q] == x[q]);
                    } else {
                        assert(r@[q] == plan);
                    }
                }
                assert(r@.map_values(|g: GodActionPlan| g.desc()) =~= y);
            }
        } else {
            proof {
                assert(r@.map_values(|g: GodActionPlan| g.desc()) =~= spec_feature_descs(
                    subactions.deep_view(),
                    sp.path@,
                    spec_side_view(sp.side),
                    sp.features@.take(i + 1),
                ));
            }
        }
        i = i + 1;
    }
    proof {
        assert(sp.features@.take(n as int) =~= sp.features@);
    }
    r
}

/// Plans the god actions of a whole profile, subpath by subpath, in catalogue
/// order.
pub fn plan_profile_actions(p: &InteractionProfile) -> (r: Vec<SubpathPlans>)
    ensures
        r@.len() == p.subpaths@.len(),
        forall|i: int|
            0 <= i < r@.len() ==> (#[trigger] r@[i]).subpath@ == p.subpaths@[i].path@
                && r@[i].plans@.map_values(|g: GodActionPlan| g.desc()) == spec_subpath_descs(
                p.subaction_paths.deep_view(),
                p.subpaths@[i],
            ),
{
    let mut r: Vec<SubpathPlans> = Vec::new();
    let n = p.subpaths.len();
    let mut i: usize = 0;
    while i < n
        invariant
            0 <= i <= n,
            n == p.subpaths@.len(),
            r@.len() == i,
            forall|j: int|
                0 <= j < i ==> (#[trigger] r@[j]).subpath@ == p.subpaths@[j].path@
                    && r@[j].plans@.map_values(|g: GodActionPlan| g.desc()) == spec_subpath_descs(
                    p.subaction_paths.deep_view(),
                    p.subpaths@[j],
                ),
        decreases n - i,
    {
        let sp = &p.subpaths[i];
        let plans = plan_subpath_actions(&p.subaction_paths, sp);
        r.push(SubpathPlans { subpath: sp.path.clone(), plans });
        i = i + 1;
    }
    r
}

/// A synthetic action created against the runtime, standing in for one
/// subpath feature of one profile.
#[derive(Debug, Clone)]
pub struct GodAction {
    /// The native handle the runtime assigned to the action.
    pub handle: u64,
    /// The action's name: the subpath followed by the feature tag.
    pub name: String,
    /// The action's kind.
    pub action_type: ActionType,
    /// The subaction paths the action covers.
    pub subaction_paths: Vec<String>,
}

impl GodAction {
    /// What this action is, independent of its handle.
    pub open spec fn desc(&self) -> GodActionDesc {
        GodActionDesc {
            name: self.name@,
            action_type: self.action_type,
            subaction_paths: self.subaction_paths.deep_view(),
        }
    }
}

/// The god actions of one subpath of a profile.
#[derive(Debug, Clone)]
pub struct SubpathGodActions {
    /// The subpath these actions stand in for.
    pub subpath: String,
    /// One god action per actionable feature, in feature order.
    pub god_actions: Vec<GodAction>,
}

/// One god action set: all god actions of one profile, built once at
/// instance creation and never mutated afterward.
#[derive(Debug, Clone)]
pub struct GodActionSet {
    /// The native handle of the action set.
    pub handle: u64,
    /// The resolved path value of the profile.
    pub profile_handle: u64,
    /// The profile's path string.
    pub profile_path: String,
    /// The god actions, grouped by subpath in catalogue order.
    pub subpaths: Vec<SubpathGodActions>,
}

/// A god action set holds exactly the god actions the profile calls for.
pub open spec fn spec_set_matches_profile(set: GodActionSet, p: InteractionProfile) -> bool {
    &&& set.profile_path@ == p.path@
    &&& set.subpaths@.len() == p.subpaths@.len()
    &&& forall|i: int|
        0 <= i < p.subpaths@.len() ==> (#[trigger] set.subpaths@[i]).subpath@
            == p.subpaths@[i].path@ && set.subpaths@[i].god_actions@.map_values(
            |g: GodAction| g.desc(),
        ) == spec_subpath_descs(p.subaction_paths.deep_view(), p.subpaths@[i])
}

/// Whether a table of handles has the same shape as the profile's planned
/// god actions: one handle per actionable feature of each subpath.
pub open spec fn spec_handles_match_profile(handles: Seq<Seq<u64>>, p: InteractionProfile) -> bool {
    &&& handles.len() == p.subpaths@.len()
    &&& forall|i: int|
        0 <= i < handles.len() ==> (#[trigger] handles[i]).len() == spec_subpath_descs(
            p.subaction_paths.deep_view(),
            p.subpaths@[i],
        ).len()
}

/// Builds the god action set of one profile from the handles the runtime
/// assigned: one action-set handle, and one action handle per planned god
/// action. Fails, leaving nothing registered, when the handle table does not
/// match the profile's plan.
pub fn assemble_god_action_set(
    p: &InteractionProfile,
    profile_handle: u64,
    set_handle: u64,
    handles: &Vec<Vec<u64>>,
) -> (r: Result<GodActionSet, LayerError>)
    ensures
        r is Ok <==> spec_handles_match_profile(handles.deep_view(), *p),
        r matches Ok(set) ==> spec_set_matches_profile(set, *p) && set.handle == set_handle
            && set.profile_handle == profile_handle && forall|i: int, j: int|
            0 <= i < set.subpaths@.len() && 0 <= j < set.subpaths@[i].god_actions@.len()
                ==> (#[trigger] set.subpaths@[i].god_actions@[j]).handle
                == handles.deep_view()[i][j],
{
    let plans = plan_profile_actions(p);
    if handles.len() != plans.len() {
        return Err(LayerError::BuildFailed);
    }
    let mut subpaths: Vec<SubpathGodActions> = Vec::new();
    let n = plans.len();
    let mut i: usize = 0;
    while i < n
        invariant
            0 <= i <= n,
            n == plans@.len(),
            n == p.subpaths@.len(),
            n == handles@.len(),
            handles.deep_view().len() == n,
            forall|ii: int|
                0 <= ii < n ==> (#[trigger] plans@[ii]).subpath@ == p.subpaths@[ii].path@
                    && plans@[ii].plans@.map_values(|g: GodActionPlan| g.desc())
                    == spec_subpath_descs(p.subaction_paths.deep_view(), p.subpaths@[ii]),
            subpaths@.len() == i,
            forall|ii: int|
                0 <= ii < i ==> (#[trigger] handles.deep_view()[ii]).len() == spec_subpath_descs(
                    p.subaction_paths.deep_view(),
                    p.subpaths@[ii],
                ).len(),
            forall|ii: int|
                0 <= ii < i ==> (#[trigger] subpaths@[ii]).subpath@ == p.subpaths@[ii].path@
                    && subpaths@[ii].god_actions@.map_values(|g: GodAction| g.desc())
                    == spec_subpath_descs(p.subaction_paths.deep_view(), p.subpaths@[ii]),
            forall|ii: int, j: int|
                0 <= ii < i && 0 <= j < subpaths@[ii].god_actions@.len()
                    ==> (#[trigger] subpaths@[ii].god_actions@[j]).handle
                    == handles.deep_view()[ii][j],
        decreases n - i,
    {
        let plan_list = &plans[i].plans;
        let handle_list = &handles[i];
        let m = plan_list.len();
        proof {
            assert(plans@[i as int].plans@.map_values(|g: GodActionPlan| g.desc())
                == spec_subpath_descs(p.subaction_paths.deep_view(), p.subpaths@[i as int]));
            assert(plan_list@.map_values(|g: GodActionPlan| g.desc()).len() == m);
        }
        if handle_list.len() != m {
            proof {
                assert(handles.deep_view()[i as int].len() == handles@[i as int]@.len());
            }
            return Err(LayerError::BuildFailed);
        }
        let mut god_actions: Vec<GodAction> = Vec::new();
        let mut j: usize = 0;
        while j < m
            invariant
                0 <= j <= m,
                m == plan_list@.len(),
                m == handle_list@.len(),
                god_actions@.len() == j,
                forall|jj: int|
                    0 <= jj < j ==> (#[trigger] god_actions@[jj]).desc()
                        == plan_list@[jj].desc() && god_actions@[jj].handle == handle_list@[jj],
            decreases m - j,
        {
            let plan = &plan_list[j];
            let g = GodAction {
                handle: handle_list[j],
                name: plan.name.clone(),
                action_type: plan.action_type,
                subaction_paths: clone_strings(&plan.subaction_paths),
            };
            proof {
                assert(g.desc() == plan_list@[j as int].desc());
            }
            god_actions.push(g);
            j = j + 1;
        }
        proof {
            assert(god_actions@.map_values(|g: GodAction| g.desc()) =~= plan_list@.map_values(
                |g: GodActionPlan| g.desc(),
            ));
            assert(handles.deep_view()[i as int] =~= handle_list.deep_view());
            assert(handles.deep_view()[i as int].len() == m);
            assert forall|jj: int| 0 <= jj < m implies handles.deep_view()[i as int][jj]
                == handle_list@[jj] by {
                assert(handles.deep_view()[i as int][jj] == handle_list@[jj].deep_view());
            }
        }
        subpaths.push(SubpathGodActions { subpath: plans[i].subpath.clone(), god_actions });
        i = i + 1;
    }
    Ok(GodActionSet { handle: set_handle, profile_handle, profile_path: p.path.clone(), subpaths })
}

/// What one binding request is: which god action to bind, of what kind, for
/// which subaction path, under which fully qualified binding string.
pub struct BindingReqDesc {
    pub action_handle: u64,
    pub action_type: ActionType,
    pub subaction: Seq<char>,
    pub binding: Seq<char>,
}

/// One binding the layer will suggest for a god action: the fully qualified
/// binding string is the subaction path followed by the action's name. The
/// surrounding process resolves both strings to native path values.
#[derive(Debug, Clone)]
pub struct BindingRequest {
    /// The god action to bind.
    pub action_handle: u64,
    /// The god action's kind.
    pub action_type: ActionType,
    /// The subaction path the binding is instantiated for.
    pub subaction_path: String,
    /// The fully qualified binding path string.
    pub binding_string: String,
}

impl BindingRequest {
    /// What this request asks for.
    pub open spec fn desc(&self) -> BindingReqDesc {
        BindingReqDesc {
            action_handle: self.action_handle,
            action_type: self.action_type,
            subaction: self.subaction_path@,
            binding: self.binding_string@,
        }
    }
}

/// The binding requests of one god action: one per covered subaction path
/// for input kinds, none for outputs.
pub open spec fn spec_action_requests(g: GodActionDesc, handle: u64) -> Seq<BindingReqDesc> {
    if spec_is_input(g.action_type) {
        g.subaction_paths.map_values(
            |sa: Seq<char>|
                BindingReqDesc {
                    action_handle: handle,
                    action_type: g.action_type,
                    subaction: sa,
                    binding: sa + g.name,
                },
        )
    } else {
        Seq::empty()
    }
}

/// The binding requests of one subpath's god actions, in action order.
pub open spec fn spec_subpath_requests(gs: Seq<GodAction>) -> Seq<BindingReqDesc> {
    gs.map_values(|g: GodAction| spec_action_requests(g.desc(), g.handle)).flatten()
}

/// The binding requests of a whole god action set, in catalogue order.
pub open spec fn spec_set_requests(set: GodActionSet) -> Seq<BindingReqDesc> {
    set.subpaths@.map_values(|s: SubpathGodActions| spec_subpath_requests(s.god_actions@)).flatten()
}

/// The binding requests of one god action.
fn requests_for_action(g: &GodAction) -> (r: Vec<BindingRequest>)
    ensures
        r@.map_values(|b: BindingRequest| b.desc()) == spec_action_requests(g.desc(), g.handle),
{
    let mut r: Vec<BindingRequest> = Vec::new();
    if !g.action_type.is_input() {
        proof {
            assert(r@.map_values(|b: BindingRequest| b.desc()) =~= spec_action_requests(
                g.desc(),
                g.handle,
            ));
        }
        return r;
    }
    let n = g.subaction_paths.len();
    let mut i: usize = 0;
    while i < n
        invariant
            0 <= i <= n,
            n == g.subaction_paths@.len(),
            spec_is_input(g.action_type),
            r@.len() == i,
            forall|j: int|
                0 <= j < i ==> (#[trigger] r@[j]).desc() == (BindingReqDesc {
                    action_handle: g.handle,
                    action_type: g.action_type,
                    subaction: g.subaction_paths.deep_view()[j],
                    binding: g.subaction_paths.deep_view()[j] + g.name@,
                }),
        decreases n - i,
    {
        let sa = &g.subaction_paths[i];
        let binding = sa.clone().concat(g.name.as_str());
        r.push(
            BindingRequest {
                action_handle: g.handle,
                action_type: g.action_type,
                subaction_path: sa.clone(),
                binding_string: binding,
            },
        );
        i = i + 1;
    }
    proof {
        assert(g.subaction_paths.deep_view().len() == n);
        assert(r@.map_values(|b: BindingRequest| b.desc()) =~= spec_action_requests(
            g.desc(),
            g.handle,
        ));
    }
    r
}

/// The binding requests of one god action set: for every god action of input
/// kind, for every subaction path it covers, one request whose binding string
/// is the subaction path followed by the action's name.
pub fn binding_requests(set: &GodActionSet) -> (r: Vec<BindingRequest>)
    ensures
        r@.map_values(|b: BindingRequest| b.desc()) == spec_set_requests(*set),
{
    broadcast use Seq::lemma_flatten_push;

    let mut r: Vec<BindingRequest> = Vec::new();
    let n = set.subpaths.len();
    let mut i: usize = 0;
    proof {
        assert(set.subpaths@.take(0).map_values(
            |s: SubpathGodActions| spec_subpath_requests(s.god_actions@),
        ) =~= Seq::<Seq<BindingReqDesc>>::empty());
        assert(Seq::<Seq<BindingReqDesc>>::empty().flatten() =~= Seq::<BindingReqDesc>::empty());
        assert(r@.map_values(|b: BindingRequest| b.desc()) =~= set.subpaths@.take(0).map_values(
            |s: SubpathGodActions| spec_subpath_requests(s.god_actions@),
        ).flatten());
    }
    while i < n
        invariant
            0 <= i <= n,
            n == set.subpaths@.len(),
            r@.map_values(|b: BindingRequest| b.desc()) == set.subpaths@.take(i as int).map_values(
                |s: SubpathGodActions| spec_subpath_requests(s.god_actions@),
            ).flatten(),
        decreases n - i,
    {
        let gs = &set.subpaths[i].god_actions;
        let m = gs.len();
        let mut part: Vec<BindingRequest> = Vec::new();
        let mut j: usize = 0;
        proof {
            assert(gs@.take(0).map_values(
                |g: GodAction| spec_action_requests(g.desc(), g.handle),
            ) =~= Seq::<Seq<BindingReqDesc>>::empty());
            assert(Seq::<Seq<BindingReqDesc>>::empty().flatten()
                =~= Seq::<BindingReqDesc>::empty());
            assert(part@.map_values(|b: BindingRequest| b.desc()) =~= gs@.take(0).map_values(
                |g: GodAction| spec_action_requests(g.desc(), g.handle),
            ).flatten());
        }
        while j < m
            invariant
                0 <= j <= m,
                m == gs@.len(),
                part@.map_values(|b: BindingRequest| b.desc()) == gs@.take(j as int).map_values(
                    |g: GodAction| spec_action_requests(g.desc(), g.handle),
                ).flatten(),
            decreases m - j,
        {
            let mut piece = requests_for_action(&gs[j]);
            let ghost pre = part@;
            let ghost piece_view = piece@;
            part.append(&mut piece);
            proof {
                assert(gs@.take(j + 1).map_values(
                    |g: GodAction| spec_action_requests(g.desc(), g.handle),
                ) =~= gs@.take(j as int).map_values(
                    |g: GodAction| spec_action_requests(g.desc(), g.handle),
                ).push(spec_action_requests(gs@[j as int].desc(), gs@[j as int].handle)));
                Seq::lemma_flatten_push(
                    gs@.take(j as int).map_values(
                        |g: GodAction| spec_action_requests(g.desc(), g.handle),
                    ),
                    spec_action_requests(gs@[j as int].desc(), gs@[j as int].handle),
                );
                assert(part@ == pre + piece_view);
                assert(part@.map_values(|b: BindingRequest| b.desc()) =~= pre.map_values(
                    |b: BindingRequest| b.desc(),
                ) + piece_view.map_values(|b: BindingRequest| b.desc()));
            }
            j = j + 1;
        }
        proof {
            assert(gs@.take(m as int) =~= gs@);
            assert(set.subpaths@.take(i + 1).map_values(
                |s: SubpathGodActions| spec_subpath_requests(s.god_actions@),
            ) =~= set.subpaths@.take(i as int).map_values(
                |s: SubpathGodActions| spec_subpath_requests(s.god_actions@),
            ).push(spec_subpath_requests(set.subpaths@[i as int].god_actions@)));
        }
        let ghost pre = r@;
        let ghost part_view = part@;
        let mut part_mut = part;
        r.append(&mut part_mut);
        proof {
            Seq::lemma_flatten_push(
                set.subpaths@.take(i as int).map_values(
                    |s: SubpathGodActions| spec_subpath_requests(s.god_actions@),
                ),
                spec_subpath_requests(set.subpaths@[i as int].god_actions@),
            );
            assert(r@ == pre + part_view);
            assert(r@.map_values(|b: BindingRequest| b.desc()) =~= pre.map_values(
                |b: BindingRequest| b.desc(),
            ) + part_view.map_values(|b: BindingRequest| b.desc()));
        }
        i = i + 1;
    }
    proof {
        assert(set.subpaths@.take(n as int) =~= set.subpaths@);
    }
    r
}

/// The cached, per-binding-path value of a god action's current state,
/// created when a session attaches and updated on every synchronization.
#[derive(Debug, Clone)]
pub struct GodState {
    /// The god action the state belongs to.
    pub action_handle: u64,
    /// The fully qualified binding path string.
    pub name: String,
    /// The resolved subaction path the state was instantiated for.
    pub subaction_path: u64,
    /// The last value observed for the god action.
    pub action_state: ActionState,
}

/// The god states a list of binding requests seeds, given the runtime's
/// resolution of each request: entry `k` of `resolved` holds the native path
/// of request `k`'s binding string and of its subaction path.
pub fn seed_profile_god_states(
    requests: &Vec<BindingRequest>,
    resolved: &Vec<(u64, u64)>,
) -> (r: Result<PathMap<GodState>, LayerError>)
    ensures
        r matches Ok(m) ==> {
            &&& m.wf()
            &&& resolved@.len() == requests@.len()
            &&& forall|k: int|
                0 <= k < requests@.len() ==> m@.contains_key((#[trigger] resolved@[k]).0)
                    && m@[resolved@[k].0].action_handle == requests@[k].action_handle
                    && m@[resolved@[k].0].name@ == requests@[k].binding_string@
                    && m@[resolved@[k].0].subaction_path == resolved@[k].1 && Some(
                    m@[resolved@[k].0].action_state,
                ) == spec_initial_state(requests@[k].action_type)
            &&& forall|p: u64|
                m@.contains_key(p) ==> exists|k: int|
                    0 <= k < resolved@.len() && (#[trigger] resolved@[k]).0 == p
        },
        r is Ok ==> (forall|k1: int, k2: int|
            0 <= k1 < k2 < resolved@.len() ==> (#[trigger] resolved@[k1]).0 != (
            #[trigger] resolved@[k2]).0) && (forall|k: int|
            0 <= k < requests@.len() ==> spec_initial_state(
                (#[trigger] requests@[k]).action_type,
            ) is Some),
        r is Err ==> resolved@.len() != requests@.len() || (exists|k: int|
            0 <= k < requests@.len() && spec_initial_state(
                (#[trigger] requests@[k]).action_type,
            ) is None) || (exists|k1: int, k2: int|
            0 <= k1 < k2 < resolved@.len() && (#[trigger] resolved@[k1]).0
                == (#[trigger] resolved@[k2]).0),
{
    if resolved.len() != requests.len() {
        return Err(LayerError::BuildFailed);
    }
    let n = requests.len();
    let mut m: PathMap<GodState> = PathMap::new();
    let mut k: usize = 0;
    while k < n
        invariant
            0 <= k <= n,
            n == requests@.len(),
            n == resolved@.len(),
            m.wf(),
            forall|kk: int|
                0 <= kk < k ==> m@.contains_key((#[trigger] resolved@[kk]).0)
                    && m@[resolved@[kk].0].action_handle == requests@[kk].action_handle
                    && m@[resolved@[kk].0].name@ == requests@[kk].binding_string@
                    && m@[resolved@[kk].0].subaction_path == resolved@[kk].1 && Some(
                    m@[resolved@[kk].0].action_state,
                ) == spec_initial_state(requests@[kk].action_type),
            forall|p: u64|
                m@.contains_key(p) ==> exists|kk: int|
                    0 <= kk < k && (#[trigger] resolved@[kk]).0 == p,
            forall|k1: int, k2: int|
                0 <= k1 < k2 < k ==> (#[trigger] resolved@[k1]).0 != (
                #[trigger] resolved@[k2]).0,
            forall|kk: int|
                0 <= kk < k ==> spec_initial_state(
                    (#[trigger] requests@[kk]).action_type,
                ) is Some,
        decreases n - k,
    {
        let req = &requests[k];
        let (binding_path, subaction_path) = resolved[k];
        let state = match ActionState::new(req.action_type) {
            Some(s) => s,
            None => {
                return Err(LayerError::BuildFailed);
            },
        };
        if m.contains_key(binding_path) {
            proof {
                let kk = choose|kk: int| 0 <= kk < k && (#[trigger] resolved@[kk]).0
                    == binding_path;
                assert(resolved@[kk].0 == resolved@[k as int].0);
            }
            return Err(LayerError::BuildFailed);
        }
        proof {
            assert forall|kk: int| 0 <= kk < k implies (#[trigger] resolved@[kk]).0
                != resolved@[k as int].0 by {
                assert(m@.contains_key(resolved@[kk].0));
            }
        }
        m.insert(
            binding_path,
            GodState {
                action_handle: req.action_handle,
                name: req.binding_string.clone(),
                subaction_path,
                action_state: state,
            },
        );
        k = k + 1;
    }
    Ok(m)
}

/// The suggested-binding pairs of one profile: every god action bound to
/// every one of its resolved binding paths, in request order.
pub fn suggested_bindings(requests: &Vec<BindingRequest>, resolved: &Vec<(u64, u64)>) -> (r: Vec<
    (u64, u64),
>)
    requires
        resolved@.len() == requests@.len(),
    ensures
        r@.len() == requests@.len(),
        forall|k: int|
            0 <= k < r@.len() ==> #[trigger] r@[k] == (
                requests@[k].action_handle,
                resolved@[k].0,
            ),
{
    let n = requests.len();
    let mut r: Vec<(u64, u64)> = Vec::new();
    let mut k: usize = 0;
    while k < n
        invariant
            0 <= k <= n,
            n == requests@.len(),
            n == resolved@.len(),
            r@.len() == k,
            forall|kk: int|
                0 <= kk < k ==> #[trigger] r@[kk] == (
                    requests@[kk].action_handle,
                    resolved@[kk].0,
                ),
        decreases n - k,
    {
        r.push((requests[k].action_handle, resolved[k].0));
        k = k + 1;
    }
    r
}

} // verus!
