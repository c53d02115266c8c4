use oxidexr::errors::LayerError;
use oxidexr::god_actions::{
    assemble_god_action_set, binding_requests, plan_profile_actions, ActionState, BooleanState,
    FloatState, GodActionSet,
};
use oxidexr::interaction_profiles::{Feature, InteractionProfile, Subpath};
use oxidexr::registry::HandleRegistry;
use oxidexr::wrappers::SyncReading;
use oxidexr::xrapplication_info::ActionType;

const PROFILE_PATH_VALUE: u64 = 500;
const LEFT_HAND: u64 = 11;
const RIGHT_HAND: u64 = 12;
const INSTANCE: u64 = 1;
const SESSION: u64 = 2;
const APP_SET: u64 = 3;
const APP_ACTION: u64 = 4;

fn simple_controller() -> InteractionProfile {
    InteractionProfile {
        path: String::from("/interaction_profiles/khr/simple_controller"),
        title: String::from("Khronos Simple Controller"),
        subaction_paths: vec![
            String::from("/user/hand/left"),
            String::from("/user/hand/right"),
        ],
        subpaths: vec![
            Subpath {
                path: String::from("/input/select"),
                kind: String::from("button"),
                localized_name: String::from("Select"),
                side: None,
                features: vec![Feature::Click],
            },
            Subpath {
                path: String::from("/input/menu"),
                kind: String::from("button"),
                localized_name: String::from("Menu"),
                side: None,
                features: vec![Feature::Click],
            },
            Subpath {
                path: String::from("/input/grip"),
                kind: String::from("pose"),
                localized_name: String::from("Grip"),
                side: None,
                features: vec![Feature::Pose],
            },
            Subpath {
                path: String::from("/input/aim"),
                kind: String::from("pose"),
                localized_name: String::from("Aim"),
                side: None,
                features: vec![Feature::Pose],
            },
            Subpath {
                path: String::from("/output/haptic"),
                kind: String::from("vibration"),
                localized_name: String::from("Haptic"),
                side: None,
                features: vec![Feature::Haptic],
            },
        ],
    }
}

/// Builds the god action set of the simple controller, standing in for the
/// runtime by assigning handles.
fn build_god_set() -> GodActionSet {
    let p = simple_controller();
    let plans = plan_profile_actions(&p);
    let mut handles: Vec<Vec<u64>> = Vec::new();
    let mut next: u64 = 1000;
    for sp in &plans {
        let mut row = Vec::new();
        for _ in &sp.plans {
            row.push(next);
            next += 1;
        }
        handles.push(row);
    }
    assemble_god_action_set(&p, PROFILE_PATH_VALUE, 900, &handles).unwrap()
}

/// Resolves binding and subaction strings the way a runtime would: one
/// distinct path value per distinct string.
fn resolve_requests(set: &GodActionSet) -> Vec<(u64, u64)> {
    let requests = binding_requests(set);
    let mut resolved = Vec::new();
    for (k, req) in requests.iter().enumerate() {
        let sub = if req.subaction_path == "/user/hand/left" {
            LEFT_HAND
        } else {
            RIGHT_HAND
        };
        resolved.push((2000 + k as u64, sub));
    }
    resolved
}

fn binding_value_of(set: &GodActionSet, binding: &str) -> u64 {
    let requests = binding_requests(set);
    let resolved = resolve_requests(set);
    for (k, req) in requests.iter().enumerate() {
        if req.binding_string == binding {
            return resolved[k].0;
        }
    }
    panic!("binding {} not requested", binding);
}

fn make_layer() -> HandleRegistry {
    let set = build_god_set();
    let resolved = resolve_requests(&set);
    let mut reg = HandleRegistry::new();
    reg.create_api_layer_instance(
        INSTANCE,
        String::from("demo"),
        1,
        String::from("demo-engine"),
        1,
        vec![set],
    )
    .unwrap();
    reg.create_session(INSTANCE, SESSION, &vec![resolved]).unwrap();
    reg
}

#[test]
fn assemble_fails_on_handle_mismatch() {
    let p = simple_controller();
    let handles: Vec<Vec<u64>> = vec![vec![1000]];
    assert_eq!(
        assemble_god_action_set(&p, PROFILE_PATH_VALUE, 900, &handles).err(),
        Some(LayerError::BuildFailed)
    );
}

#[test]
fn binding_requests_cover_inputs_only() {
    let set = build_god_set();
    let requests = binding_requests(&set);
    assert_eq!(requests.len(), 8);
    let names: Vec<&str> = requests.iter().map(|r| r.binding_string.as_str()).collect();
    assert!(names.contains(&"/user/hand/left/input/select/click"));
    assert!(names.contains(&"/user/hand/right/input/select/click"));
    assert!(names.contains(&"/user/hand/left/input/menu/click"));
    assert!(names.contains(&"/user/hand/left/input/grip/pose"));
    assert!(names.contains(&"/user/hand/right/input/aim/pose"));
    assert!(!names.iter().any(|n| n.contains("haptic")));
}

#[test]
fn session_creation_suggests_every_binding() {
    let set = build_god_set();
    let resolved = resolve_requests(&set);
    let mut reg = HandleRegistry::new();
    reg.create_api_layer_instance(
        INSTANCE,
        String::from("demo"),
        1,
        String::from("demo-engine"),
        1,
        vec![set.clone()],
    )
    .unwrap();
    let suggestions = reg.create_session(INSTANCE, SESSION, &vec![resolved.clone()]).unwrap();
    assert_eq!(suggestions.len(), 1);
    assert_eq!(suggestions[0].profile_handle, PROFILE_PATH_VALUE);
    assert_eq!(suggestions[0].pairs.len(), 8);
    let requests = binding_requests(&set);
    for (k, pair) in suggestions[0].pairs.iter().enumerate() {
        assert_eq!(pair.0, requests[k].action_handle);
        assert_eq!(pair.1, resolved[k].0);
    }
}

#[test]
fn scenario_zero_bindings_god_state_exists() {
    let reg = make_layer();
    let set = build_god_set();
    let select_left = binding_value_of(&set, "/user/hand/left/input/select/click");
    let session = reg.lookup_session(SESSION).unwrap();
    let god = session
        .get_god_state(PROFILE_PATH_VALUE, select_left)
        .expect("god state was synthesized without any application binding");
    assert_eq!(god.name, "/user/hand/left/input/select/click");
    assert_eq!(god.subaction_path, LEFT_HAND);
    match god.action_state {
        ActionState::Boolean(b) => {
            assert!(!b.current_state);
            assert!(b.is_active);
            assert!(!b.changed_since_last_sync);
        }
        _ => panic!("select/click god state must be boolean"),
    }
}

#[test]
fn scenario_two_actions_register_once() {
    let mut reg = make_layer();
    reg.create_action_set(
        INSTANCE,
        APP_SET,
        String::from("gameplay"),
        String::from("Gameplay"),
        0,
    )
    .unwrap();
    reg.create_action(
        APP_SET,
        APP_ACTION,
        String::from("select"),
        String::from("Select"),
        ActionType::BooleanInput,
        vec![LEFT_HAND, RIGHT_HAND],
    )
    .unwrap();
    reg.create_action(
        APP_SET,
        APP_ACTION + 1,
        String::from("aim"),
        String::from("Aim"),
        ActionType::PoseInput,
        vec![LEFT_HAND, RIGHT_HAND],
    )
    .unwrap();
    let set = reg.lookup_action_set(APP_SET).unwrap();
    assert_eq!(set.actions, vec![APP_ACTION, APP_ACTION + 1]);
    assert!(reg.lookup_action(APP_ACTION).is_ok());
    assert!(reg.lookup_action(APP_ACTION + 1).is_ok());
    assert_eq!(
        reg.create_action(
            APP_SET,
            APP_ACTION,
            String::from("select"),
            String::from("Select"),
            ActionType::BooleanInput,
            vec![],
        ),
        Err(LayerError::HandleInvalid)
    );
    let set_again = reg.lookup_action_set(APP_SET).unwrap();
    assert_eq!(set_again.actions, vec![APP_ACTION, APP_ACTION + 1]);
}

#[test]
fn scenario_destroy_instance_with_live_session() {
    let mut reg = make_layer();
    let destroyed = reg.destroy_instance(INSTANCE).unwrap();
    assert_eq!(destroyed.handle, INSTANCE);
    assert!(reg.lookup_instance(INSTANCE).is_err());
    let session = reg.lookup_session(SESSION).unwrap();
    assert_eq!(
        session.instance(&reg).err(),
        Some(LayerError::HandleInvalid)
    );
    assert_eq!(
        reg.destroy_instance(INSTANCE).err(),
        Some(LayerError::HandleInvalid)
    );
}

#[test]
fn query_without_bindings_is_rest_default() {
    let mut reg = make_layer();
    reg.create_action_set(
        INSTANCE,
        APP_SET,
        String::from("gameplay"),
        String::from("Gameplay"),
        0,
    )
    .unwrap();
    reg.create_action(
        APP_SET,
        APP_ACTION,
        String::from("select"),
        String::from("Select"),
        ActionType::BooleanInput,
        vec![LEFT_HAND],
    )
    .unwrap();
    reg.attach_session_action_sets(SESSION, &vec![APP_SET]).unwrap();
    let st = reg
        .get_action_state_boolean(SESSION, APP_ACTION, LEFT_HAND)
        .unwrap();
    assert!(!st.current_state);
    assert!(!st.is_active);
    assert!(!st.changed_since_last_sync);
    let f = reg
        .get_action_state_float(SESSION, APP_ACTION, LEFT_HAND)
        .unwrap();
    assert_eq!(f.current_state_bits, 0);
    assert!(!f.is_active);
}

#[test]
fn sync_refreshes_bound_action() {
    let mut reg = make_layer();
    let set = build_god_set();
    let select_left = binding_value_of(&set, "/user/hand/left/input/select/click");
    reg.create_action_set(
        INSTANCE,
        APP_SET,
        String::from("gameplay"),
        String::from("Gameplay"),
        0,
    )
    .unwrap();
    reg.create_action(
        APP_SET,
        APP_ACTION,
        String::from("select"),
        String::from("Select"),
        ActionType::BooleanInput,
        vec![LEFT_HAND],
    )
    .unwrap();
    reg.suggest_interaction_profile_bindings(
        INSTANCE,
        PROFILE_PATH_VALUE,
        &vec![(APP_ACTION, select_left)],
    )
    .unwrap();
    reg.attach_session_action_sets(SESSION, &vec![APP_SET]).unwrap();

    let pressed = BooleanState {
        current_state: true,
        changed_since_last_sync: true,
        is_active: true,
    };
    reg.sync_actions(
        SESSION,
        &vec![SyncReading {
            profile: PROFILE_PATH_VALUE,
            binding: select_left,
            state: ActionState::Boolean(pressed),
        }],
    )
    .unwrap();

    let st = reg
        .get_action_state_boolean(SESSION, APP_ACTION, LEFT_HAND)
        .unwrap();
    assert_eq!(st, pressed);
    let again = reg
        .get_action_state_boolean(SESSION, APP_ACTION, LEFT_HAND)
        .unwrap();
    assert_eq!(st, again);

    let session = reg.lookup_session(SESSION).unwrap();
    let god = session
        .get_god_state(PROFILE_PATH_VALUE, select_left)
        .unwrap();
    assert_eq!(god.action_state, ActionState::Boolean(pressed));

    let released = BooleanState {
        current_state: false,
        changed_since_last_sync: true,
        is_active: true,
    };
    reg.sync_actions(
        SESSION,
        &vec![SyncReading {
            profile: PROFILE_PATH_VALUE,
            binding: select_left,
            state: ActionState::Boolean(released),
        }],
    )
    .unwrap();
    let st2 = reg
        .get_action_state_boolean(SESSION, APP_ACTION, LEFT_HAND)
        .unwrap();
    assert_eq!(st2, released);
}

#[test]
fn sync_rejects_kind_mismatch() {
    let mut reg = make_layer();
    let set = build_god_set();
    let select_left = binding_value_of(&set, "/user/hand/left/input/select/click");
    let wrong = SyncReading {
        profile: PROFILE_PATH_VALUE,
        binding: select_left,
        state: ActionState::Float(FloatState {
            current_state_bits: 0,
            changed_since_last_sync: false,
            is_active: true,
        }),
    };
    assert_eq!(
        reg.sync_actions(SESSION, &vec![wrong]),
        Err(LayerError::TypeMismatch)
    );
}

#[test]
fn attach_twice_is_refused() {
    let mut reg = make_layer();
    reg.create_action_set(
        INSTANCE,
        APP_SET,
        String::from("gameplay"),
        String::from("Gameplay"),
        0,
    )
    .unwrap();
    reg.attach_session_action_sets(SESSION, &vec![APP_SET]).unwrap();
    assert_eq!(
        reg.attach_session_action_sets(SESSION, &vec![APP_SET]),
        Err(LayerError::ActionsetsAlreadyAttached)
    );
}

#[test]
fn lookups_of_unknown_handles_fail() {
    let reg = HandleRegistry::new();
    assert_eq!(reg.lookup_instance(77).err(), Some(LayerError::HandleInvalid));
    assert_eq!(reg.lookup_session(77).err(), Some(LayerError::HandleInvalid));
    assert_eq!(
        reg.lookup_action_set(77).err(),
        Some(LayerError::HandleInvalid)
    );
    assert_eq!(reg.lookup_action(77).err(), Some(LayerError::HandleInvalid));
}

#[test]
fn suggest_replaces_earlier_suggestion() {
    let mut reg = make_layer();
    let set = build_god_set();
    let select_left = binding_value_of(&set, "/user/hand/left/input/select/click");
    let select_right = binding_value_of(&set, "/user/hand/right/input/select/click");
    reg.create_action_set(
        INSTANCE,
        APP_SET,
        String::from("gameplay"),
        String::from("Gameplay"),
        0,
    )
    .unwrap();
    reg.create_action(
        APP_SET,
        APP_ACTION,
        String::from("select"),
        String::from("Select"),
        ActionType::BooleanInput,
        vec![LEFT_HAND, RIGHT_HAND],
    )
    .unwrap();
    reg.suggest_interaction_profile_bindings(
        INSTANCE,
        PROFILE_PATH_VALUE,
        &vec![(APP_ACTION, select_left)],
    )
    .unwrap();
    reg.suggest_interaction_profile_bindings(
        INSTANCE,
        PROFILE_PATH_VALUE,
        &vec![(APP_ACTION, select_right)],
    )
    .unwrap();
    reg.attach_session_action_sets(SESSION, &vec![APP_SET]).unwrap();
    let pressed = BooleanState {
        current_state: true,
        changed_since_last_sync: true,
        is_active: true,
    };
    reg.sync_actions(
        SESSION,
        &vec![
            SyncReading {
                profile: PROFILE_PATH_VALUE,
                binding: select_left,
                state: ActionState::Boolean(pressed),
            },
            SyncReading {
                profile: PROFILE_PATH_VALUE,
                binding: select_right,
                state: ActionState::Boolean(pressed),
            },
        ],
    )
    .unwrap();
    let left = reg
        .get_action_state_boolean(SESSION, APP_ACTION, LEFT_HAND)
        .unwrap();
    assert!(!left.current_state);
    assert!(!left.is_active);
    let right = reg
        .get_action_state_boolean(SESSION, APP_ACTION, RIGHT_HAND)
        .unwrap();
    assert_eq!(right, pressed);
}

#[test]
fn pose_query_follows_sync() {
    let mut reg = make_layer();
    let set = build_god_set();
    let grip_left = binding_value_of(&set, "/user/hand/left/input/grip/pose");
    reg.create_action_set(
        INSTANCE,
        APP_SET,
        String::from("gameplay"),
        String::from("Gameplay"),
        0,
    )
    .unwrap();
    reg.create_action(
        APP_SET,
        APP_ACTION,
        String::from("grip"),
        String::from("Grip"),
        ActionType::PoseInput,
        vec![LEFT_HAND],
    )
    .unwrap();
    reg.suggest_interaction_profile_bindings(
        INSTANCE,
        PROFILE_PATH_VALUE,
        &vec![(APP_ACTION, grip_left)],
    )
    .unwrap();
    reg.attach_session_action_sets(SESSION, &vec![APP_SET]).unwrap();
    reg.sync_actions(
        SESSION,
        &vec![SyncReading {
            profile: PROFILE_PATH_VALUE,
            binding: grip_left,
            state: ActionState::Pose(oxidexr::god_actions::PoseState { is_active: true }),
        }],
    )
    .unwrap();
    let pose = reg
        .get_action_state_pose(SESSION, APP_ACTION, LEFT_HAND)
        .unwrap();
    assert!(pose.is_active);
    let as_bool = reg
        .get_action_state_boolean(SESSION, APP_ACTION, LEFT_HAND)
        .unwrap();
    assert!(!as_bool.is_active);
}

#[test]
fn float_bits_round_trip_through_cache() {
    let mut reg = make_layer();
    let set = build_god_set();
    let select_left = binding_value_of(&set, "/user/hand/left/input/select/click");
    let session_before = reg.lookup_session(SESSION).unwrap();
    assert!(session_before
        .get_god_state(PROFILE_PATH_VALUE, select_left)
        .is_some());
    let half = 0.5f32;
    let reading = SyncReading {
        profile: PROFILE_PATH_VALUE,
        binding: select_left,
        state: ActionState::Float(FloatState {
            current_state_bits: half.to_bits(),
            changed_since_last_sync: true,
            is_active: true,
        }),
    };
    assert_eq!(
        reg.sync_actions(SESSION, &vec![reading]),
        Err(LayerError::TypeMismatch)
    );
    let session_after = reg.lookup_session(SESSION).unwrap();
    let god = session_after
        .get_god_state(PROFILE_PATH_VALUE, select_left)
        .unwrap();
    match god.action_state {
        ActionState::Boolean(b) => assert!(!b.current_state),
        _ => panic!("failed sync must not change the god state"),
    }
    assert_eq!(f32::from_bits(half.to_bits()), half);
}

#[test]
fn destroyed_children_fail_gracefully() {
    let mut reg = make_layer();
    reg.create_action_set(
        INSTANCE,
        APP_SET,
        String::from("gameplay"),
        String::from("Gameplay"),
        0,
    )
    .unwrap();
    reg.create_action(
        APP_SET,
        APP_ACTION,
        String::from("select"),
        String::from("Select"),
        ActionType::BooleanInput,
        vec![LEFT_HAND],
    )
    .unwrap();
    let destroyed = reg.destroy_action(APP_ACTION).unwrap();
    assert_eq!(destroyed.handle, APP_ACTION);
    assert!(reg.lookup_action(APP_ACTION).is_err());
    let set = reg.lookup_action_set(APP_SET).unwrap();
    assert_eq!(set.actions, vec![APP_ACTION]);
    assert_eq!(
        reg.destroy_action(APP_ACTION).err(),
        Some(LayerError::HandleInvalid)
    );
    let gone = reg.destroy_action_set(APP_SET).unwrap();
    assert_eq!(gone.handle, APP_SET);
    assert!(reg.lookup_action_set(APP_SET).is_err());
    let session = reg.destroy_session(SESSION).unwrap();
    assert_eq!(session.handle, SESSION);
    assert!(reg.lookup_session(SESSION).is_err());
}

#[test]
fn every_input_feature_has_a_seeded_god_state() {
    let reg = make_layer();
    let set = build_god_set();
    let requests = binding_requests(&set);
    let resolved = resolve_requests(&set);
    let session = reg.lookup_session(SESSION).unwrap();
    for (k, req) in requests.iter().enumerate() {
        let god = session
            .get_god_state(PROFILE_PATH_VALUE, resolved[k].0)
            .expect("every requested binding has a god state");
        assert_eq!(god.name, req.binding_string);
        assert_eq!(god.action_handle, req.action_handle);
        assert_eq!(god.subaction_path, resolved[k].1);
        match (&req.action_type, &god.action_state) {
            (ActionType::BooleanInput, ActionState::Boolean(b)) => {
                assert!(!b.current_state && b.is_active && !b.changed_since_last_sync);
            }
            (ActionType::PoseInput, ActionState::Pose(p)) => assert!(p.is_active),
            (t, s) => panic!("kind mismatch between request {:?} and state {:?}", t, s),
        }
    }
}
