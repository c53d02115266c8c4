use oxidexr::god_actions::{plan_profile_actions, plan_subpath_actions, ActionState};
use oxidexr::interaction_profiles::{Feature, InteractionProfile, Subpath};
use oxidexr::xrapplication_info::ActionType;

fn simple_controller() -> InteractionProfile {
    InteractionProfile {
        path: String::from("/interaction_profiles/khr/simple_controller"),
        title: String::from("Khronos Simple Controller"),
        subaction_paths: vec![
            String::from("/user/hand/left"),
            String::from("/user/hand/right"),
        ],
        subpaths: vec![
            Subpath {
                path: String::from("/input/select"),
                kind: String::from("button"),
                localized_name: String::from("Select"),
                side: None,
                features: vec![Feature::Click],
            },
            Subpath {
                path: String::from("/input/menu"),
                kind: String::from("button"),
                localized_name: String::from("Menu"),
                side: None,
                features: vec![Feature::Click],
            },
            Subpath {
                path: String::from("/input/grip"),
                kind: String::from("pose"),
                localized_name: String::from("Grip"),
                side: None,
                features: vec![Feature::Pose],
            },
            Subpath {
                path: String::from("/input/aim"),
                kind: String::from("pose"),
                localized_name: String::from("Aim"),
                side: None,
                features: vec![Feature::Pose],
            },
            Subpath {
                path: String::from("/output/haptic"),
                kind: String::from("vibration"),
                localized_name: String::from("Haptic"),
                side: None,
                features: vec![Feature::Haptic],
            },
        ],
    }
}

#[test]
fn feature_round_trip_known_tags() {
    let known = [
        Feature::Click,
        Feature::Touch,
        Feature::Force,
        Feature::Value,
        Feature::Position,
        Feature::Twist,
        Feature::Pose,
        Feature::Haptic,
    ];
    for f in known {
        let s = f.to_str().to_string();
        assert_eq!(Feature::from_str(&s), f);
    }
}

#[test]
fn feature_round_trip_unknown_tag() {
    let f = Feature::from_str("proximity");
    assert_eq!(f, Feature::Unknown(String::from("proximity")));
    assert_eq!(f.to_str(), "proximity");
    assert_eq!(Feature::from_str(f.to_str()), f);
}

#[test]
fn feature_tags_parse_exactly() {
    assert_eq!(Feature::from_str("click"), Feature::Click);
    assert_eq!(Feature::from_str("touch"), Feature::Touch);
    assert_eq!(Feature::from_str("force"), Feature::Force);
    assert_eq!(Feature::from_str("value"), Feature::Value);
    assert_eq!(Feature::from_str("position"), Feature::Position);
    assert_eq!(Feature::from_str("twist"), Feature::Twist);
    assert_eq!(Feature::from_str("pose"), Feature::Pose);
    assert_eq!(Feature::from_str("haptic"), Feature::Haptic);
}

#[test]
fn feature_kinds() {
    assert_eq!(Feature::Click.get_type(), ActionType::BooleanInput);
    assert_eq!(Feature::Touch.get_type(), ActionType::BooleanInput);
    assert_eq!(Feature::Force.get_type(), ActionType::FloatInput);
    assert_eq!(Feature::Value.get_type(), ActionType::FloatInput);
    assert_eq!(Feature::Twist.get_type(), ActionType::FloatInput);
    assert_eq!(Feature::Position.get_type(), ActionType::Vector2fInput);
    assert_eq!(Feature::Pose.get_type(), ActionType::PoseInput);
    assert_eq!(Feature::Haptic.get_type(), ActionType::VibrationOutput);
    assert_eq!(
        Feature::Unknown(String::from("x")).get_type(),
        ActionType::Unknown
    );
}

#[test]
fn rest_states_per_kind() {
    match ActionState::new(ActionType::BooleanInput) {
        Some(ActionState::Boolean(b)) => {
            assert!(!b.current_state);
            assert!(!b.changed_since_last_sync);
            assert!(b.is_active);
        }
        _ => panic!("boolean rest state missing"),
    }
    match ActionState::new(ActionType::FloatInput) {
        Some(ActionState::Float(f)) => {
            assert_eq!(f.current_state_bits, 0);
            assert!(!f.changed_since_last_sync);
        }
        _ => panic!("float rest state missing"),
    }
    match ActionState::new(ActionType::Vector2fInput) {
        Some(ActionState::Vector2f(v)) => {
            assert_eq!(v.x_bits, 0);
            assert_eq!(v.y_bits, 0);
        }
        _ => panic!("vector rest state missing"),
    }
    match ActionState::new(ActionType::PoseInput) {
        Some(ActionState::Pose(p)) => assert!(p.is_active),
        _ => panic!("pose rest state missing"),
    }
    assert!(ActionState::new(ActionType::VibrationOutput).is_none());
    assert!(ActionState::new(ActionType::Unknown).is_none());
}

#[test]
fn plan_names_subpaths_and_features() {
    let p = simple_controller();
    let plans = plan_profile_actions(&p);
    assert_eq!(plans.len(), 5);
    assert_eq!(plans[0].subpath, "/input/select");
    assert_eq!(plans[0].plans.len(), 1);
    assert_eq!(plans[0].plans[0].name, "/input/select/click");
    assert_eq!(plans[0].plans[0].action_type, ActionType::BooleanInput);
    assert_eq!(
        plans[0].plans[0].subaction_paths,
        vec![
            String::from("/user/hand/left"),
            String::from("/user/hand/right")
        ]
    );
    assert_eq!(plans[2].plans[0].name, "/input/grip/pose");
    assert_eq!(plans[2].plans[0].action_type, ActionType::PoseInput);
    assert_eq!(plans[4].plans[0].name, "/output/haptic/haptic");
    assert_eq!(plans[4].plans[0].action_type, ActionType::VibrationOutput);
}

#[test]
fn plan_skips_unknown_features() {
    let sp = Subpath {
        path: String::from("/input/widget"),
        kind: String::from("button"),
        localized_name: String::from("Widget"),
        side: None,
        features: vec![
            Feature::Click,
            Feature::Unknown(String::from("mystery")),
            Feature::Touch,
        ],
    };
    let subactions = vec![String::from("/user/hand/left")];
    let plans = plan_subpath_actions(&subactions, &sp);
    assert_eq!(plans.len(), 2);
    assert_eq!(plans[0].name, "/input/widget/click");
    assert_eq!(plans[1].name, "/input/widget/touch");
}

#[test]
fn plan_respects_side_restriction() {
    let sp = Subpath {
        path: String::from("/input/thumbrest"),
        kind: String::from("trackpad"),
        localized_name: String::from("Thumbrest"),
        side: Some(String::from("left")),
        features: vec![Feature::Touch],
    };
    let subactions = vec![
        String::from("/user/hand/left"),
        String::from("/user/hand/right"),
    ];
    let plans = plan_subpath_actions(&subactions, &sp);
    assert_eq!(plans.len(), 1);
    assert_eq!(
        plans[0].subaction_paths,
        vec![String::from("/user/hand/left")]
    );
}
