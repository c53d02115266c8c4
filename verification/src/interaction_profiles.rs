//! The interaction-profile catalogue schema: profiles, their physical
//! input/output locations (subpaths), and the features each location exposes.

use vstd::prelude::*;

use crate::text::str_eq;
use crate::xrapplication_info::ActionType;

verus! {

/// One measurable or controllable aspect of a subpath. Tags outside the
/// closed set round-trip through `Unknown` with their raw string kept.
#[derive(Debug, Clone, PartialEq, Eq)]
pub enum Feature {
    /// A physical switch was pressed; always boolean.
    Click,
    /// The input source is being touched; always boolean.
    Touch,
    /// Force applied to the input, 0 to 1.
    Force,
    /// A 1D analog value, 0 to 1.
    Value,
    /// A 2D position, each axis -1 to 1.
    Position,
    /// Twist of the input source, -1 to 1.
    Twist,
    /// Orientation and/or position of the input source.
    Pose,
    /// A haptic output element.
    Haptic,
    /// A tag this layer does not recognize, kept verbatim.
    Unknown(String),
}

/// The canonical tag of a feature.
pub open spec fn spec_feature_str(f: Feature) -> Seq<char> {
    match f {
        Feature::Click => "click"@,
        Feature::Touch => "touch"@,
        Feature::Force => "force"@,
        Feature::Value => "value"@,
        Feature::Position => "position"@,
        Feature::Twist => "twist"@,
        Feature::Pose => "pose"@,
        Feature::Haptic => "haptic"@,
        Feature::Unknown(s) => s@,
    }
}

/// The feature a known tag names, or `None` for an unrecognized tag.
pub open spec fn spec_known_feature(s: Seq<char>) -> Option<Feature> {
    if s == "click"@ {
        Some(Feature::Click)
    } else if s == "touch"@ {
        Some(Feature::Touch)
    } else if s == "force"@ {
        Some(Feature::Force)
    } else if s == "value"@ {
        Some(Feature::Value)
    } else if s == "position"@ {
        Some(Feature::Position)
    } else if s == "twist"@ {
        Some(Feature::Twist)
    } else if s == "pose"@ {
        Some(Feature::Pose)
    } else if s == "haptic"@ {
        Some(Feature::Haptic)
    } else {
        None
    }
}

/// The action-value kind a feature deterministically maps to.
pub open spec fn spec_feature_type(f: Feature) -> ActionType {
    match f {
        Feature::Click => ActionType::BooleanInput,
        Feature::Touch => ActionType::BooleanInput,
        Feature::Force => ActionType::FloatInput,
        Feature::Value => ActionType::FloatInput,
        Feature::Twist => ActionType::FloatInput,
        Feature::Position => ActionType::Vector2fInput,
        Feature::Pose => ActionType::PoseInput,
        Feature::Haptic => ActionType::VibrationOutput,
        Feature::Unknown(_) => ActionType::Unknown,
    }
}

impl Feature {
    /// Parses a feature tag; an unrecognized tag is kept verbatim.
    pub fn from_str(string: &str) -> (f: Feature)
        ensures
            spec_known_feature(string@) is Some ==> Some(f) == spec_known_feature(string@),
            spec_known_feature(string@) is None ==> (f matches Feature::Unknown(t) && t@
                == string@),
            spec_feature_str(f) == string@,
    {
        if str_eq(string, "click") {
            Feature::Click
        } else if str_eq(string, "touch") {
            Feature::Touch
        } else if str_eq(string, "force") {
            Feature::Force
        } else if str_eq(string, "value") {
            Feature::Value
        } else if str_eq(string, "position") {
            Feature::Position
        } else if str_eq(string, "twist") {
            Feature::Twist
        } else if str_eq(string, "pose") {
            Feature::Pose
        } else if str_eq(string, "haptic") {
            Feature::Haptic
        } else {
            Feature::Unknown(string.to_owned())
        }
    }

    /// The feature's tag; an unrecognized feature returns its raw string.
    pub fn to_str<'a>(&'a self) -> (r: &'a str)
        ensures
            r@ == spec_feature_str(*self),
    {
        match self {
            Feature::Click => "click",
            Feature::Touch => "touch",
            Feature::Force => "force",
            Feature::Value => "value",
            Feature::Position => "position",
            Feature::Twist => "twist",
            Feature::Pose => "pose",
            Feature::Haptic => "haptic",
            Feature::Unknown(s) => s.as_str(),
        }
    }

    /// The action-value kind this feature maps to.
    pub fn get_type(&self) -> (t: ActionType)
        ensures
            t == spec_feature_type(*self),
    {
        match self {
            Feature::Click | Feature::Touch => ActionType::BooleanInput,
            Feature::Force | Feature::Value | Feature::Twist => ActionType::FloatInput,
            Feature::Position => ActionType::Vector2fInput,
            Feature::Pose => ActionType::PoseInput,
            Feature::Haptic => ActionType::VibrationOutput,
            Feature::Unknown(_) => ActionType::Unknown,
        }
    }
}

/// Two character sequences differing at one position are different.
proof fn lemma_seq_neq_at(a: Seq<char>, b: Seq<char>, i: int)
    requires
        0 <= i < a.len(),
        0 <= i < b.len(),
        a[i] != b[i],
    ensures
        a != b,
{
    if a == b {
        assert(a[i] == b[i]);
    }
}

/// Two character sequences of different length are different.
proof fn lemma_seq_neq_len(a: Seq<char>, b: Seq<char>)
    requires
        a.len() != b.len(),
    ensures
        a != b,
{
    if a == b {
        assert(a.len() == b.len());
    }
}

/// The known feature tags are pairwise distinct.
proof fn lemma_tags_distinct()
    ensures
        "touch"@ != "click"@,
        "force"@ != "click"@,
        "force"@ != "touch"@,
        "value"@ != "click"@,
        "value"@ != "touch"@,
        "value"@ != "force"@,
        "position"@ != "click"@,
        "position"@ != "touch"@,
        "position"@ != "force"@,
        "position"@ != "value"@,
        "twist"@ != "click"@,
        "twist"@ != "touch"@,
        "twist"@ != "force"@,
        "twist"@ != "value"@,
        "twist"@ != "position"@,
        "pose"@ != "click"@,
        "pose"@ != "touch"@,
        "pose"@ != "force"@,
        "pose"@ != "value"@,
        "pose"@ != "position"@,
        "pose"@ != "twist"@,
        "haptic"@ != "click"@,
        "haptic"@ != "touch"@,
        "haptic"@ != "force"@,
        "haptic"@ != "value"@,
        "haptic"@ != "position"@,
        "haptic"@ != "twist"@,
        "haptic"@ != "pose"@,
{
    reveal_strlit("click");
    reveal_strlit("touch");
    reveal_strlit("force");
    reveal_strlit("value");
    reveal_strlit("position");
    reveal_strlit("twist");
    reveal_strlit("pose");
    reveal_strlit("haptic");
    lemma_seq_neq_at("touch"@, "click"@, 0);
    lemma_seq_neq_at("force"@, "click"@, 0);
    lemma_seq_neq_at("force"@, "touch"@, 0);
    lemma_seq_neq_at("value"@, "click"@, 0);
    lemma_seq_neq_at("value"@, "touch"@, 0);
    lemma_seq_neq_at("value"@, "force"@, 0);
    lemma_seq_neq_len("position"@, "click"@);
    lemma_seq_neq_len("position"@, "touch"@);
    lemma_seq_neq_len("position"@, "force"@);
    lemma_seq_neq_len("position"@, "value"@);
    lemma_seq_neq_at("twist"@, "click"@, 0);
    lemma_seq_neq_at("twist"@, "touch"@, 1);
    lemma_seq_neq_at("twist"@, "force"@, 0);
    lemma_seq_neq_at("twist"@, "value"@, 0);
    lemma_seq_neq_len("twist"@, "position"@);
    lemma_seq_neq_len("pose"@, "click"@);
    lemma_seq_neq_len("pose"@, "touch"@);
    lemma_seq_neq_len("pose"@, "force"@);
    lemma_seq_neq_len("pose"@, "value"@);
    lemma_seq_neq_len("pose"@, "position"@);
    lemma_seq_neq_len("pose"@, "twist"@);
    lemma_seq_neq_len("haptic"@, "click"@);
    lemma_seq_neq_len("haptic"@, "touch"@);
    lemma_seq_neq_len("haptic"@, "force"@);
    lemma_seq_neq_len("haptic"@, "value"@);
    lemma_seq_neq_len("haptic"@, "position"@);
    lemma_seq_neq_len("haptic"@, "twist"@);
    lemma_seq_neq_len("haptic"@, "pose"@);
}

/// Parsing the tag of a known feature gives that feature back.
pub proof fn lemma_feature_round_trip(f: Feature)
    requires
        !(f is Unknown),
    ensures
        spec_known_feature(spec_feature_str(f)) == Some(f),
{
    lemma_tags_distinct();
}

/// Printing the parse of any tag gives the tag back unchanged; in particular
/// an unknown tag round-trips its raw string.
pub proof fn lemma_feature_str_round_trip(s: Seq<char>)
    ensures
        match spec_known_feature(s) {
            Some(f) => spec_feature_str(f) == s,
            None => true,
        },
{
}

/// A physical input or output location within a profile.
#[derive(Debug, Clone)]
pub struct Subpath {
    /// The location's path relative to the user path, e.g. "/input/trigger".
    pub path: String,
    /// The kind tag of the location (button, trigger, joystick, ...).
    pub kind: String,
    /// Human-readable label.
    pub localized_name: String,
    /// Restriction to one side ("left" or "right"), or none.
    pub side: Option<String>,
    /// The features the location exposes, in catalogue order.
    pub features: Vec<Feature>,
}

/// One hardware interaction profile of the catalogue.
#[derive(Debug, Clone)]
pub struct InteractionProfile {
    /// The profile's unique path, e.g. "/interaction_profiles/khr/simple_controller".
    pub path: String,
    /// Display title.
    pub title: String,
    /// The top-level user paths the profile declares, e.g. "/user/hand/left".
    pub subaction_paths: Vec<String>,
    /// The profile's locations, in catalogue order, with unique paths.
    pub subpaths: Vec<Subpath>,
}

/// The whole immutable catalogue, loaded once at process start.
#[derive(Debug, Clone)]
pub struct Root {
    /// The known profiles, with unique paths.
    pub profiles: Vec<InteractionProfile>,
}

} // verus!
