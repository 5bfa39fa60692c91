//! The integer parts of a GameCube mapping (which axes drive the sticks and
//! triggers) and their saved-profile form.
use vstd::prelude::*;

verus! {

/// Which raw axes drive one stick, and whether each is inverted.
#[derive(Clone, Copy, Debug, PartialEq, Eq, Structural)]
pub struct AxisMapping {
    pub x_axis: usize,
    pub y_axis: usize,
    pub invert_x: bool,
    pub invert_y: bool,
}

/// The axes of both sticks.
#[derive(Clone, Copy, Debug, PartialEq, Eq, Structural)]
pub struct StickMappings {
    pub left_stick: AxisMapping,
    pub right_stick: AxisMapping,
}

/// Which raw triggers drive L and R.
#[derive(Clone, Copy, Debug, PartialEq, Eq, Structural)]
pub struct TriggerMappings {
    pub left_trigger: usize,
    pub right_trigger: usize,
}

/// Saved-profile form of an [`AxisMapping`].
#[derive(Clone, Copy, Debug, PartialEq, Eq, Structural)]
pub struct SerializedAxisMapping {
    pub x_axis: usize,
    pub y_axis: usize,
    pub invert_x: bool,
    pub invert_y: bool,
}

/// Saved-profile form of [`StickMappings`].
#[derive(Clone, Copy, Debug, PartialEq, Eq, Structural)]
pub struct SerializedSticks {
    pub left: SerializedAxisMapping,
    pub right: SerializedAxisMapping,
}

/// Saved-profile form of [`TriggerMappings`].
#[derive(Clone, Copy, Debug, PartialEq, Eq, Structural)]
pub struct SerializedTriggers {
    pub left: usize,
    pub right: usize,
}

impl AxisMapping {
    /// The Xbox layout's axes: left stick on 0/1, right on 2/3, Y inverted.
    pub fn xbox_sticks() -> (r: StickMappings)
        ensures
            r == (StickMappings {
                left_stick: AxisMapping { x_axis: 0, y_axis: 1, invert_x: false, invert_y: true },
                right_stick: AxisMapping { x_axis: 2, y_axis: 3, invert_x: false, invert_y: true },
            }),
    {
        StickMappings {
            left_stick: AxisMapping { x_axis: 0, y_axis: 1, invert_x: false, invert_y: true },
            right_stick: AxisMapping { x_axis: 2, y_axis: 3, invert_x: false, invert_y: true },
        }
    }

    /// The adapter layout's axes: main stick on 0/1, C stick on 2/3, none inverted.
    pub fn adapter_sticks() -> (r: StickMappings)
        ensures
            r == (StickMappings {
                left_stick: AxisMapping { x_axis: 0, y_axis: 1, invert_x: false, invert_y: false },
                right_stick: AxisMapping { x_axis: 2, y_axis: 3, invert_x: false, invert_y: false },
            }),
    {
        StickMappings {
            left_stick: AxisMapping { x_axis: 0, y_axis: 1, invert_x: false, invert_y: false },
            right_stick: AxisMapping { x_axis: 2, y_axis: 3, invert_x: false, invert_y: false },
        }
    }
}

impl TriggerMappings {
    /// L on raw trigger 0, R on raw trigger 1 (every default layout).
    pub fn default_triggers() -> (r: TriggerMappings)
        ensures
            r == (TriggerMappings { left_trigger: 0, right_trigger: 1 }),
    {
        TriggerMappings { left_trigger: 0, right_trigger: 1 }
    }
}

/// The saved form of one stick's axes.
pub fn serialize_axis(m: &AxisMapping) -> (r: SerializedAxisMapping)
    ensures
        r == (SerializedAxisMapping { x_axis: m.x_axis, y_axis: m.y_axis, invert_x: m.invert_x, invert_y: m.invert_y }),
{
    SerializedAxisMapping { x_axis: m.x_axis, y_axis: m.y_axis, invert_x: m.invert_x, invert_y: m.invert_y }
}

/// One stick's axes from their saved form.
pub fn deserialize_axis(m: &SerializedAxisMapping) -> (r: AxisMapping)
    ensures
        r == (AxisMapping { x_axis: m.x_axis, y_axis: m.y_axis, invert_x: m.invert_x, invert_y: m.invert_y }),
{
    AxisMapping { x_axis: m.x_axis, y_axis: m.y_axis, invert_x: m.invert_x, invert_y: m.invert_y }
}

/// The saved form of the stick axes.
pub fn serialize_sticks(m: &StickMappings) -> (r: SerializedSticks)
    ensures
        r == (SerializedSticks { left: serialize_axis_spec(m.left_stick), right: serialize_axis_spec(m.right_stick) }),
{
    SerializedSticks { left: serialize_axis(&m.left_stick), right: serialize_axis(&m.right_stick) }
}

/// The stick axes from their saved form.
pub fn deserialize_sticks(m: &SerializedSticks) -> (r: StickMappings)
    ensures
        r == (StickMappings { left_stick: deserialize_axis_spec(m.left), right_stick: deserialize_axis_spec(m.right) }),
{
    StickMappings { left_stick: deserialize_axis(&m.left), right_stick: deserialize_axis(&m.right) }
}

/// The saved form of the trigger assignment.
pub fn serialize_triggers(m: &TriggerMappings) -> (r: SerializedTriggers)
    ensures
        r == (SerializedTriggers { left: m.left_trigger, right: m.right_trigger }),
{
    SerializedTriggers { left: m.left_trigger, right: m.right_trigger }
}

/// The trigger assignment from its saved form.
pub fn deserialize_triggers(m: &SerializedTriggers) -> (r: TriggerMappings)
    ensures
        r == (TriggerMappings { left_trigger: m.left, right_trigger: m.right }),
{
    TriggerMappings { left_trigger: m.left, right_trigger: m.right }
}

/// Field-for-field saved form of an axis mapping.
pub open spec fn serialize_axis_spec(m: AxisMapping) -> SerializedAxisMapping {
    SerializedAxisMapping { x_axis: m.x_axis, y_axis: m.y_axis, invert_x: m.invert_x, invert_y: m.invert_y }
}

/// Field-for-field axis mapping of a saved form.
pub open spec fn deserialize_axis_spec(m: SerializedAxisMapping) -> AxisMapping {
    AxisMapping { x_axis: m.x_axis, y_axis: m.y_axis, invert_x: m.invert_x, invert_y: m.invert_y }
}

/// Saving then loading stick and trigger assignments gives them back.
pub proof fn lemma_profile_axes_round_trip(s: StickMappings, t: TriggerMappings)
    ensures
        (StickMappings {
            left_stick: deserialize_axis_spec(serialize_axis_spec(s.left_stick)),
            right_stick: deserialize_axis_spec(serialize_axis_spec(s.right_stick)),
        }) == s,
        (TriggerMappings { left_trigger: t.left_trigger, right_trigger: t.right_trigger }) == t,
{
}

/// Saving a profile then reading its type back gives the same type, except
/// the keyboard type, which a profile reads back as generic.
pub proof fn lemma_profile_type_round_trip(t: crate::input::backends::ControllerType)
    ensures
        crate::input::backends::type_from_profile_name(crate::input::backends::profile_name(t))
            == if t == crate::input::backends::ControllerType::Keyboard { crate::input::backends::ControllerType::Generic } else { t },
{
    reveal_strlit("GameCubeAdapter");
    reveal_strlit("Xbox");
    reveal_strlit("PlayStation");
    reveal_strlit("SwitchPro");
    reveal_strlit("Generic");
    reveal_strlit("Keyboard");
    let g = "GameCubeAdapter"@;
    let x = "Xbox"@;
    let p = "PlayStation"@;
    let w = "SwitchPro"@;
    let n = "Generic"@;
    let k = "Keyboard"@;
    assert(g.len() == 15 && x.len() == 4 && p.len() == 11 && w.len() == 9 && n.len() == 7 && k.len() == 8);
    assert(p != w && p != g && w != g) by {
        assert(p[0] != w[0]);
        assert(p.len() != g.len());
        assert(w.len() != g.len());
    }
    assert(n != g && n != x && n != p && n != w) by {
        assert(n.len() != g.len() && n.len() != x.len() && n.len() != p.len() && n.len() != w.len());
    }
    assert(k != g && k != x && k != p && k != w) by {
        assert(k.len() != g.len() && k.len() != x.len() && k.len() != p.len() && k.len() != w.len());
    }
    assert(x != g && x != p && x != w) by {
        assert(x.len() != g.len() && x.len() != p.len() && x.len() != w.len());
    }
}

} // verus!
