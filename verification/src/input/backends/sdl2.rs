//! Decisions of the SDL game-controller backend.
use vstd::prelude::*;
use crate::input::backends::{contains_text, str_contains, ControllerType};
use crate::text::{lowercase, to_lowercase};

verus! {

/// The family an SDL controller name suggests, matched case-insensitively.
pub open spec fn sdl_controller_type(name: Seq<char>) -> ControllerType {
    let l = lowercase(name);
    if contains_text(l, "xbox"@) || contains_text(l, "xinput"@) {
        ControllerType::Xbox
    } else if contains_text(l, "playstation"@) || contains_text(l, "dualshock"@) || contains_text(l, "dualsense"@) {
        ControllerType::PlayStation
    } else if contains_text(l, "switch"@) || contains_text(l, "pro controller"@) {
        ControllerType::SwitchPro
    } else {
        ControllerType::Generic
    }
}

/// The family a controller name suggests: `xbox` or `xinput`; `playstation`,
/// `dualshock` or `dualsense`; `switch` or `pro controller`; else generic
/// (case-insensitive).
pub fn detect_controller_type(name: &str) -> (r: ControllerType)
    ensures
        r == sdl_controller_type(name@),
{
    let lower = to_lowercase(name);
    let l = lower.as_str();
    if str_contains(l, "xbox") || str_contains(l, "xinput") {
        ControllerType::Xbox
    } else if str_contains(l, "playstation") || str_contains(l, "dualshock") || str_contains(l, "dualsense") {
        ControllerType::PlayStation
    } else if str_contains(l, "switch") || str_contains(l, "pro controller") {
        ControllerType::SwitchPro
    } else {
        ControllerType::Generic
    }
}


/// A name is classified by the first family whose keyword it contains,
/// ignoring case: Xbox (xbox, xinput), then PlayStation
/// (playstation, dualshock, dualsense), then Switch Pro (switch, pro controller); a name
/// with none of them is generic.
pub proof fn lemma_sdl_families(name: Seq<char>)
    ensures
        ({
            let l = lowercase(name);
            &&& (contains_text(l, "xbox"@) || contains_text(l, "xinput"@)) ==> sdl_controller_type(name) == ControllerType::Xbox
            &&& (!contains_text(l, "xbox"@) && !contains_text(l, "xinput"@)) && (contains_text(l, "playstation"@) || contains_text(l, "dualshock"@) || contains_text(l, "dualsense"@)) ==> sdl_controller_type(name) == ControllerType::PlayStation
            &&& (!contains_text(l, "xbox"@) && !contains_text(l, "xinput"@)) && (!contains_text(l, "playstation"@) && !contains_text(l, "dualshock"@) && !contains_text(l, "dualsense"@)) && (contains_text(l, "switch"@) || contains_text(l, "pro controller"@)) ==> sdl_controller_type(name) == ControllerType::SwitchPro
            &&& (!contains_text(l, "xbox"@) && !contains_text(l, "xinput"@)) && (!contains_text(l, "playstation"@) && !contains_text(l, "dualshock"@) && !contains_text(l, "dualsense"@)) && (!contains_text(l, "switch"@) && !contains_text(l, "pro controller"@)) ==> sdl_controller_type(name) == ControllerType::Generic
        }),
{
}

} // verus!
