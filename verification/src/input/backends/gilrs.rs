//! Decisions of the gilrs gamepad backend.
use vstd::prelude::*;
use crate::input::backends::{contains_text, str_contains, ControllerType};
use crate::text::{lowercase, to_lowercase};

verus! {

/// The family a gilrs gamepad name suggests, matched case-insensitively.
pub open spec fn gilrs_controller_type(name: Seq<char>) -> ControllerType {
    let l = lowercase(name);
    if contains_text(l, "xbox"@) {
        ControllerType::Xbox
    } else if contains_text(l, "playstation"@) || contains_text(l, "dualshock"@) {
        ControllerType::PlayStation
    } else if contains_text(l, "switch"@) || contains_text(l, "pro controller"@) {
        ControllerType::SwitchPro
    } else {
        ControllerType::Generic
    }
}

/// The family a gamepad name suggests: `xbox`; `playstation` or `dualshock`;
/// `switch` or `pro controller`; else generic (case-insensitive).
pub fn detect_controller_type(name: &str) -> (r: ControllerType)
    ensures
        r == gilrs_controller_type(name@),
{
    let lower = to_lowercase(name);
    let l = lower.as_str();
    if str_contains(l, "xbox") {
        ControllerType::Xbox
    } else if str_contains(l, "playstation") || str_contains(l, "dualshock") {
        ControllerType::PlayStation
    } else if str_contains(l, "switch") || str_contains(l, "pro controller") {
        ControllerType::SwitchPro
    } else {
        ControllerType::Generic
    }
}


/// A name is classified by the first family whose keyword it contains,
/// ignoring case: Xbox (xbox), then PlayStation
/// (playstation, dualshock), then Switch Pro (switch, pro controller); a name
/// with none of them is generic.
pub proof fn lemma_gilrs_families(name: Seq<char>)
    ensures
        ({
            let l = lowercase(name);
            &&& (contains_text(l, "xbox"@)) ==> gilrs_controller_type(name) == ControllerType::Xbox
            &&& (!contains_text(l, "xbox"@)) && (contains_text(l, "playstation"@) || contains_text(l, "dualshock"@)) ==> gilrs_controller_type(name) == ControllerType::PlayStation
            &&& (!contains_text(l, "xbox"@)) && (!contains_text(l, "playstation"@) && !contains_text(l, "dualshock"@)) && (contains_text(l, "switch"@) || contains_text(l, "pro controller"@)) ==> gilrs_controller_type(name) == ControllerType::SwitchPro
            &&& (!contains_text(l, "xbox"@)) && (!contains_text(l, "playstation"@) && !contains_text(l, "dualshock"@)) && (!contains_text(l, "switch"@) && !contains_text(l, "pro controller"@)) ==> gilrs_controller_type(name) == ControllerType::Generic
        }),
{
}

} // verus!
