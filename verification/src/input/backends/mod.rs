//! What input backends report about controllers.
pub mod gamecube_adapter;
pub mod gilrs;
pub mod sdl2;
pub mod xinput;

use vstd::prelude::*;

verus! {

/// A connected controller as a backend describes it.
#[derive(Debug)]
pub struct ControllerInfo {
    pub id: usize,
    pub name: String,
    pub controller_type: ControllerType,
    pub button_count: usize,
    pub axis_count: usize,
}

impl ControllerInfo {
    /// A copy with the same fields.
    pub fn duplicate(&self) -> (r: ControllerInfo)
        ensures
            r == *self,
    {
        ControllerInfo {
            id: self.id,
            name: self.name.clone(),
            controller_type: self.controller_type,
            button_count: self.button_count,
            axis_count: self.axis_count,
        }
    }
}

/// The family a controller belongs to.
#[derive(Clone, Copy, Debug, PartialEq, Eq, Structural)]
pub enum ControllerType {
    GameCubeAdapter,
    Xbox,
    PlayStation,
    SwitchPro,
    Generic,
    Keyboard,
}

/// The name a controller type has in a saved profile (its `Debug` spelling).
pub open spec fn profile_name(t: ControllerType) -> Seq<char> {
    match t {
        ControllerType::GameCubeAdapter => "GameCubeAdapter"@,
        ControllerType::Xbox => "Xbox"@,
        ControllerType::PlayStation => "PlayStation"@,
        ControllerType::SwitchPro => "SwitchPro"@,
        ControllerType::Generic => "Generic"@,
        ControllerType::Keyboard => "Keyboard"@,
    }
}

/// The controller type a saved profile names: the four specific families by
/// name, anything else generic.
pub open spec fn type_from_profile_name(s: Seq<char>) -> ControllerType {
    if s == "GameCubeAdapter"@ {
        ControllerType::GameCubeAdapter
    } else if s == "Xbox"@ {
        ControllerType::Xbox
    } else if s == "PlayStation"@ {
        ControllerType::PlayStation
    } else if s == "SwitchPro"@ {
        ControllerType::SwitchPro
    } else {
        ControllerType::Generic
    }
}

impl ControllerType {
    /// The name this type has in a saved profile.
    pub fn profile_name(&self) -> (r: String)
        ensures
            r@ == profile_name(*self),
    {
        match self {
            ControllerType::GameCubeAdapter => "GameCubeAdapter".to_string(),
            ControllerType::Xbox => "Xbox".to_string(),
            ControllerType::PlayStation => "PlayStation".to_string(),
            ControllerType::SwitchPro => "SwitchPro".to_string(),
            ControllerType::Generic => "Generic".to_string(),
            ControllerType::Keyboard => "Keyboard".to_string(),
        }
    }

    /// The type a saved profile names.
    pub fn from_profile_name(s: &str) -> (r: ControllerType)
        ensures
            r == type_from_profile_name(s@),
    {
        if crate::text::str_eq(s, "GameCubeAdapter") {
            ControllerType::GameCubeAdapter
        } else if crate::text::str_eq(s, "Xbox") {
            ControllerType::Xbox
        } else if crate::text::str_eq(s, "PlayStation") {
            ControllerType::PlayStation
        } else if crate::text::str_eq(s, "SwitchPro") {
            ControllerType::SwitchPro
        } else {
            ControllerType::Generic
        }
    }
}

/// Directional-pad state.
#[derive(Clone, Copy, Debug, PartialEq, Eq, Structural)]
pub struct HatState {
    pub up: bool,
    pub down: bool,
    pub left: bool,
    pub right: bool,
}

/// Whether `pat` occurs in `s` starting at `i`.
pub open spec fn occurs_at(s: Seq<char>, pat: Seq<char>, i: int) -> bool {
    0 <= i && i + pat.len() <= s.len() && s.subrange(i, i + pat.len()) == pat
}

/// Whether `pat` occurs somewhere in `s` (as `str::contains`).
pub open spec fn contains_text(s: Seq<char>, pat: Seq<char>) -> bool {
    exists|i: int| occurs_at(s, pat, i)
}

/// Whether `pat` occurs in `s`.
pub fn str_contains(s: &str, pat: &str) -> (r: bool)
    ensures
        r == contains_text(s@, pat@),
{
    let cs = crate::text::str_chars(s);
    let ps = crate::text::str_chars(pat);
    let n = cs.len();
    let m = ps.len();
    if m > n {
        assert forall|i: int| !occurs_at(s@, pat@, i) by {}
        return false;
    }
    let mut i: usize = 0;
    while i <= n - m
        invariant
            cs@ == s@,
            ps@ == pat@,
            n == s@.len(),
            m == pat@.len(),
            m <= n,
            i <= n - m + 1,
            forall|j: int| 0 <= j < i ==> !occurs_at(s@, pat@, j),
        decreases n - i,
    {
        let mut k: usize = 0;
        while k < m && cs[i + k] == ps[k]
            invariant
                cs@ == s@,
                ps@ == pat@,
                i + m <= n,
                m == pat@.len(),
                n == s@.len(),
                k <= m,
                forall|t: int| 0 <= t < k ==> s@[i + t] == pat@[t],
            decreases m - k,
        {
            k = k + 1;
        }
        if k == m {
            assert(s@.subrange(i as int, i + m) =~= pat@);
            assert(occurs_at(s@, pat@, i as int));
            return true;
        }
        assert(!occurs_at(s@, pat@, i as int)) by {
            if occurs_at(s@, pat@, i as int) {
                assert(s@.subrange(i as int, i + m)[k as int] == s@[i + k]);
            }
        }
        i = i + 1;
    }
    assert forall|j: int| !occurs_at(s@, pat@, j) by {
        if 0 <= j && j + m <= n {
            assert(j < i);
        }
    }
    false
}

} // verus!
