//! The XInput backend: SDL owns XInput devices, so this backend reports none.
use vstd::prelude::*;
use crate::input::backends::ControllerInfo;

verus! {

/// The XInput backend.
pub struct XInputBackend;

/// Why an XInput request failed.
#[derive(Clone, Copy, Debug, PartialEq, Eq, Structural)]
pub enum XInputError {
    /// XInput has four slots; this ID is not one of them.
    InvalidControllerId(usize),
}

impl XInputBackend {
    /// The backend; creating it cannot fail.
    pub fn new() -> (r: Result<XInputBackend, XInputError>)
        ensures
            r is Ok,
    {
        Ok(XInputBackend)
    }

    /// The backend's name.
    pub fn name(&self) -> (r: &'static str)
        ensures
            r@ == "XInput"@,
    {
        "XInput"
    }

    /// State is queried on demand, so there is nothing to update.
    pub fn update(&mut self) -> (r: Result<(), XInputError>)
        ensures
            r is Ok,
    {
        Ok(())
    }

    /// No controllers: SDL reports XInput devices.
    pub fn enumerate_controllers(&mut self) -> (r: Result<Vec<ControllerInfo>, XInputError>)
        ensures
            r matches Ok(v) && v@.len() == 0,
    {
        Ok(Vec::new())
    }

    /// Checks a controller ID: XInput has slots 0 to 3.
    pub fn check_controller_id(&self, controller_id: usize) -> (r: Result<(), XInputError>)
        ensures
            r is Ok <==> controller_id < 4,
            r is Err ==> r == Err::<(), XInputError>(XInputError::InvalidControllerId(controller_id)),
    {
        if controller_id >= 4 {
            Err(XInputError::InvalidControllerId(controller_id))
        } else {
            Ok(())
        }
    }
}

} // verus!
