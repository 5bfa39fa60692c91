//! Controller classification, adapter reports and mapping data.

use gcrecomp::input::backends::gamecube_adapter::{
    adapter_controllers, is_input_report, parse_report, rumble_report, set_port_rumble, AdapterError, INPUT_REPORT, REPORT_LEN,
};
use gcrecomp::input::backends::xinput::{XInputBackend, XInputError};
use gcrecomp::input::backends::{gilrs, sdl2, str_contains, ControllerType};
use gcrecomp::input::mapping::{deserialize_sticks, serialize_sticks, AxisMapping};

#[test]
fn controller_names_select_families() {
    assert_eq!(gilrs::detect_controller_type("Xbox Wireless Controller"), ControllerType::Xbox);
    assert_eq!(gilrs::detect_controller_type("Sony DualShock 4"), ControllerType::PlayStation);
    assert_eq!(gilrs::detect_controller_type("Nintendo Switch Pro Controller"), ControllerType::SwitchPro);
    assert_eq!(gilrs::detect_controller_type("XInput Controller"), ControllerType::Generic);
    assert_eq!(sdl2::detect_controller_type("XInput Controller"), ControllerType::Xbox);
    assert_eq!(sdl2::detect_controller_type("DualSense Wireless Controller"), ControllerType::PlayStation);
    assert_eq!(gilrs::detect_controller_type("DualSense Wireless Controller"), ControllerType::Generic);
    assert_eq!(sdl2::detect_controller_type("8BitDo"), ControllerType::Generic);
}

#[test]
fn substring_search() {
    assert!(str_contains("pro controller", "controller"));
    assert!(str_contains("abc", ""));
    assert!(!str_contains("ab", "abc"));
}

#[test]
fn parses_connected_controller_report() {
    let mut report = [0u8; REPORT_LEN];
    report[0] = INPUT_REPORT;
    report[1] = 0x10;
    report[2] = 0x81; // A + D-pad up
    report[3] = 0x06; // Z + R digital
    report[4] = 255;
    report[5] = 0;
    report[6] = 128;
    report[7] = 128;
    report[8] = 64;
    report[9] = 255;
    assert!(is_input_report(REPORT_LEN, report[0]));
    assert!(!is_input_report(REPORT_LEN - 1, report[0]));

    let ports = parse_report(&report);
    let input = ports[0].as_ref().expect("port 1 connected");
    assert!(input.buttons[0]);
    assert!(input.buttons[5]);
    assert!(input.buttons[10]);
    assert!(input.buttons[11]);
    assert!(!input.buttons[1]);
    assert_eq!(input.axes_raw, vec![255, 0, 128, 128]);
    assert_eq!(input.triggers_raw, vec![64, 255]);
    assert!(input.hat.up && !input.hat.down);
    assert!(ports[1].is_none());
}

#[test]
fn adapter_lists_connected_ports() {
    let infos = adapter_controllers("GameCube Adapter", &[false, true, false, true]);
    assert_eq!(infos.len(), 2);
    assert_eq!(infos[0].id, 1);
    assert_eq!(infos[0].name, "GameCube Adapter \u{2014} Port 2");
    assert_eq!(infos[1].name, "GameCube Adapter \u{2014} Port 4");
    assert_eq!(infos[1].controller_type, ControllerType::GameCubeAdapter);
    assert_eq!((infos[1].button_count, infos[1].axis_count), (12, 6));
}

#[test]
fn rumble_changes_are_reported() {
    let mut rumble = vec![false; 4];
    assert_eq!(set_port_rumble(&mut rumble, 2, true), Ok(true));
    assert_eq!(set_port_rumble(&mut rumble, 2, true), Ok(false));
    assert_eq!(set_port_rumble(&mut rumble, 4, true), Err(AdapterError::InvalidPort(4)));
    assert_eq!(rumble_report(&rumble), vec![0x11, 0, 0, 1, 0]);
}

#[test]
fn profile_names_round_trip() {
    for t in [ControllerType::GameCubeAdapter, ControllerType::Xbox, ControllerType::PlayStation, ControllerType::SwitchPro, ControllerType::Generic] {
        assert_eq!(ControllerType::from_profile_name(&t.profile_name()), t);
    }
    assert_eq!(ControllerType::Keyboard.profile_name(), "Keyboard");
    assert_eq!(ControllerType::from_profile_name("Keyboard"), ControllerType::Generic);
    let sticks = AxisMapping::xbox_sticks();
    assert_eq!(deserialize_sticks(&serialize_sticks(&sticks)), sticks);
    assert!(sticks.left_stick.invert_y);
}

#[test]
fn xinput_reports_nothing() {
    let mut x = XInputBackend::new().unwrap();
    assert_eq!(x.name(), "XInput");
    assert!(x.enumerate_controllers().unwrap().is_empty());
    assert_eq!(x.check_controller_id(4), Err(XInputError::InvalidControllerId(4)));
    assert_eq!(x.check_controller_id(3), Ok(()));
}

use gcrecomp::input::backends::ControllerInfo;
use gcrecomp::input::controller::{ControllerRegistry, GameCubeButtons};
use std::time::Instant;

fn pad(id: usize, name: &str) -> ControllerInfo {
    ControllerInfo { id, name: name.to_string(), controller_type: ControllerType::Generic, button_count: 16, axis_count: 6 }
}

#[test]
fn controllers_keep_their_ids_across_reconnects() {
    let mut reg = ControllerRegistry::new();
    let now = Instant::now();
    let c = reg.update(&vec![(0, pad(7, "pad A")), (1, pad(0, "adapter port 1"))], now);
    assert_eq!(c.newly_connected, vec![0, 1]);
    assert!(c.disconnected.is_empty());
    assert_eq!(reg.get_controller_count(), 2);
    assert_eq!(reg.get_controller_state(1).unwrap().info.name, "adapter port 1");
    assert_eq!(reg.get_controller_state(1).unwrap().backend(), (1, 0));

    // Pad A unplugs.
    let c = reg.update(&vec![(1, pad(0, "adapter port 1"))], now);
    assert!(c.newly_connected.is_empty());
    assert_eq!(c.disconnected, vec![0]);
    assert!(reg.get_controller_state(0).is_none());

    // A new pad appears, then pad A comes back: it gets its old ID.
    let c = reg.update(&vec![(0, pad(9, "pad B")), (0, pad(7, "pad A again")), (1, pad(0, "adapter port 1"))], now);
    let mut newly = c.newly_connected.clone();
    newly.sort();
    assert_eq!(newly, vec![0, 2]);
    let ids: Vec<usize> = reg.controllers().iter().map(|s| s.id).collect();
    assert_eq!(ids, vec![0, 1, 2]);
    let a = reg.get_controller_state(0).unwrap();
    assert_eq!(a.info.name, "pad A again");
    assert_eq!(a.info.id, 0);
    assert!(a.connected);
}

#[test]
fn buttons_default_to_released() {
    let b = GameCubeButtons::default();
    assert!(!b.a && !b.start && !b.z);
}
