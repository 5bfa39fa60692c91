//! Wii U / Switch GameCube controller adapters: the USB report layout and
//! the backend's decisions (which ports hold a controller, what each reports,
//! the rumble report).
use vstd::prelude::*;
use crate::input::backends::{ControllerInfo, ControllerType, HatState};
use crate::text::{dec, push_dec, push_str, push_string};

verus! {

/// USB interface the adapter is claimed on.
pub const INTERFACE: u8 = 0;
/// Endpoint input reports arrive on.
pub const INPUT_ENDPOINT: u8 = 0x81;
/// Endpoint commands are written to.
pub const OUTPUT_ENDPOINT: u8 = 0x02;
/// First byte of an input report.
pub const INPUT_REPORT: u8 = 0x21;
/// Command that starts input polling.
pub const INIT_REPORT: u8 = 0x13;
/// Command that sets the rumble motors.
pub const RUMBLE_REPORT: u8 = 0x11;
/// Length of an input report.
pub const REPORT_LEN: usize = 37;
/// Bytes per port inside an input report.
pub const PORT_REPORT_LEN: usize = 9;

/// Adapters known to work: USB vendor ID, product ID, name.
pub fn supported_adapters() -> (r: Vec<(u16, u16, &'static str)>)
    ensures
        r@.len() == 2,
        r@[0].0 == 0x057e && r@[0].1 == 0x0337 && r@[0].2@ == "Nintendo GameCube Adapter"@,
        r@[1].0 == 0x0079 && r@[1].1 == 0x1843 && r@[1].2@ == "Mayflash GameCube Adapter"@,
{
    let mut v: Vec<(u16, u16, &'static str)> = Vec::new();
    v.push((0x057e, 0x0337, "Nintendo GameCube Adapter"));
    v.push((0x0079, 0x1843, "Mayflash GameCube Adapter"));
    v
}

/// What one port of an input report holds: the twelve buttons (A, B, X, Y,
/// Start, D-pad up, down, left, right, L, R, Z), the raw stick bytes
/// (main X, main Y, C X, C Y), the raw analog trigger bytes (L, R) and the D-pad.
#[derive(Debug)]
pub struct PortReport {
    pub buttons: Vec<bool>,
    pub axes_raw: Vec<u8>,
    pub triggers_raw: Vec<u8>,
    pub hat: HatState,
}

/// Offset of `port`'s bytes in an input report.
pub open spec fn port_offset(port: int) -> int {
    1 + port * 9
}

/// Whether `port` of `report` holds a controller (status bits 4 or 5).
pub open spec fn port_connected(report: Seq<u8>, port: int) -> bool {
    report[port_offset(port)] & 0x30 != 0
}

/// The buttons `port` of `report` reports, in [`PortReport`] order.
pub open spec fn port_buttons(report: Seq<u8>, port: int) -> Seq<bool> {
    button_bits(report[port_offset(port) + 1], report[port_offset(port) + 2])
}

/// `r` is what `port` of `report` holds.
pub open spec fn reports_port(r: PortReport, report: Seq<u8>, port: int) -> bool {
    let o = port_offset(port);
    &&& r.buttons@ == port_buttons(report, port)
    &&& r.axes_raw@ == report.subrange(o + 3, o + 7)
    &&& r.triggers_raw@ == report.subrange(o + 7, o + 9)
    &&& r.hat == (HatState {
        up: report[o + 1] & 0x80 != 0,
        down: report[o + 1] & 0x40 != 0,
        left: report[o + 1] & 0x10 != 0,
        right: report[o + 1] & 0x20 != 0,
    })
}

/// The twelve buttons of a port from its two button bytes, in [`PortReport`] order.
pub open spec fn button_bits(first: u8, second: u8) -> Seq<bool> {
    seq![
        first & 0x01 != 0, first & 0x02 != 0, first & 0x04 != 0, first & 0x08 != 0,
        second & 0x01 != 0,
        first & 0x80 != 0, first & 0x40 != 0, first & 0x10 != 0, first & 0x20 != 0,
        second & 0x08 != 0, second & 0x04 != 0, second & 0x02 != 0,
    ]
}

/// The twelve buttons of a port from its two button bytes.
fn decode_buttons(first: u8, second: u8) -> (r: Vec<bool>)
    ensures
        r@ == button_bits(first, second),
{
    let mut buttons: Vec<bool> = Vec::new();
    let masks: [u8; 12] = [0x01, 0x02, 0x04, 0x08, 0x01, 0x80, 0x40, 0x10, 0x20, 0x08, 0x04, 0x02];
    let from_second: [bool; 12] = [false, false, false, false, true, false, false, false, false, true, true, true];
    let ghost want = button_bits(first, second);
    let mut i: usize = 0;
    while i < 12
        invariant
            i <= 12,
            masks@ == seq![0x01u8, 0x02u8, 0x04u8, 0x08u8, 0x01u8, 0x80u8, 0x40u8, 0x10u8, 0x20u8, 0x08u8, 0x04u8, 0x02u8],
            from_second@ == seq![false, false, false, false, true, false, false, false, false, true, true, true],
            want == button_bits(first, second),
            buttons@ == want.take(i as int),
        decreases 12 - i,
    {
        let byte = if from_second[i] { second } else { first };
        buttons.push(byte & masks[i] != 0);
        assert(buttons@ =~= want.take(i + 1));
        i = i + 1;
    }
    assert(want.take(12) =~= want);
    buttons
}

/// Whether a read of `len` bytes starting with `first` is an input report.
pub fn is_input_report(len: usize, first: u8) -> (r: bool)
    ensures
        r == (len == REPORT_LEN && first == INPUT_REPORT),
{
    len == REPORT_LEN && first == INPUT_REPORT
}

/// What `port` of an input report holds, or `None` when no controller is plugged in.
pub fn parse_port(report: &[u8], port: usize) -> (r: Option<PortReport>)
    requires
        report@.len() == REPORT_LEN,
        port < 4,
    ensures
        match r {
            Some(p) => port_connected(report@, port as int) && reports_port(p, report@, port as int),
            None => !port_connected(report@, port as int),
        },
{
    let o = 1 + port * PORT_REPORT_LEN;
    let status = report[o];
    if status & 0x30 == 0 {
        return None;
    }
    let first = report[o + 1];
    let second = report[o + 2];
    let d_up = first & 0x80 != 0;
    let d_down = first & 0x40 != 0;
    let d_left = first & 0x10 != 0;
    let d_right = first & 0x20 != 0;
    let buttons = decode_buttons(first, second);
    let mut axes_raw: Vec<u8> = Vec::new();
    axes_raw.push(report[o + 3]);
    axes_raw.push(report[o + 4]);
    axes_raw.push(report[o + 5]);
    axes_raw.push(report[o + 6]);
    let mut triggers_raw: Vec<u8> = Vec::new();
    triggers_raw.push(report[o + 7]);
    triggers_raw.push(report[o + 8]);
    assert(axes_raw@ =~= report@.subrange(o + 3, o + 7));
    assert(triggers_raw@ =~= report@.subrange(o + 7, o + 9));
    Some(PortReport { buttons, axes_raw, triggers_raw, hat: HatState { up: d_up, down: d_down, left: d_left, right: d_right } })
}

/// What each of the four ports of an input report holds.
pub fn parse_report(report: &[u8]) -> (r: Vec<Option<PortReport>>)
    requires
        report@.len() == REPORT_LEN,
    ensures
        r@.len() == 4,
        forall|p: int| 0 <= p < 4 ==> match #[trigger] r@[p] {
            Some(x) => port_connected(report@, p) && reports_port(x, report@, p),
            None => !port_connected(report@, p),
        },
{
    let mut ports: Vec<Option<PortReport>> = Vec::new();
    let mut p: usize = 0;
    while p < 4
        invariant
            report@.len() == REPORT_LEN,
            p <= 4,
            ports@.len() == p,
            forall|q: int| 0 <= q < p ==> match #[trigger] ports@[q] {
                Some(x) => port_connected(report@, q) && reports_port(x, report@, q),
                None => !port_connected(report@, q),
            },
        decreases 4 - p,
    {
        let ghost before = ports@;
        ports.push(parse_port(report, p));
        assert forall|q: int| 0 <= q < p + 1 implies match #[trigger] ports@[q] {
            Some(x) => port_connected(report@, q) && reports_port(x, report@, q),
            None => !port_connected(report@, q),
        } by {
            if q < p {
                assert(ports@[q] == before[q]);
            }
        }
        p = p + 1;
    }
    ports
}

/// The name of the controller in `port` of an adapter called `adapter_name`.
pub open spec fn port_controller_name(adapter_name: Seq<char>, port: nat) -> Seq<char> {
    adapter_name + " \u{2014} Port "@ + dec(port + 1)
}

/// How many entries of `s` are `true`.
pub open spec fn count_true(s: Seq<bool>) -> nat
    decreases s.len(),
{
    if s.len() == 0 { 0 } else { count_true(s.drop_last()) + if s.last() { 1nat } else { 0nat } }
}

/// `infos` lists, in port order, one controller per connected port.
pub open spec fn lists_ports(infos: Seq<ControllerInfo>, adapter_name: Seq<char>, connected: Seq<bool>) -> bool {
    &&& infos.len() == count_true(connected)
    &&& forall|i: int| 0 <= i < infos.len() ==> {
        let port = #[trigger] infos[i].id;
        &&& port < connected.len() && connected[port as int]
        &&& infos[i].name@ == port_controller_name(adapter_name, port as nat)
        &&& infos[i].controller_type == ControllerType::GameCubeAdapter
        &&& infos[i].button_count == 12
        &&& infos[i].axis_count == 6
    }
    &&& forall|i: int, j: int| 0 <= i < j < infos.len() ==> infos[i].id < infos[j].id
}

/// The controllers an adapter reports: one per port that holds one, in port
/// order, named after the adapter and the 1-based port.
pub fn adapter_controllers(adapter_name: &str, connected: &[bool]) -> (r: Vec<ControllerInfo>)
    requires
        connected@.len() <= 4,
    ensures
        lists_ports(r@, adapter_name@, connected@),
{
    let mut out: Vec<ControllerInfo> = Vec::new();
    let n = connected.len();
    let mut port: usize = 0;
    while port < n
        invariant
            n == connected@.len(),
            n <= 4,
            port <= n,
            lists_ports(out@, adapter_name@, connected@.take(port as int)),
            forall|i: int| 0 <= i < out@.len() ==> #[trigger] out@[i].id < port,
        decreases n - port,
    {
        let ghost before = out@;
        let ghost t0 = connected@.take(port as int);
        let ghost t1 = connected@.take(port + 1);
        assert(t1 =~= t0.push(connected@[port as int]));
        assert(t1.drop_last() =~= t0);
        if connected[port] {
            let mut name = String::new();
            push_str(&mut name, adapter_name);
            push_str(&mut name, " \u{2014} Port ");
            push_dec(&mut name, (port + 1) as u64);
            out.push(ControllerInfo { id: port, name, controller_type: ControllerType::GameCubeAdapter, button_count: 12, axis_count: 6 });
            proof {
                assert forall|i: int| 0 <= i < out@.len() implies {
                    let p = #[trigger] out@[i].id;
                    &&& p < t1.len() && t1[p as int]
                    &&& out@[i].name@ == port_controller_name(adapter_name@, p as nat)
                    &&& out@[i].controller_type == ControllerType::GameCubeAdapter
                    &&& out@[i].button_count == 12
                    &&& out@[i].axis_count == 6
                } by {
                    if i < before.len() {
                        assert(out@[i] == before[i]);
                        assert(t1[out@[i].id as int] == t0[out@[i].id as int]);
                    }
                }
            }
        } else {
            proof {
                assert forall|i: int| 0 <= i < out@.len() implies #[trigger] t1[out@[i].id as int] == t0[out@[i].id as int] by {}
            }
        }
        port = port + 1;
    }
    assert(connected@.take(n as int) =~= connected@);
    out
}

/// The rumble command for the four motors.
pub fn rumble_report(rumble: &[bool]) -> (r: Vec<u8>)
    requires
        rumble@.len() == 4,
    ensures
        r@ == seq![RUMBLE_REPORT,
            if rumble@[0] { 1u8 } else { 0u8 }, if rumble@[1] { 1u8 } else { 0u8 },
            if rumble@[2] { 1u8 } else { 0u8 }, if rumble@[3] { 1u8 } else { 0u8 }],
{
    let mut r: Vec<u8> = Vec::new();
    r.push(RUMBLE_REPORT);
    r.push(if rumble[0] { 1u8 } else { 0u8 });
    r.push(if rumble[1] { 1u8 } else { 0u8 });
    r.push(if rumble[2] { 1u8 } else { 0u8 });
    r.push(if rumble[3] { 1u8 } else { 0u8 });
    assert(r@ =~= seq![RUMBLE_REPORT,
        if rumble@[0] { 1u8 } else { 0u8 }, if rumble@[1] { 1u8 } else { 0u8 },
        if rumble@[2] { 1u8 } else { 0u8 }, if rumble@[3] { 1u8 } else { 0u8 }]);
    r
}

/// Why an adapter request failed.
#[derive(Clone, Copy, Debug, PartialEq, Eq, Structural)]
pub enum AdapterError {
    /// The adapter has four ports; this controller ID names none of them.
    InvalidPort(usize),
}

/// Sets the rumble state of one port; says whether it changed (and so
/// whether a rumble command must be sent).
pub fn set_port_rumble(rumble: &mut Vec<bool>, controller_id: usize, enabled: bool) -> (r: Result<bool, AdapterError>)
    requires
        old(rumble)@.len() == 4,
    ensures
        match r {
            Ok(changed) => controller_id < 4 && changed == (old(rumble)@[controller_id as int] != enabled)
                && final(rumble)@ == old(rumble)@.update(controller_id as int, enabled),
            Err(e) => controller_id >= 4 && e == AdapterError::InvalidPort(controller_id) && final(rumble)@ == old(rumble)@,
        },
{
    if controller_id >= 4 {
        return Err(AdapterError::InvalidPort(controller_id));
    }
    if rumble[controller_id] != enabled {
        rumble.set(controller_id, enabled);
        Ok(true)
    } else {
        assert(rumble@.update(controller_id as int, enabled) =~= rumble@);
        Ok(false)
    }
}


/// The face buttons A, B, X and Y are the four low bits of a port's first
/// button byte, in that order, and Start is the low bit of the second; the
/// D-pad buttons are what the port's hat reports.
pub proof fn lemma_buttons_follow_the_adapter_bits(report: Seq<u8>, port: int, r: PortReport)
    requires
        reports_port(r, report, port),
    ensures
        r.buttons@.len() == 12,
        forall|i: u8| i < 4 ==> r.buttons@[i as int] == ((#[trigger] (report[port_offset(port) + 1] >> i)) & 1u8 == 1u8),
        r.buttons@[4] == (report[port_offset(port) + 2] & 1u8 == 1u8),
        r.buttons@[5] == r.hat.up,
        r.buttons@[6] == r.hat.down,
        r.buttons@[7] == r.hat.left,
        r.buttons@[8] == r.hat.right,
{
    let first = report[port_offset(port) + 1];
    assert forall|i: u8| i < 4 implies r.buttons@[i as int] == ((#[trigger] (first >> i)) & 1u8 == 1u8) by {
        assert(((first >> 0u8) & 1u8 == 1u8) == (first & 0x01 != 0)) by (bit_vector);
        assert(((first >> 1u8) & 1u8 == 1u8) == (first & 0x02 != 0)) by (bit_vector);
        assert(((first >> 2u8) & 1u8 == 1u8) == (first & 0x04 != 0)) by (bit_vector);
        assert(((first >> 3u8) & 1u8 == 1u8) == (first & 0x08 != 0)) by (bit_vector);
    }
    let second = report[port_offset(port) + 2];
    assert((second & 1u8 == 1u8) == (second & 0x01 != 0)) by (bit_vector);
}

} // verus!
