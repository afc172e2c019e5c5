use vstd::prelude::*;

verus! {

/// A simulator as CoreSimulator lists it.
#[derive(Debug)]
pub struct ListedDevice {
    pub udid: String,
    pub name: String,
    pub state: String,
    pub device_type: String,
    pub runtime: String,
    pub available: bool,
}

/// The name of a numeric CoreSimulator device state.
pub open spec fn sim_state_name(state: u64) -> Seq<char> {
    if state == 0 {
        "Creating"@
    } else if state == 1 {
        "Shutdown"@
    } else if state == 2 {
        "Booting"@
    } else if state == 3 {
        "Booted"@
    } else if state == 4 {
        "Shutting Down"@
    } else {
        "Unknown"@
    }
}

/// The name of a numeric CoreSimulator device state.
pub fn map_sim_state(state: u64) -> (r: &'static str)
    ensures
        r@ == sim_state_name(state),
{
    if state == 0 {
        "Creating"
    } else if state == 1 {
        "Shutdown"
    } else if state == 2 {
        "Booting"
    } else if state == 3 {
        "Booted"
    } else if state == 4 {
        "Shutting Down"
    } else {
        "Unknown"
    }
}

/// A device's state text: the state string it reports when that is not
/// empty, else the name of its numeric state.
pub fn device_state(state_string: Option<&str>, state: u64) -> (r: String)
    ensures
        match state_string {
            Some(s) if s@.len() > 0 => r@ == s@,
            _ => r@ == sim_state_name(state),
        },
{
    match state_string {
        Some(s) => {
            if crate::text::chars_of(s).len() > 0 {
                return String::from_str(s);
            }
        },
        None => {},
    }
    String::from_str(map_sim_state(state))
}

/// The return type codes of the `SimDevice` and `SimDeviceSet` methods that
/// listing devices calls; `None` where the method is missing.
#[derive(Debug, Clone, Copy)]
pub struct ListProbe {
    pub udid: Option<u8>,
    pub name: Option<u8>,
    pub device_type_identifier: Option<u8>,
    pub runtime_identifier: Option<u8>,
    pub state_string: Option<u8>,
    pub state: Option<u8>,
    pub devices: Option<u8>,
}

/// Whether devices can be listed in-process: the identity methods return
/// objects (`@`), the state is a string or an unsigned number (`Q`), and the
/// device set returns its devices.
pub fn list_supported(p: &ListProbe) -> (r: bool)
    ensures
        r == (p.udid == Some(64u8) && p.name == Some(64u8) && p.device_type_identifier == Some(
            64u8,
        ) && p.runtime_identifier == Some(64u8) && (p.state_string == Some(64u8) || p.state
            == Some(81u8)) && p.devices == Some(64u8)),
{
    p.udid == Some(64u8) && p.name == Some(64u8) && p.device_type_identifier == Some(64u8)
        && p.runtime_identifier == Some(64u8) && (p.state_string == Some(64u8) || p.state == Some(
        81u8,
    )) && p.devices == Some(64u8)
}

/// The encodings of the `SimDevice` launch and terminate methods:
/// return type code and argument count; `None` where the method is missing.
#[derive(Debug, Clone, Copy)]
pub struct LaunchProbe {
    pub launch: Option<(Option<u8>, usize)>,
    pub terminate: Option<(Option<u8>, usize)>,
}

/// Whether apps can be launched in-process: launch returns a pid (`i`) from
/// five arguments and terminate returns a boolean (`B`) from four.
pub fn launch_supported(p: &LaunchProbe) -> (r: bool)
    ensures
        r == (p.launch == Some((Some(105u8), 5usize)) && p.terminate == Some((Some(66u8), 4usize))),
{
    let launch_ok = match p.launch {
        Some((code, count)) => code == Some(105u8) && count == 5,
        None => false,
    };
    let terminate_ok = match p.terminate {
        Some((code, count)) => code == Some(66u8) && count == 4,
        None => false,
    };
    launch_ok && terminate_ok
}

} // verus!
