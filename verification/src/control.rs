//! What the control interface asks of registry and session: the state to
//! show, and the change that a request makes.

use vstd::prelude::*;
use crate::address::Address;
use crate::discovery::{Device, DeviceModel, Scanner, models};
use crate::streaming::{Action, Level, MAX_PERCENT, Streamer, update_plan, updated};

verus! {

/// The state that is shown: the receiver played to, by identifier, the
/// volume asked for, and every known receiver.
#[derive(Debug)]
pub struct Status {
    pub device: Option<String>,
    pub volume: Option<u16>,
    pub devices: Vec<Device>,
}

/// A wish for a new state: the receiver to play to, by identifier, or none
/// to stop; and the volume, or none to leave it alone.
#[derive(Debug)]
pub struct Request {
    pub device: Option<String>,
    pub volume: Option<u16>,
}

/// Why a request was not carried out.
#[derive(Clone, Copy, Debug, PartialEq, Eq, Structural)]
pub enum RequestError {
    /// The volume is above the top of the scale.
    VolumeOutOfRange,
}

/// The entry at `i` is the first of `listing` that is reached at `addr`.
pub open spec fn is_first_at(listing: Seq<DeviceModel>, addr: Address, i: int) -> bool {
    &&& 0 <= i < listing.len()
    &&& listing[i].addr == addr
    &&& forall|j: int| 0 <= j < i ==> (#[trigger] listing[j]).addr != addr
}

/// No entry of `listing` is reached at `addr`.
pub open spec fn none_at(listing: Seq<DeviceModel>, addr: Address) -> bool {
    forall|j: int| 0 <= j < listing.len() ==> (#[trigger] listing[j]).addr != addr
}

/// The address that a request's device stands for: that of the known
/// receiver with this identifier. No device, and an unknown one, give none.
pub open spec fn resolved(
    devices: Map<Seq<char>, DeviceModel>,
    device: Option<Seq<char>>,
) -> Option<Address> {
    match device {
        Some(id) => if devices.contains_key(id) {
            Some(devices[id].addr)
        } else {
            None
        },
        None => None,
    }
}

/// The identifier of the first of `devices` that is reached at `addr`.
fn first_id_at(devices: &Vec<Device>, addr: Address) -> (found: Option<String>)
    ensures
        match found {
            Some(id) => exists|i: int|
                is_first_at(models(devices@), addr, i) && (#[trigger] models(devices@)[i]).id == id@,
            None => none_at(models(devices@), addr),
        },
{
    let mut i: usize = 0;
    while i < devices.len()
        invariant
            i <= devices.len(),
            forall|j: int| 0 <= j < i ==> (#[trigger] models(devices@)[j]).addr != addr,
        decreases devices.len() - i,
    {
        assert(models(devices@)[i as int] == devices[i as int]@);
        if devices[i].addr == addr {
            let id = devices[i].id.clone();
            assert(is_first_at(models(devices@), addr, i as int));
            assert(models(devices@)[i as int].id == id@);
            return Some(id);
        }
        i += 1;
    }
    None
}

/// The state to show. The receiver played to is named by the first known
/// receiver at the session's address; it is not named if none is known there.
pub fn status(scanner: &Scanner, streamer: &Streamer) -> (status: Status)
    ensures
        models(status.devices@) == scanner.listing(),
        match status.volume {
            Some(percent) => streamer@.volume is Some && streamer@.volume->Some_0@ == percent,
            None => streamer@.volume is None,
        },
        match status.device {
            Some(id) => streamer@.target is Some && exists|i: int|
                is_first_at(scanner.listing(), streamer@.target->Some_0, i)
                    && (#[trigger] scanner.listing()[i]).id == id@,
            None => streamer@.target is None || none_at(
                scanner.listing(),
                streamer@.target->Some_0,
            ),
        },
{
    let devices = scanner.read_devices();
    let volume: Option<u16> = match streamer.volume() {
        Some(level) => Some(level.percent() as u16),
        None => None,
    };
    let device: Option<String> = match streamer.addr() {
        Some(addr) => first_id_at(&devices, addr),
        None => None,
    };
    Status { device, volume, devices }
}

/// Carries out a request: looks the device up, and updates the session to
/// its address and to the volume. A volume above the scale is refused and
/// nothing changes. Returns what has to be done to the pipeline.
pub fn apply(scanner: &Scanner, streamer: &mut Streamer, request: &Request) -> (outcome: Result<
    Vec<Action>,
    RequestError,
>)
    ensures
        match outcome {
            Ok(plan) => {
                let target = resolved(
                    scanner@,
                    match request.device {
                        Some(id) => Some(id@),
                        None => None,
                    },
                );
                let volume = final(streamer)@.volume;
                &&& match request.volume {
                    Some(percent) => percent <= MAX_PERCENT && volume is Some && volume->Some_0@
                        == percent,
                    None => volume is None,
                }
                &&& final(streamer)@ == updated(target, volume)
                &&& plan@ == update_plan(old(streamer)@, target, volume)
            },
            Err(error) => {
                &&& error == RequestError::VolumeOutOfRange
                &&& request.volume is Some
                &&& request.volume->Some_0 > MAX_PERCENT
                &&& final(streamer)@ == old(streamer)@
            },
        },
{
    let volume: Option<Level> = match request.volume {
        Some(percent) => {
            if percent > MAX_PERCENT as u16 {
                return Err(RequestError::VolumeOutOfRange);
            }
            Level::from_percent(percent as u8)
        },
        None => None,
    };
    let target: Option<Address> = match &request.device {
        Some(id) => match scanner.device(id.as_str()) {
            Some(device) => Some(device.addr),
            None => None,
        },
        None => None,
    };
    Ok(streamer.update(target, volume))
}

} // verus!
