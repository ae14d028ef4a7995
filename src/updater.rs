//! Bringing a device to the state the schedule asks for: the decision part.
//! A driver lists the devices, and toggles the device where told to.
use crate::config::State;
use crate::devices::AVMDevice;
use crate::text::same_text;
use vstd::prelude::*;

verus! {

/// Updates devices through the box, logging in with these credentials.
#[derive(Debug, Clone)]
pub struct RealtFritzUpdater {
    user: String,
    password: String,
}

impl View for RealtFritzUpdater {
    type V = (Seq<char>, Seq<char>);

    closed spec fn view(&self) -> (Seq<char>, Seq<char>) {
        (self.user@, self.password@)
    }
}

impl RealtFritzUpdater {
    pub fn new(user: &str, password: &str) -> (r: RealtFritzUpdater)
        ensures
            r@ == (user@, password@),
    {
        RealtFritzUpdater { user: user.to_owned(), password: password.to_owned() }
    }

    pub fn user(&self) -> (r: &str)
        ensures
            r@ == self@.0,
    {
        self.user.as_str()
    }

    pub fn password(&self) -> (r: &str)
        ensures
            r@ == self@.1,
    {
        self.password.as_str()
    }
}

/// What bringing a device to a state takes.
#[derive(Debug, Clone, Copy, PartialEq, Eq, Structural)]
pub enum StateUpdate {
    /// No device has the identifier: nothing is done.
    DeviceMissing,
    /// The device is in the state already: nothing is sent.
    AlreadySet,
    /// The device is in the other state: it is toggled.
    Toggle,
}

/// Whether the device `d` is in state `s`.
pub open spec fn in_state(d: AVMDevice, s: State) -> bool {
    d.spec_is_on() == (s == State::On)
}

/// `i` is the first device with identifier `id`.
pub open spec fn first_with_id(devices: Seq<AVMDevice>, id: Seq<char>, i: int) -> bool {
    &&& 0 <= i < devices.len()
    &&& devices[i].spec_id() == id
    &&& forall|k: int| 0 <= k < i ==> (#[trigger] devices[k]).spec_id() != id
}

/// What it takes to bring device `id` of `devices` to state `desired`: the
/// first device with that identifier counts. A device in the state already
/// is left alone.
pub fn plan_state_update(devices: &Vec<AVMDevice>, id: &str, desired: State) -> (r: StateUpdate)
    ensures
        r == StateUpdate::DeviceMissing <==> forall|k: int|
            0 <= k < devices.len() ==> (#[trigger] devices@[k]).spec_id() != id@,
        forall|i: int|
            first_with_id(devices@, id@, i) ==> (r == StateUpdate::AlreadySet <==> in_state(
                #[trigger] devices@[i],
                desired,
            )) && (r == StateUpdate::Toggle <==> !in_state(devices@[i], desired)),
{
    let mut i: usize = 0;
    while i < devices.len()
        invariant
            i <= devices.len(),
            forall|k: int| 0 <= k < i ==> (#[trigger] devices@[k]).spec_id() != id@,
        decreases devices.len() - i,
    {
        if same_text(devices[i].id(), id) {
            let want_on = match desired {
                State::On => true,
                State::Off => false,
            };
            proof {
                assert(first_with_id(devices@, id@, i as int));
                assert forall|j: int| first_with_id(devices@, id@, j) implies j == i by {
                    if j < i {
                    } else if j > i {
                        assert(devices@[i as int].spec_id() != id@);
                    }
                }
            }
            if devices[i].is_on() == want_on {
                return StateUpdate::AlreadySet;
            } else {
                return StateUpdate::Toggle;
            }
        }
        i += 1;
    }
    StateUpdate::DeviceMissing
}

/// Whether the update changes the device.
pub fn changes_device(u: StateUpdate) -> (r: bool)
    ensures
        r == (u == StateUpdate::Toggle),
{
    match u {
        StateUpdate::Toggle => true,
        _ => false,
    }
}

} // verus!
