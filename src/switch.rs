//! Switching one device by hand.
use crate::api::Commands;
use crate::devices::AVMDevice;
use crate::error::FritzError;
use crate::text::same_text;
use vstd::prelude::*;

verus! {

#[derive(Debug, Clone, Copy, PartialEq, Eq, Structural)]
pub enum SwitchAction {
    On,
    Off,
    Toggle,
}

/// The action that the flags ask for: `on` before `off` before `toggle`.
pub fn switch_action(on: bool, off: bool, toggle: bool) -> (r: Option<SwitchAction>)
    ensures
        r == if on {
            Some(SwitchAction::On)
        } else if off {
            Some(SwitchAction::Off)
        } else if toggle {
            Some(SwitchAction::Toggle)
        } else {
            None::<SwitchAction>
        },
{
    if on {
        Some(SwitchAction::On)
    } else if off {
        Some(SwitchAction::Off)
    } else if toggle {
        Some(SwitchAction::Toggle)
    } else {
        None
    }
}

/// The command that carries out `action` on device `ain`, which must be one
/// of `devices`.
pub fn run(devices: &Vec<AVMDevice>, ain: &str, action: SwitchAction) -> (r: Result<Commands, FritzError>)
    ensures
        (forall|k: int| 0 <= k < devices.len() ==> (#[trigger] devices@[k]).spec_id() != ain@)
            ==> (r matches Err(FritzError::UnknownDevice(a)) && a@ == ain@),
        (exists|k: int| 0 <= k < devices.len() && (#[trigger] devices@[k]).spec_id() == ain@) ==> (
        r matches Ok(c) && match action {
            SwitchAction::On => c matches Commands::SetSwitchOn { ain: a } && a@ == ain@,
            SwitchAction::Off => c matches Commands::SetSwitchOff { ain: a } && a@ == ain@,
            SwitchAction::Toggle => c matches Commands::SetSwitchToggle { ain: a } && a@ == ain@,
        }),
{
    let mut i: usize = 0;
    while i < devices.len()
        invariant
            i <= devices.len(),
            forall|k: int| 0 <= k < i ==> (#[trigger] devices@[k]).spec_id() != ain@,
        decreases devices.len() - i,
    {
        if same_text(devices[i].id(), ain) {
            let id = devices[i].id().to_owned();
            return Ok(
                match action {
                    SwitchAction::On => Commands::SetSwitchOn { ain: id },
                    SwitchAction::Off => Commands::SetSwitchOff { ain: id },
                    SwitchAction::Toggle => Commands::SetSwitchToggle { ain: id },
                },
            );
        }
        i += 1;
    }
    Err(FritzError::UnknownDevice(ain.to_owned()))
}

} // verus!
