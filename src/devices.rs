//! The smart-home devices as the box describes them, and what the library
//! makes of them.
use crate::text::{chars_of, has_prefix, i32_of, parse_i32, parse_u32, u32_of};
use vstd::prelude::*;

verus! {

/// A device entry of the box's device list.
#[derive(Debug, Clone)]
pub struct Device {
    pub identifier: String,
    pub id: String,
    pub functionbitmask: String,
    pub fwversion: String,
    pub manufacturer: String,
    pub productname: String,
    pub present: bool,
    pub txbusy: bool,
    pub name: String,
    pub battery: Option<i32>,
    pub batterylow: Option<bool>,
    pub switch: Option<Switch>,
    pub simpleonoff: Option<SimpleOnOff>,
    pub powermeter: Option<PowerMeter>,
    pub temperature: Option<Temperature>,
}

/// A group entry of the box's device list.
#[derive(Debug, Clone)]
pub struct DeviceGroup {
    pub synchronized: bool,
    pub identifier: String,
    pub id: String,
    pub functionbitmask: String,
    pub fwversion: String,
    pub manufacturer: String,
    pub present: bool,
    pub txbusy: bool,
    pub name: String,
    pub switch: Option<Switch>,
    pub simpleonoff: Option<SimpleOnOff>,
    pub powermeter: Option<PowerMeter>,
}

/// One entry of the device list: a device or a group.
#[derive(Debug, Clone)]
pub enum DeviceOrGroup {
    Device(Device),
    Group(DeviceGroup),
}

/// The box's device list.
#[derive(Debug, Clone)]
pub struct DeviceList {
    pub list: Vec<DeviceOrGroup>,
}

#[derive(Debug, Clone)]
pub struct Switch {
    pub state: bool,
    pub lock: bool,
    pub devicelock: bool,
    pub mode: String,
}

#[derive(Debug, Clone, Copy, PartialEq, Eq, Structural)]
pub struct SimpleOnOff {
    pub state: bool,
}

#[derive(Debug, Clone, Copy, PartialEq, Eq, Structural)]
pub struct PowerMeter {
    /// In 0.001 V.
    pub voltage: u32,
    /// In 0.001 W.
    pub power: u32,
    /// In 1 Wh, since the device was first used.
    pub energy: u32,
}

/// Readings in 0.1 °C, as the box writes them.
#[derive(Debug, Clone)]
pub struct Temperature {
    pub celsius: String,
    pub offset: String,
}

/// A FRITZ!DECT 2xx smart plug.
#[derive(Debug, Clone)]
pub struct FritzDect2XX {
    pub identifier: String,
    pub name: String,
    pub productname: String,
    pub on: bool,
    pub millivolts: u32,
    pub milliwatts: u32,
    pub energy_in_watt_h: u32,
    /// The temperature in 0.1 °C; 0 where the box's reading is not a number.
    pub decicelsius: i32,
}

/// A device as the library knows it: a smart plug, or any other device as
/// the box described it.
#[derive(Debug, Clone)]
pub enum AVMDevice {
    FritzDect2XX(FritzDect2XX),
    Other(Device),
}

/// Whether the box's entry describes a FRITZ!DECT 2xx smart plug with its
/// switch, power meter and thermometer.
pub open spec fn is_dect_2xx(d: Device) -> bool {
    &&& d.switch is Some
    &&& d.powermeter is Some
    &&& d.temperature is Some
    &&& d.productname@.len() >= 12
    &&& d.productname@.take(12) == seq!['F', 'R', 'I', 'T', 'Z', '!', 'D', 'E', 'C', 'T', ' ', '2']
}

pub open spec fn decicelsius_of(text: Seq<char>) -> int {
    match i32_of(text) {
        Some(v) => v,
        None => 0,
    }
}

/// What the library makes of an entry of the box's device list.
pub open spec fn device_from_xml(d: Device) -> AVMDevice {
    if is_dect_2xx(d) {
        AVMDevice::FritzDect2XX(
            FritzDect2XX {
                identifier: d.identifier,
                name: d.name,
                productname: d.productname,
                on: d.switch->0.state,
                millivolts: d.powermeter->0.voltage,
                milliwatts: d.powermeter->0.power,
                energy_in_watt_h: d.powermeter->0.energy,
                decicelsius: decicelsius_of(d.temperature->0.celsius@) as i32,
            },
        )
    } else {
        AVMDevice::Other(d)
    }
}

impl AVMDevice {
    /// What the library makes of an entry of the box's device list.
    pub fn from_xml_device(device: Device) -> (r: AVMDevice)
        ensures
            r == device_from_xml(device),
    {
        let plug = has_prefix(device.productname.as_str(), "FRITZ!DECT 2");
        proof {
            reveal_strlit("FRITZ!DECT 2");
            assert("FRITZ!DECT 2"@ =~= seq!['F', 'R', 'I', 'T', 'Z', '!', 'D', 'E', 'C', 'T', ' ', '2']);
        }
        if plug && device.switch.is_some() && device.powermeter.is_some() && device.temperature.is_some() {
            let on = match &device.switch {
                Some(s) => s.state,
                None => false,
            };
            let meter = match &device.powermeter {
                Some(m) => *m,
                None => PowerMeter { voltage: 0, power: 0, energy: 0 },
            };
            let decicelsius = match &device.temperature {
                Some(t) => {
                    let cs = chars_of(t.celsius.as_str());
                    match parse_i32(&cs) {
                        Some(v) => v,
                        None => 0,
                    }
                },
                None => 0,
            };
            AVMDevice::FritzDect2XX(
                FritzDect2XX {
                    identifier: device.identifier,
                    name: device.name,
                    productname: device.productname,
                    on,
                    millivolts: meter.voltage,
                    milliwatts: meter.power,
                    energy_in_watt_h: meter.energy,
                    decicelsius,
                },
            )
        } else {
            AVMDevice::Other(device)
        }
    }

    pub open spec fn spec_id(&self) -> Seq<char> {
        match self {
            AVMDevice::FritzDect2XX(p) => p.identifier@,
            AVMDevice::Other(d) => d.identifier@,
        }
    }

    pub open spec fn spec_is_on(&self) -> bool {
        match self {
            AVMDevice::FritzDect2XX(p) => p.on,
            AVMDevice::Other(_) => false,
        }
    }

    /// The device's identifier (its AIN).
    pub fn id(&self) -> (r: &str)
        ensures
            r@ == self.spec_id(),
    {
        match self {
            AVMDevice::FritzDect2XX(p) => p.identifier.as_str(),
            AVMDevice::Other(d) => d.identifier.as_str(),
        }
    }

    pub fn name(&self) -> (r: &str)
        ensures
            r@ == match self {
                AVMDevice::FritzDect2XX(p) => p.name@,
                AVMDevice::Other(d) => d.name@,
            },
    {
        match self {
            AVMDevice::FritzDect2XX(p) => p.name.as_str(),
            AVMDevice::Other(d) => d.name.as_str(),
        }
    }

    pub fn productname(&self) -> (r: &str)
        ensures
            r@ == match self {
                AVMDevice::FritzDect2XX(p) => p.productname@,
                AVMDevice::Other(d) => d.productname@,
            },
    {
        match self {
            AVMDevice::FritzDect2XX(p) => p.productname.as_str(),
            AVMDevice::Other(d) => d.productname.as_str(),
        }
    }

    /// Whether the device is switched on; other devices count as off.
    pub fn is_on(&self) -> (r: bool)
        ensures
            r == self.spec_is_on(),
    {
        match self {
            AVMDevice::FritzDect2XX(p) => p.on,
            AVMDevice::Other(_) => false,
        }
    }

    /// `on` or `off` for a smart plug, empty for other devices.
    pub fn state(&self) -> (r: &'static str)
        ensures
            r@ == match self {
                AVMDevice::FritzDect2XX(p) => if p.on {
                    seq!['o', 'n']
                } else {
                    seq!['o', 'f', 'f']
                },
                AVMDevice::Other(_) => Seq::<char>::empty(),
            },
    {
        proof {
            reveal_strlit("on");
            reveal_strlit("off");
            reveal_strlit("");
        }
        match self {
            AVMDevice::FritzDect2XX(p) => if p.on {
                "on"
            } else {
                "off"
            },
            AVMDevice::Other(_) => "",
        }
    }
}

/// The devices of a device list, without its groups, in their order.
pub open spec fn devices_in(list: Seq<DeviceOrGroup>) -> Seq<Device>
    decreases list.len(),
{
    if list.len() == 0 {
        Seq::empty()
    } else {
        let rest = devices_in(list.drop_last());
        match list.last() {
            DeviceOrGroup::Device(d) => rest.push(d),
            DeviceOrGroup::Group(_) => rest,
        }
    }
}

/// The devices of the box's device list; groups are left out.
pub fn devices_of(list: DeviceList) -> (r: Vec<Device>)
    ensures
        r@ == devices_in(list.list@),
{
    let mut r: Vec<Device> = Vec::new();
    let items = list.list;
    let mut i: usize = 0;
    while i < items.len()
        invariant
            i <= items.len(),
            r@ == devices_in(items@.take(i as int)),
        decreases items.len() - i,
    {
        proof {
            assert(items@.take(i as int + 1).drop_last() =~= items@.take(i as int));
        }
        match &items[i] {
            DeviceOrGroup::Device(d) => r.push(d.clone_device()),
            DeviceOrGroup::Group(_) => {},
        }
        i += 1;
    }
    proof {
        assert(items@.take(items.len() as int) =~= items@);
    }
    r
}

/// What the library makes of the devices of the box's device list.
pub fn list_devices(devices: Vec<Device>) -> (r: Vec<AVMDevice>)
    ensures
        r@ == devices@.map_values(|d: Device| device_from_xml(d)),
{
    let mut r: Vec<AVMDevice> = Vec::new();
    let mut i: usize = 0;
    while i < devices.len()
        invariant
            i <= devices.len(),
            r@ == devices@.take(i as int).map_values(|d: Device| device_from_xml(d)),
        decreases devices.len() - i,
    {
        let d = devices[i].clone_device();
        r.push(AVMDevice::from_xml_device(d));
        proof {
            assert(devices@.take(i as int + 1).map_values(|d: Device| device_from_xml(d)) =~= devices@.take(
                i as int,
            ).map_values(|d: Device| device_from_xml(d)).push(device_from_xml(devices@[i as int])));
        }
        i += 1;
    }
    proof {
        assert(devices@.take(devices.len() as int) =~= devices@);
    }
    r
}

impl Device {
    /// A copy of the entry.
    pub fn clone_device(&self) -> (r: Device)
        ensures
            r == *self,
    {
        Device {
            identifier: self.identifier.clone(),
            id: self.id.clone(),
            functionbitmask: self.functionbitmask.clone(),
            fwversion: self.fwversion.clone(),
            manufacturer: self.manufacturer.clone(),
            productname: self.productname.clone(),
            present: self.present,
            txbusy: self.txbusy,
            name: self.name.clone(),
            battery: self.battery,
            batterylow: self.batterylow,
            switch: match &self.switch {
                Some(s) => Some(Switch { state: s.state, lock: s.lock, devicelock: s.devicelock, mode: s.mode.clone() }),
                None => None,
            },
            simpleonoff: self.simpleonoff,
            powermeter: self.powermeter,
            temperature: match &self.temperature {
                Some(t) => Some(Temperature { celsius: t.celsius.clone(), offset: t.offset.clone() }),
                None => None,
            },
        }
    }
}

// ---------------------------------------------------------------------------
// Features.

/// What a device can do, after its function bit mask.
#[derive(Debug, Clone, Copy, PartialEq, Eq, Structural)]
pub struct DeviceFeatures {
    pub hanfun_unit: bool,
    pub microfon: bool,
    pub dect_repeater: bool,
    pub outlet: bool,
    pub temperature_sensor: bool,
    pub energy_sensor: bool,
    pub heater: bool,
    pub alarm: bool,
    pub hanfun_device: bool,
}

pub const HANFUN_UNIT: u32 = 0b1000000000000;
pub const MICROFON: u32 = 0b0100000000000;
pub const DECT_REPEATER: u32 = 0b0010000000000;
pub const OUTLET: u32 = 0b0001000000000;
pub const TEMPERATURE_SENSOR: u32 = 0b0000100000000;
pub const ENERGY_SENSOR: u32 = 0b0000010000000;
pub const HEATER: u32 = 0b0000001000000;
pub const ALARM: u32 = 0b0000000010000;
pub const HANFUN_DEVICE: u32 = 0b0000000000001;

/// The features that the bit mask `n` announces.
pub open spec fn features_of(n: u32) -> DeviceFeatures {
    DeviceFeatures {
        hanfun_unit: n & HANFUN_UNIT != 0,
        microfon: n & MICROFON != 0,
        dect_repeater: n & DECT_REPEATER != 0,
        outlet: n & OUTLET != 0,
        temperature_sensor: n & TEMPERATURE_SENSOR != 0,
        energy_sensor: n & ENERGY_SENSOR != 0,
        heater: n & HEATER != 0,
        alarm: n & ALARM != 0,
        hanfun_device: n & HANFUN_DEVICE != 0,
    }
}

pub open spec fn no_features() -> DeviceFeatures {
    DeviceFeatures {
        hanfun_unit: false,
        microfon: false,
        dect_repeater: false,
        outlet: false,
        temperature_sensor: false,
        energy_sensor: false,
        heater: false,
        alarm: false,
        hanfun_device: false,
    }
}

impl Default for DeviceFeatures {
    fn default() -> (r: DeviceFeatures)
        ensures
            r == no_features(),
    {
        DeviceFeatures {
            hanfun_unit: false,
            microfon: false,
            dect_repeater: false,
            outlet: false,
            temperature_sensor: false,
            energy_sensor: false,
            heater: false,
            alarm: false,
            hanfun_device: false,
        }
    }
}

/// The device's features, read from its function bit mask; none where the
/// mask is not a number.
pub fn features(device: &Device) -> (r: DeviceFeatures)
    ensures
        r == match u32_of(device.functionbitmask@) {
            Some(n) => features_of(n as u32),
            None => no_features(),
        },
{
    let cs = chars_of(device.functionbitmask.as_str());
    match parse_u32(&cs) {
        None => DeviceFeatures::default(),
        Some(num) => DeviceFeatures {
            hanfun_unit: num & HANFUN_UNIT != 0,
            microfon: num & MICROFON != 0,
            dect_repeater: num & DECT_REPEATER != 0,
            outlet: num & OUTLET != 0,
            temperature_sensor: num & TEMPERATURE_SENSOR != 0,
            energy_sensor: num & ENERGY_SENSOR != 0,
            heater: num & HEATER != 0,
            alarm: num & ALARM != 0,
            hanfun_device: num & HANFUN_DEVICE != 0,
        },
    }
}

/// A power-meter reading: empty text is 0, other text a whole number.
pub open spec fn meter_value_of(s: Seq<char>) -> Option<int> {
    if s.len() == 0 {
        Some(0)
    } else {
        u32_of(s)
    }
}

pub fn parse_meter_value(s: &str) -> (r: Option<u32>)
    ensures
        match meter_value_of(s@) {
            Some(v) => r == Some(v as u32),
            None => r is None,
        },
{
    let cs = chars_of(s);
    if cs.len() == 0 {
        Some(0)
    } else {
        parse_u32(&cs)
    }
}

} // verus!
