use fritz_homeautomation::api::{
    login_outcome, login_step, refresh_outcome, request_response, response_from_digest, Commands,
    LoginStep, SessionInfo,
};
use fritz_homeautomation::client::{Awaiting, FritzClient, RequestAction};
use fritz_homeautomation::config::State;
use fritz_homeautomation::devices::{
    devices_of, features, list_devices, parse_meter_value, AVMDevice, Device, DeviceFeatures,
    DeviceGroup, DeviceList, DeviceOrGroup, PowerMeter, SimpleOnOff, Switch, Temperature,
};
use fritz_homeautomation::error::FritzError;
use fritz_homeautomation::stats::{parse_kinds, DeviceStatsKind, Unit};
use fritz_homeautomation::switch::{run, switch_action, SwitchAction};
use fritz_homeautomation::updater::{changes_device, plan_state_update, RealtFritzUpdater, StateUpdate};

#[test]
fn parse_device_stat_kind() {
    assert_eq!(
        "temperature".parse::<DeviceStatsKind>().unwrap(),
        DeviceStatsKind::Temperature
    );
    assert_eq!(
        "celsius".parse::<DeviceStatsKind>().unwrap(),
        DeviceStatsKind::Temperature
    );
    assert_eq!(
        "c".parse::<DeviceStatsKind>().unwrap(),
        DeviceStatsKind::Temperature
    );
    assert_eq!(
        "Temperature".parse::<DeviceStatsKind>().unwrap(),
        DeviceStatsKind::Temperature
    );
    assert_eq!(
        "temp".parse::<DeviceStatsKind>().unwrap(),
        DeviceStatsKind::Temperature
    );
    assert_eq!(
        "power".parse::<DeviceStatsKind>().unwrap(),
        DeviceStatsKind::Power
    );
    assert_eq!(
        "energy".parse::<DeviceStatsKind>().unwrap(),
        DeviceStatsKind::Energy
    );
    assert_eq!(
        "v".parse::<DeviceStatsKind>().unwrap(),
        DeviceStatsKind::Voltage
    );
}

#[test]
fn unknown_stat_kind_is_a_parser_error() {
    assert_eq!(
        "foo".parse::<DeviceStatsKind>(),
        Err(FritzError::ParserError("Cannot convert \"foo\" to DeviceStatsKind".to_string()))
    );
    assert_eq!(DeviceStatsKind::parse("WH"), Ok(DeviceStatsKind::Energy));
}

#[test]
fn kinds_from_a_list() {
    assert_eq!(
        parse_kinds("temp,POWER,v"),
        Ok(vec![DeviceStatsKind::Temperature, DeviceStatsKind::Power, DeviceStatsKind::Voltage])
    );
    assert_eq!(
        parse_kinds("temp,bar,baz"),
        Err(FritzError::ParserError("Cannot convert \"bar\" to DeviceStatsKind".to_string()))
    );
    assert!(parse_kinds("").is_err());
}

#[test]
fn kind_names_and_units() {
    assert_eq!(DeviceStatsKind::Temperature.name(), "temperature");
    assert_eq!(DeviceStatsKind::Energy.unit(), Unit::WattHour);
    assert_eq!(DeviceStatsKind::Voltage.unit().symbol(), "V");
    assert_eq!(Unit::Celsius.symbol(), "°C");
}

#[test]
fn api_request_response() {
    let response = request_response("mühe", "foo");
    assert_eq!(response, "foo-442e12bbceabd35c66964c913a316451");
}

#[test]
fn response_is_challenge_and_hex_digest() {
    let digest: Vec<u8> = vec![0x00, 0x0f, 0xa0, 0xff];
    assert_eq!(response_from_digest("ab", &digest), "ab-000fa0ff");
}

fn session(sid: &str) -> SessionInfo {
    SessionInfo { sid: sid.to_string(), challenge: "63233c3d".to_string(), block_time: 0 }
}

#[test]
fn login_answers_the_challenge_for_the_default_sid() {
    match login_step(&session("0000000000000000"), "secret") {
        LoginStep::Respond(r) => assert_eq!(r, request_response("secret", "63233c3d")),
        other => panic!("unexpected {:?}", other),
    }
    assert_eq!(login_step(&session("abcd"), "secret"), LoginStep::Authenticated("abcd".to_string()));
    assert!(matches!(login_outcome(&session("0000000000000000")), Err(FritzError::LoginError(_))));
    assert_eq!(login_outcome(&session("abcd")), Ok("abcd".to_string()));
}

#[test]
fn refresh_status() {
    assert_eq!(refresh_outcome(200), Ok(()));
    assert_eq!(refresh_outcome(403), Err(FritzError::TriggerHighRefreshRateError(403)));
}

#[test]
fn command_query() {
    let q = Commands::SetSwitchOn { ain: "11630 0069103".to_string() }.query("sid1");
    assert_eq!(
        q,
        vec![
            ("switchcmd".to_string(), "setswitchon".to_string()),
            ("sid".to_string(), "sid1".to_string()),
            ("ain".to_string(), "11630 0069103".to_string()),
        ]
    );
    assert_eq!(Commands::GetDeviceListInfos.query("s").len(), 2);
    assert_eq!(Commands::GetBasicDeviceStats { ain: "a".to_string() }.name(), "getbasicdevicestats");
}

#[test]
fn client_logs_in_then_retries_once_after_a_refusal() {
    let mut client = FritzClient::new("user", "pw");
    let (req, action) = client.turn_on("dev");
    assert!(matches!(action, RequestAction::Login));
    assert_eq!(req.awaiting, Awaiting::Login);

    let (req, action) = client.step(req, Ok("sid1".to_string()));
    match &action {
        RequestAction::Send { cmd, sid } => {
            assert_eq!(cmd, &Commands::SetSwitchOn { ain: "dev".to_string() });
            assert_eq!(sid, "sid1");
        }
        other => panic!("unexpected {:?}", other),
    }

    let (req, action) = client.step(req, Err(FritzError::Forbidden));
    assert!(matches!(action, RequestAction::Login));
    assert_eq!(req.awaiting, Awaiting::Relogin);

    let (req, action) = client.step(req, Ok("sid2".to_string()));
    assert_eq!(req.attempt, 1);
    assert!(matches!(action, RequestAction::Send { ref sid, .. } if sid == "sid2"));

    let (_, action) = client.step(req, Err(FritzError::Forbidden));
    assert!(matches!(action, RequestAction::Finish(Err(FritzError::Forbidden))));

    // The session id is kept for the next request.
    let (_, action) = client.toggle("dev");
    assert!(matches!(action, RequestAction::Send { ref sid, .. } if sid == "sid2"));
}

#[test]
fn failed_first_login_is_forbidden() {
    let mut client = FritzClient::new("user", "pw");
    let (req, _) = client.list_devices();
    let (_, action) = client.step(req, Err(FritzError::LoginError("no".to_string())));
    assert!(matches!(action, RequestAction::Finish(Err(FritzError::Forbidden))));
}

#[test]
fn answer_finishes_the_request() {
    let mut client = FritzClient::new("user", "pw");
    client.update_sid(Ok("s".to_string()));
    let (req, action) = client.device_stats("dev");
    assert!(matches!(action, RequestAction::Send { .. }));
    let (_, action) = client.step(req, Ok("<xml/>".to_string()));
    assert!(matches!(action, RequestAction::Finish(Ok(ref body)) if body == "<xml/>"));
}

#[test]
fn refresh_needs_a_session() {
    let mut client = FritzClient::new("user", "pw");
    assert_eq!(client.refresh_sid(None), Err(FritzError::Forbidden));
    assert_eq!(client.refresh_sid(Some(Ok("x".to_string()))), Ok("x".to_string()));
    assert_eq!(client.refresh_sid(None), Ok("x".to_string()));
}

fn device(identifier: &str, productname: &str, mask: &str, plug: bool) -> Device {
    Device {
        identifier: identifier.to_string(),
        id: "16".to_string(),
        functionbitmask: mask.to_string(),
        fwversion: "04.16".to_string(),
        manufacturer: "AVM".to_string(),
        productname: productname.to_string(),
        present: true,
        txbusy: false,
        name: format!("{productname} #1"),
        battery: None,
        batterylow: None,
        switch: if plug {
            Some(Switch { state: true, lock: false, devicelock: false, mode: "manuell".to_string() })
        } else {
            None
        },
        simpleonoff: if plug { Some(SimpleOnOff { state: true }) } else { None },
        powermeter: if plug {
            Some(PowerMeter { voltage: 235330, power: 18450, energy: 1060474 })
        } else {
            None
        },
        temperature: if plug {
            Some(Temperature { celsius: "210".to_string(), offset: "0".to_string() })
        } else {
            None
        },
    }
}

#[test]
fn smart_plug_is_recognised() {
    match AVMDevice::from_xml_device(device("11630 0069103", "FRITZ!DECT 200", "35712", true)) {
        AVMDevice::FritzDect2XX(p) => {
            assert_eq!(p.identifier, "11630 0069103");
            assert!(p.on);
            assert_eq!(p.millivolts, 235330);
            assert_eq!(p.milliwatts, 18450);
            assert_eq!(p.energy_in_watt_h, 1060474);
            assert_eq!(p.decicelsius, 210);
        }
        other => panic!("unexpected {:?}", other),
    }
    let repeater = AVMDevice::from_xml_device(device("11657 0492712", "FRITZ!DECT Repeater 100", "1024", false));
    assert!(matches!(repeater, AVMDevice::Other(_)));
    assert_eq!(repeater.state(), "");
    assert!(!repeater.is_on());
    let unmetered = AVMDevice::from_xml_device(device("1", "FRITZ!DECT 301", "320", true));
    assert!(matches!(unmetered, AVMDevice::Other(_)));
}

#[test]
fn device_accessors() {
    let d = AVMDevice::from_xml_device(device("11630 0069103", "FRITZ!DECT 200", "35712", true));
    assert_eq!(d.id(), "11630 0069103");
    assert_eq!(d.productname(), "FRITZ!DECT 200");
    assert_eq!(d.name(), "FRITZ!DECT 200 #1");
    assert_eq!(d.state(), "on");
}

#[test]
fn groups_are_left_out() {
    let group = DeviceGroup {
        synchronized: false,
        identifier: "grp".to_string(),
        id: "900".to_string(),
        functionbitmask: "37504".to_string(),
        fwversion: "1.0".to_string(),
        manufacturer: "AVM".to_string(),
        present: true,
        txbusy: false,
        name: "all".to_string(),
        switch: None,
        simpleonoff: None,
        powermeter: None,
    };
    let list = DeviceList {
        list: vec![
            DeviceOrGroup::Device(device("a", "FRITZ!DECT 200", "35712", true)),
            DeviceOrGroup::Group(group),
            DeviceOrGroup::Device(device("b", "FRITZ!DECT 301", "320", false)),
        ],
    };
    let devices = devices_of(list);
    assert_eq!(devices.len(), 2);
    assert_eq!(devices[0].identifier, "a");
    assert_eq!(devices[1].identifier, "b");
    let listed = list_devices(devices);
    assert!(matches!(listed[0], AVMDevice::FritzDect2XX(_)));
    assert!(matches!(listed[1], AVMDevice::Other(_)));
}

#[test]
fn features_from_the_bit_mask() {
    let f = features(&device("a", "FRITZ!DECT 200", "35712", true));
    assert_eq!(
        f,
        DeviceFeatures {
            hanfun_unit: false,
            microfon: true,
            dect_repeater: false,
            outlet: true,
            temperature_sensor: true,
            energy_sensor: true,
            heater: false,
            alarm: false,
            hanfun_device: false,
        }
    );
    assert_eq!(features(&device("a", "x", "1024", false)).dect_repeater, true);
    assert_eq!(features(&device("a", "x", "bad", false)), DeviceFeatures::default());
}

#[test]
fn meter_values() {
    assert_eq!(parse_meter_value(""), Some(0));
    assert_eq!(parse_meter_value("235330"), Some(235330));
    assert_eq!(parse_meter_value("x"), None);
}

fn plugs() -> Vec<AVMDevice> {
    vec![
        AVMDevice::from_xml_device(device("a", "FRITZ!DECT 200", "35712", true)),
        AVMDevice::from_xml_device(device("b", "FRITZ!DECT 301", "320", false)),
    ]
}

#[test]
fn same_state_is_not_applied_again() {
    let devices = plugs();
    let plan = plan_state_update(&devices, "a", State::On);
    assert_eq!(plan, StateUpdate::AlreadySet);
    assert!(!changes_device(plan));
    let plan = plan_state_update(&devices, "a", State::Off);
    assert_eq!(plan, StateUpdate::Toggle);
    assert!(changes_device(plan));
    assert_eq!(plan_state_update(&devices, "zzz", State::On), StateUpdate::DeviceMissing);
    assert_eq!(plan_state_update(&devices, "b", State::On), StateUpdate::Toggle);
}

#[test]
fn updater_keeps_credentials() {
    let u = RealtFritzUpdater::new("me", "pw");
    assert_eq!(u.user(), "me");
    assert_eq!(u.password(), "pw");
}

#[test]
fn switching_a_device() {
    let devices = plugs();
    assert_eq!(run(&devices, "a", SwitchAction::Off), Ok(Commands::SetSwitchOff { ain: "a".to_string() }));
    assert_eq!(run(&devices, "x", SwitchAction::On), Err(FritzError::UnknownDevice("x".to_string())));
    assert_eq!(switch_action(false, true, true), Some(SwitchAction::Off));
    assert_eq!(switch_action(false, false, false), None);
}
