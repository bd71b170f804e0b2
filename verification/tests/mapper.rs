use masterbus_tools::mapper::{map_field, sk_bases, sk_units, suggested_path};
use masterbus_tools::value::{
    bool_or_label, celsius_to_kelvin, label_or_text, label_value, numeric, rpm_to_hz, text_value,
    BusValue, Date, Published, Scale, Single, Time,
};

fn float(v: f32) -> BusValue {
    BusValue::Float(Single { bits: v.to_bits() })
}

fn f(class: &str, group: &str, name: &str, unit: &str, v: f32) -> Option<(String, Published)> {
    map_field(class, "1", group, name, unit, &float(v))
}

fn path(r: Option<(String, Published)>) -> Option<String> {
    r.map(|(p, _)| p)
}

/// A published number, after its conversion.
fn as_f64(v: &Published) -> f64 {
    match v {
        Published::Number { number, scale } => {
            let (times, by, plus) = scale.formula();
            f64::from(f32::from_bits(number.bits)) * f64::from(times) / f64::from(by)
                + f64::from(plus) / 100.0
        }
        Published::Seconds(n) => *n as f64,
        other => panic!("{other:?} is no number"),
    }
}

#[test]
fn easyview_switch_uses_discovered_label() {
    let on = BusValue::Boolean(true);
    assert_eq!(
        map_field("DIS", "easyview-5", "switches", "Fwd DC/DC", "", &on),
        Some((
            "electrical.masterbus.easyview-5.switches.fwd-dc-dc.state".into(),
            Published::Bool(true)
        ))
    );
}

#[test]
fn easyview_empty_switch_is_ignored() {
    assert_eq!(
        map_field("DIS", "easyview-5", "switches", "", "", &BusValue::Boolean(true)),
        None
    );
}

#[test]
fn battery_group_and_cluster_do_not_collide() {
    assert_eq!(
        path(f("BAT", "battery", "Voltage", "V", 26.4)).as_deref(),
        Some("electrical.batteries.1.voltage")
    );
    assert_eq!(
        path(f("BAT", "cluster", "Voltage", "V", 26.4)).as_deref(),
        Some("electrical.masterbus.1.cluster.voltage")
    );
}

#[test]
fn mcu_same_label_is_disambiguated_by_group() {
    assert_eq!(
        path(f("MCU", "cluster-ac-in", "Mains", "V", 230.0)).as_deref(),
        Some("electrical.inverters.1.cluster.acInMains.voltage")
    );
    assert_eq!(
        path(f("MCU", "ac-inputs", "Mains", "V", 230.0)).as_deref(),
        Some("electrical.inverters.1.acInputs.mains.voltage")
    );
}

#[test]
fn apr_shunt_and_battery_views_remain_distinct() {
    assert_eq!(
        path(f("APR", "battery", "Battery voltage", "V", 27.0)).as_deref(),
        Some("electrical.alternators.1.battery.voltage")
    );
    assert_eq!(
        path(f("APR", "shunt", "Battery voltage", "V", 27.0)).as_deref(),
        Some("electrical.alternators.1.shunt.voltage")
    );
}

#[test]
fn mac_missing_unit_compatibility_is_retained() {
    assert_eq!(
        path(f("MAC", "", "Output voltage", "", 27.4)).as_deref(),
        Some("electrical.chargers.1.voltage")
    );
    assert_eq!(
        path(f("MAC", "", "Output current", "", 42.0)).as_deref(),
        Some("electrical.chargers.1.current")
    );
}

#[test]
fn temperature_is_converted_to_kelvin() {
    let (_, v) = f("MAC", "temperature", "Battery", "°C", 25.0).unwrap();
    assert!((as_f64(&v) - 298.15).abs() < 1e-9);
}

#[test]
fn rpm_is_converted_to_hz() {
    let (_, v) = f("APR", "alternator", "Alternator shaft", "rpm", 1800.0).unwrap();
    assert_eq!(as_f64(&v), 30.0);
}

#[test]
fn known_numeric_paths_have_unit_metadata() {
    for p in [
        "electrical.batteries.house.voltage",
        "electrical.masterbus.combi.acInputs.mains.current",
        "electrical.masterbus.combi.solarInput.power",
        "electrical.alternators.alt-110a.field.current",
        "electrical.chargers.fwd-charger.currentLimit",
    ] {
        assert!(sk_units(p).is_some(), "{p} has no unit metadata");
    }
}

#[test]
fn units_follow_the_last_segment() {
    assert_eq!(sk_units("electrical.batteries.house.capacity.stateOfCharge"), Some("ratio"));
    assert_eq!(sk_units("electrical.batteries.house.capacity.timeRemaining"), Some("s"));
    assert_eq!(sk_units("electrical.batteries.house.capacity.dischargeSinceFull"), Some("C"));
    assert_eq!(sk_units("electrical.batteries.house.temperature"), Some("K"));
    assert_eq!(sk_units("electrical.alternators.a.revolutions"), Some("Hz"));
    assert_eq!(sk_units("electrical.chargers.a.chargingMode"), None);
    assert_eq!(sk_units("voltage"), Some("V"));
    assert_eq!(sk_units(""), None);
}

#[test]
fn a_percentage_becomes_a_ratio() {
    let (p, v) = f("BAT", "battery", "State of charge", "%", 55.0).unwrap();
    assert_eq!(p, "electrical.batteries.1.capacity.stateOfCharge");
    assert_eq!(as_f64(&v), 0.55);
}

#[test]
fn ampere_hours_become_coulombs() {
    let (_, v) = f("MSH", "general", "Cap. consumed", "Ah", 2.0).unwrap();
    assert_eq!(as_f64(&v), 7200.0);
}

#[test]
fn a_number_that_is_none_is_not_published() {
    assert_eq!(f("BAT", "battery", "Voltage", "V", f32::NAN), None);
    assert_eq!(f("BAT", "battery", "Voltage", "V", f32::INFINITY), None);
    // Its path is known all the same.
    assert_eq!(
        suggested_path("BAT", "1", "battery", "Voltage", "V").as_deref(),
        Some("electrical.batteries.1.voltage")
    );
}

#[test]
fn an_unknown_class_or_field_has_no_path() {
    assert_eq!(suggested_path("XYZ", "1", "battery", "Voltage", "V"), None);
    assert_eq!(suggested_path("BAT", "1", "battery", "No such field", "V"), None);
    assert_eq!(suggested_path("BAT", "1", "battery", "Voltage", "A"), None);
}

#[test]
fn white_space_around_a_unit_does_not_count() {
    assert_eq!(
        suggested_path("BAT", "1", "battery", "Voltage", " V ").as_deref(),
        Some("electrical.batteries.1.voltage")
    );
}

#[test]
fn values_go_to_the_suggested_path() {
    let r = f("APR", "shunt", "Battery voltage", "V", 27.0);
    assert_eq!(path(r), suggested_path("APR", "1", "shunt", "Battery voltage", "V"));
}

#[test]
fn a_label_is_published_as_text() {
    let v = BusValue::List {
        index: 1,
        options: vec!["Standby".into(), "On".into()],
    };
    let (p, out) = map_field("CMR", "x", "", "Inverter", "", &v).unwrap();
    assert_eq!(p, "electrical.inverters.x.enabled");
    assert_eq!(out, Published::Text("On".into()));
}

#[test]
fn a_clock_and_a_date_are_published_as_text() {
    let time = BusValue::Time(Time { days: 0, hour: 7, min: 5, sec: 9 });
    let (p, v) = map_field("MSH", "m", "general", "Time", "", &time).unwrap();
    assert_eq!(p, "electrical.masterbus.m.clock.time");
    assert_eq!(v, Published::Text("07:05:09".into()));
    let date = BusValue::Date(Date { year: 0, mon: 5, day: 1 });
    assert_eq!(map_field("MSH", "m", "general", "Date", "", &date), None);
    let date = BusValue::Date(Date { year: 2024, mon: 2, day: 9 });
    assert_eq!(
        map_field("MSH", "m", "general", "Date", "", &date),
        Some((
            "electrical.masterbus.m.clock.date".into(),
            Published::Text("2024-02-09".into())
        ))
    );
}

#[test]
fn the_nodes_of_a_class() {
    assert_eq!(
        sk_bases("CMR", "combi"),
        vec![
            "electrical.inverters.combi".to_string(),
            "electrical.chargers.combi".to_string(),
            "electrical.masterbus.combi".to_string(),
        ]
    );
    assert_eq!(sk_bases("XYZ", "1"), Vec::<String>::new());
}

#[test]
fn scales_are_exact() {
    assert_eq!(Scale::Kelvin.formula(), (1, 1, 27315));
    assert_eq!(Scale::Coulombs.formula(), (3600, 1, 0));
    assert_eq!(Scale::AsIs.formula(), (1, 1, 0));
}

#[test]
fn a_time_remaining_is_counted_in_seconds() {
    let left = BusValue::Time(Time { days: 1, hour: 2, min: 3, sec: 4 });
    let (p, v) = map_field("BAT", "b", "battery", "Time remaining", "", &left).unwrap();
    assert_eq!(p, "electrical.batteries.b.capacity.timeRemaining");
    assert_eq!(v, Published::Seconds(93_784));
    let unknown = BusValue::Time(Time { days: 0, hour: -1, min: 0, sec: 0 });
    assert_eq!(map_field("BAT", "b", "battery", "Time remaining", "", &unknown), None);
}

#[test]
fn labels_are_read_from_the_options() {
    let options = || vec!["Off".to_string(), "Bulk".to_string()];
    let bulk = BusValue::Eventable { index: 1, options: options() };
    assert_eq!(bulk.label().as_deref(), Some("Bulk"));
    assert_eq!(label_value(&bulk, true), Some(Published::Text("bulk".into())));
    let none = BusValue::List { index: 7, options: options() };
    assert_eq!(none.label(), None);
    assert_eq!(label_value(&none, false), None);
    assert_eq!(label_or_text(&none, false), Some(Published::Int(7)));
    let before = BusValue::List { index: -1, options: options() };
    assert_eq!(before.label(), None);
    assert_eq!(bool_or_label(&BusValue::Boolean(false)), Some(Published::Bool(false)));
    assert_eq!(text_value(&BusValue::Unknown), None);
    assert_eq!(text_value(&BusValue::DeviceRef { index: 3 }), Some(Published::Int(3)));
    assert_eq!(
        text_value(&BusValue::Time(Time { days: 2, hour: 0, min: 0, sec: 5 })),
        Some(Published::Text("2d 00:00:05".into()))
    );
}

#[test]
fn only_numbers_are_numeric() {
    assert_eq!(numeric(&BusValue::Boolean(true)), None);
    assert_eq!(celsius_to_kelvin(&BusValue::Unknown), None);
    assert_eq!(
        numeric(&float(12.5)),
        Some(Published::Number {
            number: Single { bits: 12.5f32.to_bits() },
            scale: Scale::AsIs
        })
    );
    assert_eq!(as_f64(&rpm_to_hz(&float(90.0)).unwrap()), 1.5);
    assert!(Single { bits: f32::NAN.to_bits() }.is_nan());
    assert!(!Single { bits: f32::INFINITY.to_bits() }.is_nan());
    assert!(!Single { bits: f32::NEG_INFINITY.to_bits() }.is_finite());
    assert!(Single { bits: f32::MAX.to_bits() }.is_finite());
}

#[test]
fn paths_lie_under_the_nodes() {
    for (class, group, name, unit) in [
        ("BAT", "cluster", "Voltage", "V"),
        ("BAT", "battery", "Voltage", "V"),
        ("MCU", "general", "Device state", ""),
        ("CMR", "", "Input voltage", "V"),
        ("DIS", "switches", "Fwd DC/DC", ""),
        ("APR", "shunt", "Battery voltage", "V"),
    ] {
        let p = suggested_path(class, "x", group, name, unit).unwrap();
        let nodes = sk_bases(class, "x");
        assert!(nodes.iter().any(|n| p.starts_with(&format!("{n}."))), "{p}");
    }
}
