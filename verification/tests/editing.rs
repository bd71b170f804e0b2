use masterbus_tools::editor::{
    copy_to_targets, retarget, CopyTarget, Hint, Origin, PathEditor, Stage,
};
use masterbus_tools::mapping::{
    field_key, parse_field_key, DeviceMapping, FieldMapping, Mapping,
};
use masterbus_tools::signalk::{instance_of as path_instance, node_of, Plan, Refusal};
use masterbus_tools::slug::instance_of;
use masterbus_tools::strmap::StrMap;

fn src_mapping() -> DeviceMapping {
    let mut d = DeviceMapping {
        article: "66026000".into(),
        firmware: "2.14".into(),
        name: "BAT 24V Service".into(),
        instance: "24v-service".into(),
        ..Default::default()
    };
    for (id, leaf) in [
        (0x001u16, "voltage"),
        (0x002, "current"),
        (0x071, "voltage"),
    ] {
        d.fields.insert(
            field_key(id),
            FieldMapping {
                path: format!("electrical.batteries.24v-service.{leaf}"),
                ..Default::default()
            },
        );
    }
    d
}

fn target(serial: &str, name: &str, have: &[u16]) -> CopyTarget {
    CopyTarget {
        serial: serial.into(),
        article: "66026000".into(),
        firmware: "2.14".into(),
        name: name.into(),
        instance: instance_of(name, 0x1000),
        have: have.to_vec(),
    }
}

fn device<'a>(map: &'a Mapping, serial: &str) -> &'a DeviceMapping {
    map.devices.get(serial).unwrap()
}

fn field<'a>(d: &'a DeviceMapping, id: u16) -> &'a FieldMapping {
    d.fields.get(&field_key(id)).unwrap()
}

#[test]
fn copying_rewrites_the_instance_segment_per_target() {
    let mut map = Mapping::new();
    let t = target("MLI-2", "BAT 24V Service2", &[0x001, 0x002, 0x071]);
    let (copied, skipped) = copy_to_targets(&mut map, &src_mapping(), &vec![t]);
    assert_eq!((copied, skipped), (3, 0));
    let d = device(&map, "MLI-2");
    assert_eq!(d.instance, "24v-service2");
    assert_eq!(
        field(d, 0x001).path,
        "electrical.batteries.24v-service2.voltage"
    );
}

#[test]
fn fields_the_target_lacks_are_skipped_not_invented() {
    let mut map = Mapping::new();
    let member = target("MLI-2", "BAT 24V Service2", &[0x001, 0x002]);
    let (copied, skipped) = copy_to_targets(&mut map, &src_mapping(), &vec![member]);
    assert_eq!((copied, skipped), (2, 1));
    let d = device(&map, "MLI-2");
    assert!(!d.fields.contains_key(&field_key(0x071)));
}

#[test]
fn copying_records_the_target_identity_not_the_sources() {
    let mut map = Mapping::new();
    let mut t = target("MLI-2", "BAT 24V Service2", &[0x001]);
    t.firmware = "2.15".into();
    copy_to_targets(&mut map, &src_mapping(), &vec![t]);
    let d = device(&map, "MLI-2");
    assert_eq!(d.name, "BAT 24V Service2");
    assert_eq!(d.firmware, "2.15");
}

/// An instance the user already chose is authoritative; copying must not silently rename
/// a device's Signal K node underneath them.
#[test]
fn an_existing_instance_on_the_target_is_kept() {
    let mut map = Mapping::new();
    map.devices.insert(
        "MLI-2".into(),
        DeviceMapping {
            instance: "port-bank".into(),
            ..Default::default()
        },
    );
    let t = target("MLI-2", "BAT 24V Service2", &[0x001]);
    copy_to_targets(&mut map, &src_mapping(), &vec![t]);
    let d = device(&map, "MLI-2");
    assert_eq!(d.instance, "port-bank");
    assert_eq!(
        field(d, 0x001).path,
        "electrical.batteries.port-bank.voltage"
    );
}

/// The path itself says which instance it uses; a stale record does not matter.
#[test]
fn a_stale_recorded_instance_does_not_block_a_copy() {
    let mut map = Mapping::new();
    let mut src = DeviceMapping {
        article: "77030450".into(),
        instance: "nav-chg".into(),
        ..Default::default()
    };
    src.fields.insert(
        field_key(0x028),
        FieldMapping {
            path: "electrical.chargers.nav-battery.voltage".into(),
            ..Default::default()
        },
    );
    let t = target("X922S0096", "INT 24V DC/DC", &[0x028]);
    let (copied, skipped) = copy_to_targets(&mut map, &src, &vec![t]);
    assert_eq!((copied, skipped), (1, 0));
    assert_eq!(
        field(device(&map, "X922S0096"), 0x028).path,
        "electrical.chargers.24v-dc-dc.voltage"
    );
}

#[test]
fn a_copy_substitutes_the_instance_the_path_actually_uses() {
    let mut map = Mapping::new();
    let mut src = DeviceMapping {
        article: "77030450".into(),
        instance: "nav-battery".into(),
        ..Default::default()
    };
    src.fields.insert(
        field_key(0x028),
        FieldMapping {
            path: "electrical.chargers.nav-battery.voltage".into(),
            ..Default::default()
        },
    );
    let t = target("X922S0096", "INT 24V DC/DC", &[0x028]);
    let (copied, skipped) = copy_to_targets(&mut map, &src, &vec![t]);
    assert_eq!((copied, skipped), (1, 0));
    assert_eq!(
        field(device(&map, "X922S0096"), 0x028).path,
        "electrical.chargers.24v-dc-dc.voltage"
    );
}

#[test]
fn retarget_replaces_whole_segments_only() {
    assert_eq!(
        retarget("electrical.batteries.house.voltage", "house", "port"),
        "electrical.batteries.port.voltage"
    );
    // A leaf that merely contains the instance as a substring is untouched.
    assert_eq!(
        retarget("electrical.batteries.house.household", "house", "port"),
        "electrical.batteries.port.household"
    );
    // Nothing to substitute.
    assert_eq!(retarget("a.b.c", "", "port"), "a.b.c");
    assert_eq!(retarget("a.b.c", "b", "b"), "a.b.c");
}

/// The master of a cluster maps its aggregate under one instance and its own cell under
/// another; each path is copied on its own instance.
#[test]
fn a_copy_substitutes_on_each_paths_own_instance() {
    let mut map = Mapping::new();
    let mut master = DeviceMapping {
        article: "66026000".into(),
        instance: "li-ion-1".into(),
        ..Default::default()
    };
    master.fields.insert(
        field_key(0x001),
        FieldMapping {
            path: "electrical.batteries.li-ion.voltage".into(),
            ..Default::default()
        },
    );
    master.fields.insert(
        field_key(0x071),
        FieldMapping {
            path: "electrical.batteries.li-ion-1.voltage".into(),
            ..Default::default()
        },
    );
    let member = target("MLI-2", "BAT li-ion 2", &[0x001]);
    let (copied, skipped) = copy_to_targets(&mut map, &master, &vec![member]);
    assert_eq!((copied, skipped), (1, 1));
    assert_eq!(
        field(device(&map, "MLI-2"), 0x001).path,
        "electrical.batteries.li-ion-2.voltage"
    );
}

#[test]
fn a_copy_carries_the_truth_table() {
    let mut map = Mapping::new();
    let mut src = DeviceMapping {
        article: "77010100".into(),
        instance: "out-1".into(),
        ..Default::default()
    };
    let mut truth = StrMap::new();
    truth.insert("Standby".to_string(), false);
    truth.insert("Activated".to_string(), true);
    src.fields.insert(
        field_key(0x001),
        FieldMapping {
            path: "electrical.switches.out-1.state".into(),
            truth,
            ..Default::default()
        },
    );
    let t = target("MCO-2", "INT Out 2", &[0x001]);
    copy_to_targets(&mut map, &src, &vec![t]);
    let f = field(device(&map, "MCO-2"), 0x001);
    assert_eq!(f.path, "electrical.switches.out-2.state");
    assert_eq!(f.truth.len(), 2);
}

fn editor(unit: &str, buf: &str) -> PathEditor {
    PathEditor {
        field: 0x005,
        field_name: "Temperature".into(),
        unit: unit.into(),
        options: Vec::new(),
        buf: buf.into(),
        invert: false,
        truth: StrMap::new(),
        origin: Origin::Blank,
        stage: Stage::Path,
    }
}

fn plan(unit: Option<&str>, conversion: &str, warning: Option<&str>) -> Plan {
    Plan {
        unit: unit.map(str::to_string),
        conversion: conversion.into(),
        warning: warning.map(str::to_string),
        truth: StrMap::new(),
    }
}

fn table(entries: &[(&str, bool)]) -> StrMap<bool> {
    let mut t = StrMap::new();
    for (k, v) in entries {
        t.insert(k.to_string(), *v);
    }
    t
}

#[test]
fn the_editor_reports_the_conversion_it_will_apply() {
    let ed = editor("\u{b0}C", "electrical.batteries.house.temperature");
    let request = ed.plan();
    assert_eq!(request.path, "electrical.batteries.house.temperature");
    assert_eq!(request.unit, "\u{b0}C");
    let Hint::Fine(hint) = ed.hint(&Ok(plan(Some("K"), "+273.15", None)), false) else {
        panic!("celsius reaches kelvin")
    };
    assert!(hint.contains("→ K"), "{hint}");

    // Pointing amps at a kelvin leaf has no conversion, and the editor must say so
    // rather than let it be saved.
    let bad = editor("A", "electrical.batteries.house.temperature");
    let refusal = Refusal::Other {
        message: "A does not convert to K".into(),
    };
    assert!(matches!(bad.hint(&Err(refusal), false), Hint::Refuse(_)));
}

#[test]
fn an_unknown_leaf_still_shows_the_devices_unit() {
    let ed = editor("\u{b0}C", "electrical.converters.house.somethingNew");
    let Hint::Fine(hint) = ed.hint(&Ok(plan(Some("K"), "+273.15", None)), false) else {
        panic!("a custom path is allowed")
    };
    assert!(hint.contains("→ K"), "{hint}");
    // Only a unit this build cannot convert is worth a warning.
    let odd = editor("l/h", "electrical.converters.house.flow");
    let h = odd.hint(&Ok(plan(None, "", Some("unknown unit l/h"))), false);
    assert!(matches!(h, Hint::Warn(_)));
}

#[test]
fn an_enum_on_a_boolean_leaf_shows_its_truth_table() {
    let mut ed = editor("", "electrical.switches.out.state");
    ed.options = vec!["Standby".into(), "Activated".into()];
    let mut p = plan(None, "", None);
    p.truth = table(&[("Standby", false), ("Activated", true)]);
    let Hint::Fine(hint) = ed.hint(&Ok(p), true) else {
        panic!("conventional labels need no help")
    };
    assert!(hint.contains("Activated→true"), "{hint}");
    assert_eq!(hint, "boolean: Activated→true, Standby→false");
    // A third label makes it a mode, not a boolean.
    ed.options.push("Alarm".into());
    let refusal = Refusal::Truth {
        labels: ed.options.clone(),
        message: "what does Alarm mean?".into(),
    };
    assert!(matches!(ed.hint(&Err(refusal), true), Hint::Warn(_)));
    assert!(!ed.truth_complete());
    ed.truth = table(&[("Standby", false), ("Activated", true), ("Alarm", false)]);
    assert!(ed.truth_complete());
    let mut p = plan(None, "", None);
    p.truth = table(&[("Standby", false), ("Activated", true), ("Alarm", false)]);
    assert!(matches!(ed.hint(&Ok(p), true), Hint::Warn(_)));
}

#[test]
fn invert_on_an_enum_flips_the_truth_table() {
    let mut ed = editor("", "electrical.switches.out.state");
    ed.options = vec!["Standby".into(), "Activated".into()];
    let mut p = plan(None, "", None);
    p.truth = table(&[("Standby", false), ("Activated", true)]);
    ed.truth = p.truth.negated();
    assert!(*ed.truth.get("Standby").unwrap());
    assert!(!*ed.truth.get("Activated").unwrap());
    assert!(!ed.invert);
    let mut flipped = plan(None, "", None);
    flipped.truth = ed.truth.copied();
    let Hint::Fine(h) = ed.hint(&Ok(flipped), true) else {
        panic!("a complete table is fine")
    };
    assert!(h.contains("Standby→true"), "{h}");
}

#[test]
fn the_mode_leaf_suggested_follows_the_category() {
    let mut ed = editor("", "electrical.inverters.inv.enabled");
    ed.options = vec!["Standby".into(), "On".into(), "Alarm".into()];
    assert!(ed.lossy_boolean(true));
    assert_eq!(ed.mode_leaf(), "inverterMode");
    let refusal = Refusal::Truth {
        labels: ed.options.clone(),
        message: "what does Alarm mean?".into(),
    };
    let Hint::Warn(w) = ed.hint(&Err(refusal), true) else {
        panic!("three labels onto enabled should warn")
    };
    assert!(w.contains("inverterMode"), "{w}");
    ed.buf = "electrical.chargers.chg.enabled".into();
    assert_eq!(ed.mode_leaf(), "chargingMode");
    // Two labels is a genuine boolean; nothing to steer away from.
    ed.options.pop();
    assert!(!ed.lossy_boolean(true));
}

#[test]
fn a_plan_without_a_unit_is_published_as_it_is() {
    let ed = editor("", "  electrical.switches.a.name ");
    assert_eq!(
        ed.hint(&Ok(plan(None, "", None)), false),
        Hint::Fine("no unit: published as-is".into())
    );
    assert_eq!(ed.entry().path, "electrical.switches.a.name");
    assert_eq!(ed.mode_leaf(), "a mode leaf");
}

#[test]
fn keys_of_fields_read_back() {
    assert_eq!(field_key(0x013), "0x013");
    assert_eq!(field_key(0x10e), "0x10E");
    assert_eq!(field_key(0xabcd), "0xABCD");
    for id in [0u16, 1, 0x71, 0x10e, 0xfff, 0x1000, 0xffff] {
        assert_eq!(parse_field_key(&field_key(id)), Some(id));
    }
    assert_eq!(parse_field_key("0x10e"), Some(0x10e));
    assert_eq!(parse_field_key("0x10000"), None);
    assert_eq!(parse_field_key("0x"), None);
    assert_eq!(parse_field_key("013"), None);
    assert_eq!(parse_field_key("0x01g"), None);
}

#[test]
fn a_path_names_its_instance_and_lies_under_a_node() {
    let p = "electrical.batteries.house.capacity.stateOfCharge";
    assert_eq!(path_instance(p).as_deref(), Some("house"));
    assert_eq!(node_of(p).as_deref(), Some("electrical.batteries.house"));
    assert_eq!(path_instance("electrical.batteries.house"), None);
    assert_eq!(node_of("a.b"), None);
}

#[test]
fn retargeting_can_be_undone() {
    let p = "electrical.batteries.house.voltage";
    let q = retarget(p, "house", "port");
    assert_eq!(retarget(&q, "port", "house"), p);
}

#[test]
fn devices_that_are_no_targets_stay_as_they_are() {
    let mut map = Mapping::new();
    map.devices.insert("OTHER".into(), src_mapping());
    let t = target("MLI-2", "BAT 24V Service2", &[0x001]);
    copy_to_targets(&mut map, &src_mapping(), &vec![t]);
    let d = device(&map, "OTHER");
    assert_eq!(d.instance, "24v-service");
    assert_eq!(d.fields.len(), 3);
    assert_eq!(map.len(), 4);
    assert_eq!(
        map.field("OTHER", 0x002).unwrap().path,
        "electrical.batteries.24v-service.current"
    );
    assert!(map.field("OTHER", 0x003).is_none());
    assert!(map.field("NONE", 0x001).is_none());
}
