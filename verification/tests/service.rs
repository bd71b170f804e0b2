use masterbus_tools::calendar::{civil_from_days, now_rfc3339};
use masterbus_tools::discovery::{
    address_text, find_device, find_field, inventory, publish, record, DeviceMetaRec, FieldRec,
};
use masterbus_tools::gate::{autofill, enabled, load_mapping, save_mapping, Groups};
use masterbus_tools::publication::{
    render_config, validate_config, validate_signalk_path, ConfigError, DeviceConfig, FieldConfig,
    PublicationConfig,
};
use masterbus_tools::sidecar::{
    announce, chosen_meta, coalesce, device_record, field_record, find_rec, finish_cycle, frame,
    note_group, select_fields, static_meta, subscriptions, wait_step, Update,
};
use masterbus_tools::slug::{class_of, field_slug, instance_of, sanitize};
use masterbus_tools::strmap::StrMap;
use masterbus_tools::value::{BusValue, Published, Scale, Single};

const BATTERY: u32 = 0x188ea2;

fn volts(v: f32) -> BusValue {
    BusValue::Float(Single { bits: v.to_bits() })
}

fn published(v: f32) -> Published {
    Published::Number {
        number: Single { bits: v.to_bits() },
        scale: Scale::AsIs,
    }
}

fn house() -> DeviceMetaRec {
    device_record(BATTERY, "BAT House bank".into(), "66026000".into())
}

fn voltage() -> FieldRec {
    field_record(&house(), "Battery", 1, "Voltage".into(), "V".into())
}

fn mystery() -> FieldRec {
    field_record(&house(), "Battery", 9, "Odd one".into(), "".into())
}

fn empty() -> PublicationConfig {
    PublicationConfig {
        devices: Vec::new(),
        fields: Vec::new(),
    }
}

fn recorded() -> PublicationConfig {
    let mut cfg = empty();
    record(&mut cfg, &vec![house()], &vec![voltage(), mystery()]);
    cfg
}

fn update(field: u16, value: BusValue) -> Update {
    Update {
        device: BATTERY,
        field,
        value,
    }
}

#[test]
fn days_and_dates() {
    assert_eq!(civil_from_days(0), (1970, 1, 1));
    assert_eq!(civil_from_days(-1), (1969, 12, 31));
    assert_eq!(civil_from_days(11_016), (2000, 2, 29));
    assert_eq!(civil_from_days(11_017), (2000, 3, 1));
    assert_eq!(civil_from_days(19_782), (2024, 2, 29));
    assert_eq!(civil_from_days(-719_468), (0, 3, 1));
}

#[test]
fn a_time_stamp_has_milliseconds() {
    assert_eq!(now_rfc3339(0, 0), "1970-01-01T00:00:00.000Z");
    assert_eq!(now_rfc3339(951_782_400 + 86_399, 7), "2000-02-29T23:59:59.007Z");
}

#[test]
fn names_become_path_segments() {
    assert_eq!(field_slug("Fwd DC/DC"), "fwd-dc-dc");
    assert_eq!(sanitize("House bank #2"), "house-bank--2");
    assert_eq!(sanitize(""), "0");
    assert_eq!(class_of("BAT House bank"), "BAT");
    assert_eq!(instance_of("BAT House bank", 0x1000), "house-bank");
    assert_eq!(instance_of("BAT 24V Service2", 0x1000), "24v-service2");
}

#[test]
fn a_device_without_a_name_goes_by_its_address() {
    assert_eq!(instance_of("", 0x1000), "4096");
    assert_eq!(instance_of("BAT", 0x1000), "bat");
    assert_eq!(address_text(0x188ea2), "0x188EA2");
    assert_eq!(address_text(0x12), "0x000012");
}

#[test]
fn discovery_fills_in_what_is_known() {
    let d = house();
    assert_eq!((d.class.as_str(), d.instance.as_str()), ("BAT", "house-bank"));
    assert_eq!(
        voltage().known().as_deref(),
        Some("electrical.batteries.house-bank.voltage")
    );
    let (paths, known, unmapped) = inventory(&vec![voltage(), mystery()]);
    assert_eq!((known, unmapped), (1, 1));
    assert_eq!(paths[1], None);
}

#[test]
fn found_fields_are_recorded_and_not_published() {
    let cfg = recorded();
    assert_eq!(cfg.devices.len(), 1);
    assert_eq!(cfg.devices[0].device, "0x188EA2");
    assert_eq!(cfg.fields.len(), 2);
    let v = &cfg.fields[0];
    assert_eq!(v.index, "1");
    assert_eq!(v.path, "electrical.batteries.house-bank.voltage");
    assert_eq!(v.suggested_path, v.path);
    assert!(!v.enabled);
    assert_eq!(cfg.fields[1].suggested_path, "");
    assert_eq!(cfg.fields[1].path, "");
    assert!(validate_config(&cfg).is_ok());
    assert_eq!(publish(&cfg, &voltage(), &volts(26.5)), None);
    assert_eq!(find_field(&cfg.fields, "0x188EA2", "9"), 1);
    assert_eq!(find_field(&cfg.fields, "0x188EA2", "8"), 2);
    assert_eq!(find_device(&cfg.devices, "0x000001"), 1);
}

#[test]
fn recording_again_keeps_what_was_chosen() {
    let mut cfg = recorded();
    cfg.fields[0].enabled = true;
    cfg.fields[0].path = "electrical.batteries.mine.voltage".into();
    cfg.devices[0].publish_name = true;
    record(&mut cfg, &vec![house()], &vec![voltage(), mystery()]);
    assert_eq!(cfg.fields.len(), 2);
    assert!(cfg.fields[0].enabled);
    assert_eq!(cfg.fields[0].path, "electrical.batteries.mine.voltage");
    assert_eq!(
        cfg.fields[0].suggested_path,
        "electrical.batteries.house-bank.voltage"
    );
    assert!(cfg.devices[0].publish_name);
    assert_eq!(
        publish(&cfg, &voltage(), &volts(26.5)),
        Some(("electrical.batteries.mine.voltage".into(), published(26.5)))
    );
}

#[test]
fn a_field_without_a_rule_is_published_as_text() {
    let mut cfg = recorded();
    cfg.fields[1].enabled = true;
    cfg.fields[1].path = "electrical.batteries.house-bank.odd".into();
    let (path, v) = publish(&cfg, &mystery(), &BusValue::Boolean(true)).unwrap();
    assert_eq!(path, "electrical.batteries.house-bank.odd");
    assert_eq!(v, Published::Bool(true));
    assert_eq!(publish(&cfg, &mystery(), &BusValue::Unknown), None);
}

#[test]
fn paths_are_checked() {
    assert_eq!(validate_signalk_path(" electrical.batteries.a-1_b.voltage "), Ok(()));
    assert_eq!(validate_signalk_path("  "), Err(ConfigError::EmptyPath));
    for p in [".a", "a.", "a..b"] {
        let e = validate_signalk_path(p).unwrap_err();
        assert_eq!(e, ConfigError::InvalidPath(p.into()));
        assert_eq!(e.message(), format!("invalid Signal K path: {p}"));
    }
    let e = validate_signalk_path("a b.c").unwrap_err();
    assert_eq!(e.message(), "Signal K path contains unsupported characters: a b.c");
    assert_eq!(ConfigError::EmptyPath.message(), "Signal K paths may not be empty");
}

fn device(address: &str) -> DeviceConfig {
    DeviceConfig {
        device: address.into(),
        class: "BAT".into(),
        instance: "house".into(),
        publish_name: true,
        publish_manufacturer_name: false,
        publish_model: true,
    }
}

fn field(index: &str, path: &str) -> FieldConfig {
    FieldConfig {
        device: "0x188EA2".into(),
        class: "BAT".into(),
        instance: "house".into(),
        group: "battery".into(),
        index: index.into(),
        field: "Say \"volts\"".into(),
        unit: "V".into(),
        enabled: true,
        suggested_path: "a.b".into(),
        path: path.into(),
    }
}

#[test]
fn entries_are_checked() {
    let check = |devices: Vec<DeviceConfig>, fields: Vec<FieldConfig>| {
        validate_config(&PublicationConfig { devices, fields })
    };
    assert_eq!(check(vec![device("1")], vec![field("1", "a.b")]), Ok(()));
    assert_eq!(check(vec![device(" ")], vec![]), Err(ConfigError::DeviceIdentity));
    assert_eq!(
        check(vec![device("1"), device("1")], vec![]),
        Err(ConfigError::DuplicateDevice("1".into()))
    );
    assert_eq!(check(vec![], vec![field("", "a.b")]), Err(ConfigError::FieldIdentity));
    let e = check(vec![], vec![field("1", "a.b"), field("1", "c.d")]).unwrap_err();
    assert_eq!(e, ConfigError::DuplicateField("0x188EA2".into(), "1".into()));
    assert_eq!(e.message(), "duplicate field entry: device=0x188EA2 index=1");
    assert_eq!(
        check(vec![], vec![field("1", "a..b")]),
        Err(ConfigError::InvalidPath("a..b".into()))
    );
    assert_eq!(
        ConfigError::DuplicateDevice("1".into()).message(),
        "duplicate device entry: 1"
    );
    assert_eq!(
        ConfigError::DeviceIdentity.message(),
        "device entries must have device, class, and instance"
    );
    assert_eq!(
        ConfigError::FieldIdentity.message(),
        "field entries are missing stable identity information"
    );
}

#[test]
fn the_file_holds_the_entries() {
    let mut f = field("1", "a.b");
    f.unit = "\u{b0}C\\\u{1}\n\u{8}".into();
    let text = render_config(&PublicationConfig {
        devices: vec![device("0x188EA2")],
        fields: vec![f],
    });
    assert_eq!(
        text,
        "# masterbus-signalk field publication configuration.\n\
         # Managed by masterbus-config-web. Manual edits remain supported.\n\
         # Entries are keyed by MasterBus device address + field index.\n\n\
         [[devices]]\n\
         device = \"0x188EA2\"\n\
         class = \"BAT\"\n\
         instance = \"house\"\n\
         publish_name = true\n\
         publish_manufacturer_name = false\n\
         publish_model = true\n\n\
         [[fields]]\n\
         device = \"0x188EA2\"\n\
         class = \"BAT\"\n\
         instance = \"house\"\n\
         group = \"battery\"\n\
         index = \"1\"\n\
         field = \"Say \\\"volts\\\"\"\n\
         unit = \"\u{b0}C\\\\\\u0001\\n\\b\"\n\
         enabled = true\n\
         suggested_path = \"a.b\"\n\
         path = \"a.b\"\n\n"
    );
}

fn groups(instance: &str, names: &[&str]) -> Groups {
    let mut all = Groups::new();
    for n in names {
        note_group(&mut all, instance, n);
    }
    all
}

#[test]
fn the_gate_file_is_read_line_by_line() {
    let map = load_mapping(
        "# a comment\n\n house.monitoring = YES \nb.monitoring=0\nno sign here\n\
         house.monitoring.cluster = on\nx = y = true\n",
    );
    assert_eq!(map.get("house.monitoring"), Some(&true));
    assert_eq!(map.get("b.monitoring"), Some(&false));
    assert_eq!(map.get("house.monitoring.cluster"), Some(&true));
    assert_eq!(map.get("x"), Some(&false));
    assert_eq!(map.len(), 4);
}

#[test]
fn a_group_line_overrides_the_menu_line() {
    let map = load_mapping("h.monitoring = true\nh.monitoring.battery = false\n");
    assert!(!enabled(&map, "h", "monitoring", "battery"));
    assert!(enabled(&map, "h", "monitoring", "general"));
    assert!(!enabled(&map, "other", "monitoring", "general"));
    assert!(enabled(&map, "other", "monitoring", "cluster"));
}

#[test]
fn new_devices_are_off_but_for_the_cluster() {
    let all = groups("house", &["battery", "cluster"]);
    let mut map = load_mapping("");
    assert!(autofill(&mut map, &all));
    assert_eq!(map.get("house.monitoring"), Some(&false));
    assert_eq!(map.get("house.monitoring.cluster"), Some(&true));
    assert!(!autofill(&mut map, &all));
    assert!(!enabled(&map, "house", "monitoring", "battery"));
    assert!(enabled(&map, "house", "monitoring", "cluster"));
}

#[test]
fn a_written_gate_file_reads_back() {
    let all = groups("house", &["battery", "cluster"]);
    let mut map = load_mapping("house.monitoring.battery = true\ngone.monitoring = true\n");
    autofill(&mut map, &all);
    let text = save_mapping(&map, &all);
    assert_eq!(
        text,
        "# masterbus-signalk Signal K mapping.\n\
         # Edit the true/false flags below while the service is STOPPED, then restart.\n\
         # Keys: <instance>.<menu>[.<group>] = true|false  (a group line overrides the\n\
         # menu line). New devices are added automatically: the menu-level toggle\n\
         # defaults to false and the battery `cluster` group to true.\n\n\
         # house \u{2014} groups: battery, cluster\n\
         house.monitoring = false\n\
         house.monitoring.battery = true\n\
         house.monitoring.cluster = true\n\n"
    );
    let back = load_mapping(&text);
    assert_eq!(back.len(), 3);
    for g in ["battery", "cluster", "general"] {
        assert_eq!(
            enabled(&back, "house", "monitoring", g),
            enabled(&map, "house", "monitoring", g)
        );
    }
}

#[test]
fn discovery_waits_until_nothing_is_new() {
    let w = wait_step(3, 2, 0);
    assert!(w.changed && !w.done);
    assert!(!wait_step(3, 3, 9_999).changed);
    assert!(!wait_step(3, 3, 9_999).done);
    assert!(wait_step(3, 3, 10_000).done);
}

#[test]
fn the_gate_selects_what_is_streamed() {
    let recs = vec![voltage(), mystery()];
    assert_eq!(select_fields(&recs, None).len(), 2);
    let gate = load_mapping("house-bank.monitoring = false\n");
    assert!(select_fields(&recs, Some(&gate)).is_empty());
    let gate = load_mapping("house-bank.monitoring.battery = true\n");
    assert_eq!(select_fields(&recs, Some(&gate)), recs);
}

#[test]
fn each_device_is_subscribed_once() {
    let other = device_record(7, "MSH Shunt".into(), "".into());
    let recs = vec![
        voltage(),
        field_record(&other, "General", 4, "Time".into(), "".into()),
        mystery(),
    ];
    let mut subs = subscriptions(&recs);
    subs.sort();
    assert_eq!(subs, vec![(7, vec![4]), (BATTERY, vec![1, 9])]);
    assert_eq!(find_rec(&recs, BATTERY, 9), Some(2));
    assert_eq!(find_rec(&recs, BATTERY, 8), None);
}

#[test]
fn the_latest_value_of_a_path_wins() {
    let recs = vec![voltage(), mystery()];
    let updates = vec![
        update(1, volts(26.0)),
        update(9, BusValue::Boolean(true)),
        update(1, volts(26.5)),
        update(5, volts(1.0)),
    ];
    let latest = coalesce(true, None, &recs, &updates);
    assert_eq!(latest.len(), 1);
    assert_eq!(
        latest.get("electrical.batteries.house-bank.voltage"),
        Some(&published(26.5))
    );
    assert!(coalesce(false, None, &recs, &updates).is_empty());
    let mut cfg = recorded();
    assert!(coalesce(true, Some(&cfg), &recs, &updates).is_empty());
    cfg.fields[1].enabled = true;
    cfg.fields[1].path = "a.b".into();
    let latest = coalesce(true, Some(&cfg), &recs, &updates);
    assert_eq!(latest.len(), 1);
    assert_eq!(latest.get("a.b"), Some(&Published::Bool(true)));
}

#[test]
fn units_are_told_once() {
    let mut latest = StrMap::new();
    latest.insert("electrical.batteries.a.voltage".to_string(), published(26.5));
    latest.insert("electrical.batteries.a.mode".to_string(), Published::Text("x".into()));
    let mut sent = StrMap::new();
    assert_eq!(
        announce(&latest, &mut sent),
        vec![("electrical.batteries.a.voltage".to_string(), "V".to_string())]
    );
    assert!(announce(&latest, &mut sent).is_empty());
}

#[test]
fn a_streamed_device_says_who_it_is() {
    let d = house();
    let told = static_meta(&d, &vec![voltage()]);
    let node = "electrical.batteries.house-bank";
    assert!(told.contains(&(format!("{node}.name"), "BAT House bank".to_string())));
    assert!(told.contains(&(format!("{node}.manufacturer.name"), "Mastervolt".to_string())));
    assert!(told.contains(&(format!("{node}.manufacturer.model"), "66026000".to_string())));
    assert!(static_meta(&d, &vec![]).is_empty());
}

#[test]
fn only_chosen_values_are_told() {
    let mut cfg = recorded();
    assert!(chosen_meta(&cfg, &house()).is_empty());
    cfg.fields[0].enabled = true;
    assert!(chosen_meta(&cfg, &house()).is_empty());
    cfg.devices[0].publish_model = true;
    assert_eq!(
        chosen_meta(&cfg, &house()),
        vec![(
            "electrical.batteries.house-bank.manufacturer.model".to_string(),
            "66026000".to_string()
        )]
    );
    cfg.devices[0].publish_name = true;
    cfg.devices[0].publish_manufacturer_name = true;
    assert_eq!(chosen_meta(&cfg, &house()).len(), 3);
}

#[test]
fn lines_end_in_a_newline() {
    assert_eq!(frame(&vec![b"a".to_vec(), b"".to_vec()]), b"a\n\n".to_vec());
    let out = finish_cycle(Some(b"u".to_vec()), &vec![b"v".to_vec()]);
    assert_eq!(out.batch, b"u\nv\n".to_vec());
    assert_eq!(out.replay, b"u\n".to_vec());
    let out = finish_cycle(None, &vec![]);
    assert!(out.batch.is_empty() && out.replay.is_empty());
}

#[test]
fn maps_keep_their_keys_in_order() {
    let mut m = StrMap::new();
    m.insert("b".to_string(), 1u8);
    m.insert("a".to_string(), 2);
    m.insert("b".to_string(), 3);
    assert_eq!(m.len(), 2);
    assert_eq!((m.key_at(0).as_str(), *m.value_at(1)), ("a", 3));
    assert_eq!(m.remove("a"), Some(2));
    assert_eq!(m.remove("a"), None);
    assert!(!m.is_empty());
}

fn text_at<'a>(t: &'a toml::Value, key: &str) -> &'a str {
    t.get(key).and_then(|v| v.as_str()).unwrap()
}

#[test]
fn the_file_reads_back() {
    let mut first = field("1", "a.b");
    first.field = "a \"b\" \\ \n\t\r\u{8}\u{c}\u{1}\u{1f} = [[x]] # \u{b0}\u{1f600}".into();
    first.enabled = false;
    let cfg = PublicationConfig {
        devices: vec![device("0x1"), device("0x2")],
        fields: vec![first, field("2", "c.d")],
    };
    let text = render_config(&cfg);
    let read: toml::Value = toml::from_str(&text).unwrap();
    let devices = read.get("devices").and_then(|v| v.as_array()).unwrap();
    let fields = read.get("fields").and_then(|v| v.as_array()).unwrap();
    assert_eq!((devices.len(), fields.len()), (2, 2));
    for (d, t) in cfg.devices.iter().zip(devices) {
        assert_eq!(text_at(t, "device"), d.device);
        assert_eq!(text_at(t, "class"), d.class);
        assert_eq!(text_at(t, "instance"), d.instance);
        let model = t.get("publish_model").and_then(|v| v.as_bool());
        assert_eq!(model, Some(d.publish_model));
    }
    for (f, t) in cfg.fields.iter().zip(fields) {
        assert_eq!(text_at(t, "field"), f.field);
        assert_eq!(text_at(t, "index"), f.index);
        assert_eq!(text_at(t, "suggested_path"), f.suggested_path);
        assert_eq!(text_at(t, "path"), f.path);
        let enabled = t.get("enabled").and_then(|v| v.as_bool());
        assert_eq!(enabled, Some(f.enabled));
    }
}

#[test]
fn the_delete_character_cannot_be_read_back() {
    let mut f = field("1", "a.b");
    f.field = "\u{7f}".into();
    let text = render_config(&PublicationConfig {
        devices: vec![],
        fields: vec![f],
    });
    assert!(toml::from_str::<toml::Value>(&text).is_err());
}
