use masterbus_tools::schema_tree::Node;
use masterbus_tools::signalk_schema::{
    collect_object_fields, electrical_fields, electrical_types, is_identity_field, SchemaDoc,
};
use masterbus_tools::strmap::StrMap;
use masterbus_tools::web::{
    candidate_path, candidates, compatibility, electrical_catalog, fits_unit, load_dump, Dump,
    DumpDevice, DumpField, DumpGroup,
};
use masterbus_tools::signalk::{Plan, Refusal};

/// A schema in the manner of the one of Signal K: types with a pattern for instances,
/// common parts by reference, and nested values.
const SCHEMA: &str = r##"{
  "properties": {
    "ac": {"patternProperties": {"(^[A-Za-z0-9]+$)": {"properties": {
        "phase": {"patternProperties": {"(single|A|B|C)": {"$ref": "#/definitions/acQualities"}}}}}}},
    "alternators": {"patternProperties": {"(^[A-Za-z0-9]+$)": {"allOf": [
        {"$ref": "#/definitions/identity"},
        {"$ref": "#/definitions/chargerQualities"},
        {"properties": {
            "revolutions": {"units": "Hz"},
            "fieldDrive": {"units": "%"},
            "regulatorTemperature": {"units": "K"}}}]}}},
    "batteries": {"patternProperties": {"(^[A-Za-z0-9]+$)": {"allOf": [
        {"$ref": "#/definitions/identity"},
        {"$ref": "#/definitions/dcQualities"},
        {"properties": {"capacity": {"properties": {
            "stateOfCharge": {"units": "ratio", "description": "State of charge"}}}}}]}}},
    "chargers": {"patternProperties": {"(^[A-Za-z0-9]+$)": {"allOf": [
        {"$ref": "#/definitions/identity"},
        {"$ref": "#/definitions/chargerQualities"}]}}},
    "inverters": {"patternProperties": {"(^[A-Za-z0-9]+$)": {"allOf": [
        {"$ref": "#/definitions/identity"},
        {"properties": {
            "dc": {"$ref": "#/definitions/dcQualities"},
            "ac": {"$ref": "#/definitions/acQualities"},
            "inverterMode": {"description": "Mode of inverter"}}}]}}},
    "solar": {"patternProperties": {"(^[A-Za-z0-9]+$)": {"$ref": "#/definitions/chargerQualities"}}},
    "odd": {"description": "has no instances"}
  },
  "definitions": {
    "identity": {"properties": {
        "name": {"description": "Name"},
        "location": {}, "dateInstalled": {},
        "manufacturer": {"properties": {"name": {}, "model": {}}}}},
    "dcQualities": {"properties": {
        "voltage": {"units": "V", "description": "Voltage"},
        "current": {"unit": "A"},
        "temperature": {"units": 7, "unit": "K"}}},
    "acQualities": {"properties": {
        "current": {"units": "A"}, "frequency": {"units": "Hz"}}},
    "chargerQualities": {"allOf": [
        {"$ref": "#/definitions/dcQualities"},
        {"properties": {
            "chargingMode": {},
            "setpointVoltage": {"units": "V"},
            "setpointCurrent": {"units": "A"}}}]}
  }
}"##;

fn doc() -> SchemaDoc {
    SchemaDoc::parse(SCHEMA).unwrap()
}

fn paths(device_type: &str) -> Vec<String> {
    electrical_fields(&doc(), device_type)
        .unwrap()
        .into_iter()
        .map(|f| f.path)
        .collect()
}

#[test]
fn electrical_schema_has_expected_types() {
    let types = electrical_types(&doc());

    assert!(types.iter().any(|t| t == "batteries"));
    assert!(types.iter().any(|t| t == "chargers"));
    assert!(types.iter().any(|t| t == "inverters"));
    assert!(types.iter().any(|t| t == "alternators"));
    assert!(types.iter().any(|t| t == "solar"));
    assert!(types.iter().any(|t| t == "ac"));
}

#[test]
fn charger_inherits_common_fields() {
    let p = paths("chargers");

    assert!(p.iter().any(|x| x == "voltage"));
    assert!(p.iter().any(|x| x == "current"));
    assert!(p.iter().any(|x| x == "temperature"));
    assert!(p.iter().any(|x| x == "chargingMode"));
    assert!(p.iter().any(|x| x == "setpointVoltage"));
    assert!(p.iter().any(|x| x == "setpointCurrent"));
}

#[test]
fn alternator_has_specific_and_inherited_fields() {
    let p = paths("alternators");

    assert!(p.iter().any(|x| x == "voltage"));
    assert!(p.iter().any(|x| x == "chargingMode"));
    assert!(p.iter().any(|x| x == "revolutions"));
    assert!(p.iter().any(|x| x == "fieldDrive"));
    assert!(p.iter().any(|x| x == "regulatorTemperature"));
}

#[test]
fn inverter_exposes_nested_dc_and_ac_fields() {
    let p = paths("inverters");

    assert!(p.iter().any(|x| x == "dc.voltage"));
    assert!(p.iter().any(|x| x == "dc.current"));
    assert!(p.iter().any(|x| x == "ac.current"));
    assert!(p.iter().any(|x| x == "ac.frequency"));
    assert!(p.iter().any(|x| x == "inverterMode"));
}

#[test]
fn fields_come_in_order_with_their_units() {
    let fields = electrical_fields(&doc(), "batteries").unwrap();
    let all: Vec<(&str, Option<&str>)> = fields
        .iter()
        .map(|f| (f.path.as_str(), f.unit.as_deref()))
        .collect();
    assert_eq!(
        all,
        vec![
            ("capacity.stateOfCharge", Some("ratio")),
            ("current", Some("A")),
            ("temperature", None),
            ("voltage", Some("V")),
        ]
    );
    assert_eq!(fields[0].description.as_deref(), Some("State of charge"));
    assert_eq!(fields[0].pattern, None);
}

#[test]
fn a_free_name_is_shown_as_a_key_with_its_pattern() {
    let fields = electrical_fields(&doc(), "ac").unwrap();
    assert_eq!(fields[0].path, "phase.{key}.current");
    assert_eq!(fields[0].pattern.as_deref(), Some("(single|A|B|C)"));
}

#[test]
fn a_type_without_instances_has_no_fields() {
    assert_eq!(paths("odd"), Vec::<String>::new());
    assert_eq!(paths("no such type"), Vec::<String>::new());
}

#[test]
fn a_text_that_is_no_document_is_refused() {
    assert!(SchemaDoc::parse("{").is_none());
    assert!(SchemaDoc::parse("").is_none());
    assert!(SchemaDoc::parse("[1, 2]").is_some());
}

#[test]
fn references_are_looked_up() {
    let d = doc();
    assert!(d.refs.contains_key("#/definitions/dcQualities"));
    let bare = SchemaDoc::parse(r##"{"a": {"$ref": "other.json#/x"}, "b": {"$ref": "#/none"},
        "c": {"$ref": "#"}, "d": {"$ref": "#/e~1f/0"}, "e/f": ["found"]}"##)
    .unwrap();
    assert!(!bare.refs.contains_key("other.json#/x"));
    assert!(!bare.refs.contains_key("#/none"));
    assert!(bare.refs.contains_key("#"));
    let Some(Node::Text(t)) = bare.refs.get("#/e~1f/0") else {
        panic!("a pointer leads into lists and objects")
    };
    assert_eq!(t, "found");
}

#[test]
fn references_that_run_in_a_circle_have_no_answer() {
    let mut refs = StrMap::new();
    let circle = || {
        Node::Object(vec![(
            "$ref".to_string(),
            Node::Text("#/a".to_string()),
        )])
    };
    refs.insert("#/a".to_string(), circle());
    let mut fields = StrMap::new();
    assert!(!collect_object_fields(&refs, &circle(), "", &mut fields, 50));
    let mut fields = StrMap::new();
    assert!(collect_object_fields(&refs, &Node::Other, "", &mut fields, 0));
    assert!(fields.is_empty());
}

#[test]
fn identity_is_no_field_to_map() {
    for name in ["name", "location", "dateInstalled", "manufacturer"] {
        assert!(is_identity_field(name));
    }
    assert!(!is_identity_field("voltage"));
    assert!(!paths("chargers").iter().any(|p| p.contains("manufacturer")));
}

#[test]
fn the_catalog_has_every_type() {
    let catalog = electrical_catalog(&doc()).unwrap();
    assert_eq!(catalog.len(), 7);
    assert_eq!(catalog.get("solar").unwrap().len(), 6);
    assert!(catalog.get("odd").unwrap().is_empty());
}

#[test]
fn candidates_have_the_unit_of_the_value() {
    let fields = electrical_fields(&doc(), "batteries").unwrap();
    assert!(fits_unit(&fields[3], Some("V")));
    assert!(!fits_unit(&fields[3], None));
    assert!(fits_unit(&fields[2], None));
    assert_eq!(
        candidate_path("batteries", &fields[3].path),
        "electrical.batteries.candidate.voltage"
    );
    let planned = vec![
        Some(Some("ratio".to_string())),
        Some(Some("A".to_string())),
        None,
        Some(Some("V".to_string())),
    ];
    let volts = candidates(&fields, Some("V"), &planned);
    assert_eq!(volts.len(), 1);
    assert_eq!(volts[0].path, "voltage");
    assert_eq!(volts[0].unit.as_deref(), Some("V"));
    assert_eq!(volts[0].description.as_deref(), Some("Voltage"));
    // Without a unit the one field without a unit would do, but its plan was refused.
    assert!(candidates(&fields, None, &planned).is_empty());
}

#[test]
fn compatibility_says_why_not() {
    let yes = compatibility(Ok(Plan {
        unit: Some("K".into()),
        conversion: "+273.15".into(),
        warning: None,
        truth: StrMap::new(),
    }));
    assert!(yes.compatible);
    assert_eq!(yes.unit.as_deref(), Some("K"));
    let no = compatibility(Err(Refusal::Other {
        message: "A does not convert to K".into(),
    }));
    assert!(!no.compatible);
    assert_eq!(no.refusal.as_deref(), Some("A does not convert to K"));
}

#[test]
fn a_dump_is_taken_over_as_it_is() {
    let field = |name: &str| DumpField {
        id: "0x001".into(),
        channel: "Btm1".into(),
        index: 1,
        name: name.into(),
        unit: "V".into(),
        value_text: "26.4".into(),
        options: vec!["a".into()],
        writeable: true,
        eventable: false,
    };
    let devices = load_dump(Dump {
        devices: vec![DumpDevice {
            id: "188EA2".into(),
            address: 0x188ea2,
            article: "66026000".into(),
            serial: "S".into(),
            revision: "A".into(),
            name: "BAT House".into(),
            firmware: "2.14".into(),
            status: "ok".into(),
            groups: vec![DumpGroup {
                id: 3,
                name: "General".into(),
                menu: "Monitoring".into(),
                fields: vec![field("Voltage"), field("Current")],
            }],
        }],
    });
    assert_eq!(devices.len(), 1);
    assert_eq!(devices[0].address, 0x188ea2);
    assert_eq!(devices[0].groups[0].menu, "Monitoring");
    assert_eq!(devices[0].groups[0].fields[1].name, "Current");
    assert_eq!(devices[0].groups[0].fields[0].options, vec!["a".to_string()]);
}
