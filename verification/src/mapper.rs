//! Where each field of a known device is published in Signal K, and how its value
//! is read.
//!
//! Names that belong to one vessel stay out of this module: device instances come
//! from discovery, and rules that look at the group of a field turn the classes of
//! devices into paths.

use vstd::prelude::*;

use crate::slug::{field_slug, slug};
use crate::text::{same, split, split_on, trim, trimmed, views};
use crate::value::{
    as_label_or_text, as_number, as_seconds, as_text, bool_or_label, celsius_to_kelvin,
    label_or_text, model, numeric, percent_to_ratio, rpm_to_hz, amp_hours_to_coulombs,
    seconds_value, text_value, Published, PublishedModel, Scale, BusValue,
};

verus! {

/// The categories of Signal K under which devices are published.
#[derive(Debug, Clone, Copy, PartialEq, Eq, Structural)]
pub enum Base {
    Batteries,
    Inverters,
    Chargers,
    Alternators,
    /// The vendor's own category.
    Masterbus,
}

impl Base {
    /// What the paths of the category start with.
    pub open spec fn prefix(self) -> Seq<char> {
        match self {
            Base::Batteries => "electrical.batteries."@,
            Base::Inverters => "electrical.inverters."@,
            Base::Chargers => "electrical.chargers."@,
            Base::Alternators => "electrical.alternators."@,
            Base::Masterbus => "electrical.masterbus."@,
        }
    }

    /// The node of an instance.
    pub open spec fn node(self, id: Seq<char>) -> Seq<char> {
        self.prefix() + id
    }

    /// The node of an instance.
    pub fn node_text(self, id: &str) -> (s: String)
        ensures
            s@ == self.node(id@),
    {
        let mut s = (match self {
            Base::Batteries => "electrical.batteries.",
            Base::Inverters => "electrical.inverters.",
            Base::Chargers => "electrical.chargers.",
            Base::Alternators => "electrical.alternators.",
            Base::Masterbus => "electrical.masterbus.",
        }).to_owned();
        s.append(id);
        s
    }
}

// ---- units and bases ---------------------------------------------------------

/// The last segment of a path.
pub open spec fn last_segment(path: Seq<char>) -> Seq<char> {
    split(path, '.').last()
}

/// The SI unit of the values of a leaf.
pub open spec fn leaf_unit(leaf: Seq<char>) -> Option<Seq<char>> {
    if leaf == "stateOfCharge"@ || leaf == "currentLimitRatio"@ || leaf == "backlight"@ {
        Some("ratio"@)
    } else if leaf == "timeRemaining"@ || leaf == "remaining"@ || leaf == "standbyTime"@ || leaf
        == "pageDuration"@ {
        Some("s"@)
    } else if leaf == "dischargeSinceFull"@ {
        Some("C"@)
    } else if leaf == "temperature"@ {
        Some("K"@)
    } else if leaf == "voltage"@ || leaf == "voltageSense"@ || leaf == "senseVoltage"@ || leaf
        == "altVoltage"@ {
        Some("V"@)
    } else if leaf == "current"@ || leaf == "currentLimit"@ || leaf == "fieldCurrent"@ || leaf
        == "mainsFuse"@ {
        Some("A"@)
    } else if leaf == "power"@ || leaf == "solarInput"@ {
        Some("W"@)
    } else if leaf == "frequency"@ || leaf == "revolutions"@ {
        Some("Hz"@)
    } else {
        None
    }
}

/// The SI unit of the values at a path, by the last segment of the path.
pub fn sk_units(path: &str) -> (r: Option<&'static str>)
    ensures
        match r {
            Some(u) => leaf_unit(last_segment(path@)) == Some(u@),
            None => leaf_unit(last_segment(path@)) is None,
        },
{
    let parts = split_on(path, '.');
    proof {
        crate::text::lemma_split_parts(path@, '.');
        assert(views(parts@).len() == parts@.len());
    }
    let leaf = parts[parts.len() - 1].as_str();
    assert(leaf@ == last_segment(path@)) by {
        assert(views(parts@)[parts@.len() - 1] == parts@[parts@.len() - 1]@);
    }
    if same(leaf, "stateOfCharge") || same(leaf, "currentLimitRatio") || same(leaf, "backlight") {
        Some("ratio")
    } else if same(leaf, "timeRemaining") || same(leaf, "remaining") || same(leaf, "standbyTime")
        || same(leaf, "pageDuration") {
        Some("s")
    } else if same(leaf, "dischargeSinceFull") {
        Some("C")
    } else if same(leaf, "temperature") {
        Some("K")
    } else if same(leaf, "voltage") || same(leaf, "voltageSense") || same(leaf, "senseVoltage")
        || same(leaf, "altVoltage") {
        Some("V")
    } else if same(leaf, "current") || same(leaf, "currentLimit") || same(leaf, "fieldCurrent")
        || same(leaf, "mainsFuse") {
        Some("A")
    } else if same(leaf, "power") || same(leaf, "solarInput") {
        Some("W")
    } else if same(leaf, "frequency") || same(leaf, "revolutions") {
        Some("Hz")
    } else {
        None
    }
}

/// The categories a class of devices is published under.
pub open spec fn class_bases(class: Seq<char>) -> Seq<Base> {
    if class == "BAT"@ || class == "MSH"@ {
        seq![Base::Batteries, Base::Masterbus]
    } else if class == "CMR"@ || class == "MCU"@ {
        seq![Base::Inverters, Base::Chargers, Base::Masterbus]
    } else if class == "MAC"@ || class == "INT"@ || class == "CHG"@ {
        seq![Base::Chargers, Base::Masterbus]
    } else if class == "APR"@ {
        seq![Base::Alternators, Base::Masterbus]
    } else if class == "DIS"@ {
        seq![Base::Masterbus]
    } else {
        seq![]
    }
}

/// The nodes of a device of a class.
pub open spec fn nodes(class: Seq<char>, id: Seq<char>) -> Seq<Seq<char>> {
    Seq::new(class_bases(class).len(), |i: int| class_bases(class)[i].node(id))
}

/// The nodes a device's name, manufacturer and model are published under.
pub fn sk_bases(class: &str, id: &str) -> (bases: Vec<String>)
    ensures
        views(bases@) == nodes(class@, id@),
{
    let mut bases: Vec<String> = Vec::new();
    if same(class, "BAT") || same(class, "MSH") {
        bases.push(Base::Batteries.node_text(id));
        bases.push(Base::Masterbus.node_text(id));
    } else if same(class, "CMR") || same(class, "MCU") {
        bases.push(Base::Inverters.node_text(id));
        bases.push(Base::Chargers.node_text(id));
        bases.push(Base::Masterbus.node_text(id));
    } else if same(class, "MAC") || same(class, "INT") || same(class, "CHG") {
        bases.push(Base::Chargers.node_text(id));
        bases.push(Base::Masterbus.node_text(id));
    } else if same(class, "APR") {
        bases.push(Base::Alternators.node_text(id));
        bases.push(Base::Masterbus.node_text(id));
    } else if same(class, "DIS") {
        bases.push(Base::Masterbus.node_text(id));
    }
    assert(views(bases@) =~= nodes(class@, id@));
    bases
}

// ---- rows ----------------------------------------------------------------------

/// How the value of a field is read.
#[derive(Debug, Clone, Copy, PartialEq, Eq, Structural)]
pub enum Reading {
    /// As it is.
    Text,
    /// The label of a list, anything else as it is.
    Label,
    /// The label of a list in lower case, anything else as it is.
    LowerLabel,
    Numeric,
    Celsius,
    Percent,
    AmpHours,
    Rpm,
    /// A duration in seconds.
    Seconds,
    /// A duration in seconds, anything else as it is.
    SecondsOrText,
    /// A boolean, turned round.
    Negated,
}

impl Reading {
    /// What is published of a value.
    pub open spec fn apply(self, v: BusValue) -> Option<PublishedModel> {
        match self {
            Reading::Text => as_text(v),
            Reading::Label => as_label_or_text(v, false),
            Reading::LowerLabel => as_label_or_text(v, true),
            Reading::Numeric => as_number(v, Scale::AsIs),
            Reading::Celsius => as_number(v, Scale::Kelvin),
            Reading::Percent => as_number(v, Scale::Ratio),
            Reading::AmpHours => as_number(v, Scale::Coulombs),
            Reading::Rpm => as_number(v, Scale::Hertz),
            Reading::Seconds => as_seconds(v),
            Reading::SecondsOrText => match as_seconds(v) {
                Some(p) => Some(p),
                None => as_text(v),
            },
            Reading::Negated => match v {
                BusValue::Boolean(b) => Some(PublishedModel::Bool(!b)),
                _ => None,
            },
        }
    }

    /// Reads a value.
    pub fn read(self, value: &BusValue) -> (r: Option<Published>)
        ensures
            model(r) == self.apply(*value),
    {
        match self {
            Reading::Text => text_value(value),
            Reading::Label => bool_or_label(value),
            Reading::LowerLabel => label_or_text(value, true),
            Reading::Numeric => numeric(value),
            Reading::Celsius => celsius_to_kelvin(value),
            Reading::Percent => percent_to_ratio(value),
            Reading::AmpHours => amp_hours_to_coulombs(value),
            Reading::Rpm => rpm_to_hz(value),
            Reading::Seconds => seconds_value(value),
            Reading::SecondsOrText => match seconds_value(value) {
                Some(p) => Some(p),
                None => text_value(value),
            },
            Reading::Negated => match value {
                BusValue::Boolean(b) => Some(Published::Bool(!*b)),
                _ => None,
            },
        }
    }
}

/// Which units of a field a row is for.
pub enum Unit {
    Any,
    Only(&'static str),
    /// The unit, or none: some schemas leave it out.
    OnlyOrBlank(&'static str),
}

/// Which units of a field a row is for.
pub enum UnitModel {
    Any,
    Only(Seq<char>),
    OnlyOrBlank(Seq<char>),
}

/// A row of the mapping: the fields it is for, and what is made of them. Without
/// a group it is for fields of any group; without a name it is for fields of any
/// name, and the slug of the name stands between `node` and `last`.
pub struct Row {
    pub group: Option<&'static str>,
    pub name: Option<&'static str>,
    pub unit: Unit,
    pub base: Base,
    pub node: &'static str,
    pub last: &'static str,
    pub reading: Reading,
}

/// What a row says.
pub struct RowModel {
    pub group: Option<Seq<char>>,
    pub name: Option<Seq<char>>,
    pub unit: UnitModel,
    pub base: Base,
    pub node: Seq<char>,
    pub last: Seq<char>,
    pub reading: Reading,
}

/// A row for any unit.
pub open spec fn any_unit() -> UnitModel {
    UnitModel::Any
}

/// A row for one unit.
pub open spec fn only(unit: Seq<char>) -> UnitModel {
    UnitModel::Only(unit)
}

/// A row for one unit or none.
pub open spec fn only_or_blank(unit: Seq<char>) -> UnitModel {
    UnitModel::OnlyOrBlank(unit)
}

/// A row.
pub open spec fn row(
    group: Option<Seq<char>>,
    name: Option<Seq<char>>,
    unit: UnitModel,
    base: Base,
    node: Seq<char>,
    last: Seq<char>,
    reading: Reading,
) -> RowModel {
    RowModel { group, name, unit, base, node, last, reading }
}

/// The characters of an optional string.
pub open spec fn maybe(s: Option<&'static str>) -> Option<Seq<char>> {
    match s {
        Some(t) => Some(t@),
        None => None,
    }
}

impl View for Unit {
    type V = UnitModel;

    open spec fn view(&self) -> UnitModel {
        match self {
            Unit::Any => UnitModel::Any,
            Unit::Only(u) => UnitModel::Only(u@),
            Unit::OnlyOrBlank(u) => UnitModel::OnlyOrBlank(u@),
        }
    }
}

impl View for Row {
    type V = RowModel;

    open spec fn view(&self) -> RowModel {
        RowModel {
            group: maybe(self.group),
            name: maybe(self.name),
            unit: self.unit@,
            base: self.base,
            node: self.node@,
            last: self.last@,
            reading: self.reading,
        }
    }
}

/// What a list of rows says.
pub open spec fn models(t: Seq<Row>) -> Seq<RowModel> {
    Seq::new(t.len(), |i: int| t[i]@)
}

fn push_row(
    t: &mut Vec<Row>,
    group: Option<&'static str>,
    name: Option<&'static str>,
    unit: Unit,
    base: Base,
    node: &'static str,
    last: &'static str,
    reading: Reading,
)
    ensures
        models(final(t)@) == models(old(t)@).push(
            row(maybe(group), maybe(name), unit@, base, node@, last@, reading),
        ),
{
    t.push(Row { group, name, unit, base, node, last, reading });
    assert(models(t@) =~= models(old(t)@).push(
        row(maybe(group), maybe(name), unit@, base, node@, last@, reading),
    ));
}

/// Lithium batteries: the battery itself, the cluster it may lead, and its relays.
pub open spec fn bat_rows() -> Seq<RowModel> {
    seq![
        row(Some("battery"@), Some("State of charge"@), only("%"@), Base::Batteries, "capacity."@, "stateOfCharge"@, Reading::Percent),
        row(Some("battery"@), Some("Time remaining"@), any_unit(), Base::Batteries, "capacity."@, "timeRemaining"@, Reading::Seconds),
        row(Some("battery"@), Some("Voltage"@), only("V"@), Base::Batteries, ""@, "voltage"@, Reading::Numeric),
        row(Some("battery"@), Some("Current"@), only("A"@), Base::Batteries, ""@, "current"@, Reading::Numeric),
        row(Some("battery"@), Some("Temperature"@), only("°C"@), Base::Batteries, ""@, "temperature"@, Reading::Celsius),
        row(Some("cluster"@), Some("State of charge"@), only("%"@), Base::Masterbus, "cluster."@, "stateOfCharge"@, Reading::Percent),
        row(Some("cluster"@), Some("Time remaining"@), any_unit(), Base::Masterbus, "cluster."@, "timeRemaining"@, Reading::Seconds),
        row(Some("cluster"@), Some("Voltage"@), only("V"@), Base::Masterbus, "cluster."@, "voltage"@, Reading::Numeric),
        row(Some("cluster"@), Some("Current"@), only("A"@), Base::Masterbus, "cluster."@, "current"@, Reading::Numeric),
        row(Some("cluster"@), Some("Temperature"@), only("°C"@), Base::Masterbus, "cluster."@, "temperature"@, Reading::Celsius),
        row(Some("relay"@), None, any_unit(), Base::Masterbus, "relay."@, ""@, Reading::Text),
    ]
}

fn bat_table() -> (t: Vec<Row>)
    ensures
        models(t@) == bat_rows(),
{
    let mut t: Vec<Row> = Vec::new();
    push_row(&mut t, Some("battery"), Some("State of charge"), Unit::Only("%"), Base::Batteries, "capacity.", "stateOfCharge", Reading::Percent);
    push_row(&mut t, Some("battery"), Some("Time remaining"), Unit::Any, Base::Batteries, "capacity.", "timeRemaining", Reading::Seconds);
    push_row(&mut t, Some("battery"), Some("Voltage"), Unit::Only("V"), Base::Batteries, "", "voltage", Reading::Numeric);
    push_row(&mut t, Some("battery"), Some("Current"), Unit::Only("A"), Base::Batteries, "", "current", Reading::Numeric);
    push_row(&mut t, Some("battery"), Some("Temperature"), Unit::Only("°C"), Base::Batteries, "", "temperature", Reading::Celsius);
    push_row(&mut t, Some("cluster"), Some("State of charge"), Unit::Only("%"), Base::Masterbus, "cluster.", "stateOfCharge", Reading::Percent);
    push_row(&mut t, Some("cluster"), Some("Time remaining"), Unit::Any, Base::Masterbus, "cluster.", "timeRemaining", Reading::Seconds);
    push_row(&mut t, Some("cluster"), Some("Voltage"), Unit::Only("V"), Base::Masterbus, "cluster.", "voltage", Reading::Numeric);
    push_row(&mut t, Some("cluster"), Some("Current"), Unit::Only("A"), Base::Masterbus, "cluster.", "current", Reading::Numeric);
    push_row(&mut t, Some("cluster"), Some("Temperature"), Unit::Only("°C"), Base::Masterbus, "cluster.", "temperature", Reading::Celsius);
    push_row(&mut t, Some("relay"), None, Unit::Any, Base::Masterbus, "relay.", "", Reading::Text);
    t
}

/// The battery monitor.
pub open spec fn msh_rows() -> Seq<RowModel> {
    seq![
        row(Some("general"@), Some("State of Charge"@), only("%"@), Base::Batteries, "capacity."@, "stateOfCharge"@, Reading::Percent),
        row(Some("general"@), Some("Remaining"@), any_unit(), Base::Batteries, "capacity."@, "timeRemaining"@, Reading::Seconds),
        row(Some("general"@), Some("Cap. consumed"@), only("Ah"@), Base::Batteries, "capacity."@, "dischargeSinceFull"@, Reading::AmpHours),
        row(Some("general"@), Some("Battery"@), only("V"@), Base::Batteries, ""@, "voltage"@, Reading::Numeric),
        row(Some("general"@), Some("Battery"@), only("A"@), Base::Batteries, ""@, "current"@, Reading::Numeric),
        row(Some("general"@), Some("Battery"@), only("°C"@), Base::Batteries, ""@, "temperature"@, Reading::Celsius),
        row(Some("general"@), Some("Time"@), any_unit(), Base::Masterbus, "clock."@, "time"@, Reading::Text),
        row(Some("general"@), Some("Date"@), any_unit(), Base::Masterbus, "clock."@, "date"@, Reading::Text),
    ]
}

fn msh_table() -> (t: Vec<Row>)
    ensures
        models(t@) == msh_rows(),
{
    let mut t: Vec<Row> = Vec::new();
    push_row(&mut t, Some("general"), Some("State of Charge"), Unit::Only("%"), Base::Batteries, "capacity.", "stateOfCharge", Reading::Percent);
    push_row(&mut t, Some("general"), Some("Remaining"), Unit::Any, Base::Batteries, "capacity.", "timeRemaining", Reading::Seconds);
    push_row(&mut t, Some("general"), Some("Cap. consumed"), Unit::Only("Ah"), Base::Batteries, "capacity.", "dischargeSinceFull", Reading::AmpHours);
    push_row(&mut t, Some("general"), Some("Battery"), Unit::Only("V"), Base::Batteries, "", "voltage", Reading::Numeric);
    push_row(&mut t, Some("general"), Some("Battery"), Unit::Only("A"), Base::Batteries, "", "current", Reading::Numeric);
    push_row(&mut t, Some("general"), Some("Battery"), Unit::Only("°C"), Base::Batteries, "", "temperature", Reading::Celsius);
    push_row(&mut t, Some("general"), Some("Time"), Unit::Any, Base::Masterbus, "clock.", "time", Reading::Text);
    push_row(&mut t, Some("general"), Some("Date"), Unit::Any, Base::Masterbus, "clock.", "date", Reading::Text);
    t
}

/// Combined inverter and charger.
pub open spec fn cmr_rows() -> Seq<RowModel> {
    seq![
        row(None, Some("Battery voltage"@), only("V"@), Base::Inverters, "dc."@, "voltage"@, Reading::Numeric),
        row(None, Some("Battery current"@), only("A"@), Base::Inverters, "dc."@, "current"@, Reading::Numeric),
        row(None, Some("Battery temp."@), only("°C"@), Base::Inverters, "dc."@, "temperature"@, Reading::Celsius),
        row(None, Some("Output voltage"@), only("V"@), Base::Inverters, "ac."@, "voltage"@, Reading::Numeric),
        row(None, Some("Output power"@), only("W"@), Base::Inverters, "ac."@, "power"@, Reading::Numeric),
        row(None, Some("Output frequency"@), only("Hz"@), Base::Inverters, "ac."@, "frequency"@, Reading::Numeric),
        row(None, Some("Input voltage"@), only("V"@), Base::Chargers, "acin."@, "voltage"@, Reading::Numeric),
        row(None, Some("Input current"@), only("A"@), Base::Chargers, "acin."@, "current"@, Reading::Numeric),
        row(None, Some("Input frequency"@), only("Hz"@), Base::Chargers, "acin."@, "frequency"@, Reading::Numeric),
        row(None, Some("AC IN limit"@), only("A"@), Base::Chargers, "acin."@, "currentLimit"@, Reading::Numeric),
        row(None, Some("Inverter"@), any_unit(), Base::Inverters, ""@, "enabled"@, Reading::Label),
        row(None, Some("Charger"@), any_unit(), Base::Chargers, ""@, "enabled"@, Reading::Label),
    ]
}

fn cmr_table() -> (t: Vec<Row>)
    ensures
        models(t@) == cmr_rows(),
{
    let mut t: Vec<Row> = Vec::new();
    push_row(&mut t, None, Some("Battery voltage"), Unit::Only("V"), Base::Inverters, "dc.", "voltage", Reading::Numeric);
    push_row(&mut t, None, Some("Battery current"), Unit::Only("A"), Base::Inverters, "dc.", "current", Reading::Numeric);
    push_row(&mut t, None, Some("Battery temp."), Unit::Only("°C"), Base::Inverters, "dc.", "temperature", Reading::Celsius);
    push_row(&mut t, None, Some("Output voltage"), Unit::Only("V"), Base::Inverters, "ac.", "voltage", Reading::Numeric);
    push_row(&mut t, None, Some("Output power"), Unit::Only("W"), Base::Inverters, "ac.", "power", Reading::Numeric);
    push_row(&mut t, None, Some("Output frequency"), Unit::Only("Hz"), Base::Inverters, "ac.", "frequency", Reading::Numeric);
    push_row(&mut t, None, Some("Input voltage"), Unit::Only("V"), Base::Chargers, "acin.", "voltage", Reading::Numeric);
    push_row(&mut t, None, Some("Input current"), Unit::Only("A"), Base::Chargers, "acin.", "current", Reading::Numeric);
    push_row(&mut t, None, Some("Input frequency"), Unit::Only("Hz"), Base::Chargers, "acin.", "frequency", Reading::Numeric);
    push_row(&mut t, None, Some("AC IN limit"), Unit::Only("A"), Base::Chargers, "acin.", "currentLimit", Reading::Numeric);
    push_row(&mut t, None, Some("Inverter"), Unit::Any, Base::Inverters, "", "enabled", Reading::Label);
    push_row(&mut t, None, Some("Charger"), Unit::Any, Base::Chargers, "", "enabled", Reading::Label);
    t
}

/// Combined inverter and charger with solar input, alone or as a cluster.
pub open spec fn mcu_rows() -> Seq<RowModel> {
    seq![
        row(Some("general"@), Some("Device state"@), any_unit(), Base::Masterbus, ""@, "deviceState"@, Reading::Label),
        row(Some("general"@), Some("Mains fuse"@), only("A"@), Base::Inverters, ""@, "mainsFuse"@, Reading::Numeric),
        row(Some("general"@), Some("Inverter"@), any_unit(), Base::Inverters, ""@, "state"@, Reading::Label),
        row(Some("general"@), Some("User mode"@), any_unit(), Base::Masterbus, ""@, "userMode"@, Reading::Label),
        row(Some("general"@), Some("AC in state"@), any_unit(), Base::Inverters, ""@, "acInState"@, Reading::Label),
        row(Some("general"@), Some("AC out state"@), any_unit(), Base::Inverters, ""@, "acOutState"@, Reading::Label),
        row(Some("general"@), Some("Main charger"@), any_unit(), Base::Chargers, ""@, "state"@, Reading::Label),
        row(Some("general"@), Some("Sec. charger"@), any_unit(), Base::Chargers, "secondary."@, "state"@, Reading::Label),
        row(Some("general"@), Some("Solar charger"@), any_unit(), Base::Chargers, "solar."@, "state"@, Reading::Label),
        row(Some("battery--dc-"@), Some("Main charger"@), any_unit(), Base::Chargers, ""@, "state"@, Reading::Label),
        row(Some("battery--dc-"@), Some("Main battery"@), only("V"@), Base::Inverters, "dc."@, "voltage"@, Reading::Numeric),
        row(Some("battery--dc-"@), Some("Main battery"@), only("A"@), Base::Inverters, "dc."@, "current"@, Reading::Numeric),
        row(Some("battery--dc-"@), Some("Main battery"@), only("°C"@), Base::Inverters, "dc."@, "temperature"@, Reading::Celsius),
        row(Some("sec--charger"@), Some("Sec. charger"@), any_unit(), Base::Chargers, "secondary."@, "state"@, Reading::Label),
        row(Some("sec--charger"@), Some("Sec. battery"@), only("V"@), Base::Chargers, "secondary."@, "voltage"@, Reading::Numeric),
        row(Some("sec--charger"@), Some("Sec. battery"@), only("A"@), Base::Chargers, "secondary."@, "current"@, Reading::Numeric),
        row(Some("cluster-ac-in"@), Some("Mains"@), only("V"@), Base::Inverters, "cluster.acInMains."@, "voltage"@, Reading::Numeric),
        row(Some("cluster-ac-in"@), Some("Mains"@), only("A"@), Base::Inverters, "cluster.acInMains."@, "current"@, Reading::Numeric),
        row(Some("cluster-ac-in"@), Some("Mains"@), only("W"@), Base::Inverters, "cluster.acInMains."@, "power"@, Reading::Numeric),
        row(Some("cluster-ac-in"@), Some("Generator"@), only("V"@), Base::Inverters, "cluster.acInGenerator."@, "voltage"@, Reading::Numeric),
        row(Some("cluster-ac-in"@), Some("Generator"@), only("A"@), Base::Inverters, "cluster.acInGenerator."@, "current"@, Reading::Numeric),
        row(Some("cluster-ac-in"@), Some("Generator"@), only("W"@), Base::Inverters, "cluster.acInGenerator."@, "power"@, Reading::Numeric),
        row(Some("cluster-ac-out"@), Some("AC Output 1"@), only("V"@), Base::Inverters, "cluster.acOut1."@, "voltage"@, Reading::Numeric),
        row(Some("cluster-ac-out"@), Some("AC Output 1"@), only("W"@), Base::Inverters, "cluster.acOut1."@, "power"@, Reading::Numeric),
        row(Some("ac-inputs"@), Some("Mains"@), only("V"@), Base::Inverters, "acInputs.mains."@, "voltage"@, Reading::Numeric),
        row(Some("ac-inputs"@), Some("Mains"@), only("A"@), Base::Inverters, "acInputs.mains."@, "current"@, Reading::Numeric),
        row(Some("ac-inputs"@), Some("Mains"@), only("W"@), Base::Inverters, "acInputs.mains."@, "power"@, Reading::Numeric),
        row(Some("ac-inputs"@), Some("Generator"@), only("V"@), Base::Inverters, "acInputs.generator."@, "voltage"@, Reading::Numeric),
        row(Some("ac-inputs"@), Some("Generator"@), only("A"@), Base::Inverters, "acInputs.generator."@, "current"@, Reading::Numeric),
        row(Some("ac-inputs"@), Some("Generator"@), only("W"@), Base::Inverters, "acInputs.generator."@, "power"@, Reading::Numeric),
        row(Some("ac-outputs"@), Some("AC Output 1"@), only("V"@), Base::Inverters, "acOutputs.output1."@, "voltage"@, Reading::Numeric),
        row(Some("ac-outputs"@), Some("AC Output 1"@), only("A"@), Base::Inverters, "acOutputs.output1."@, "current"@, Reading::Numeric),
        row(Some("ac-outputs"@), Some("AC Output 1"@), only("W"@), Base::Inverters, "acOutputs.output1."@, "power"@, Reading::Numeric),
        row(Some("ac-outputs"@), Some("AC Output 2"@), only("V"@), Base::Inverters, "acOutputs.output2."@, "voltage"@, Reading::Numeric),
        row(Some("ac-outputs"@), Some("AC Output 2"@), only("A"@), Base::Inverters, "acOutputs.output2."@, "current"@, Reading::Numeric),
        row(Some("ac-outputs"@), Some("AC Output 2"@), only("W"@), Base::Inverters, "acOutputs.output2."@, "power"@, Reading::Numeric),
        row(Some("solar-input"@), Some("State"@), any_unit(), Base::Chargers, "solar."@, "state"@, Reading::Label),
        row(Some("solar-input"@), Some("Solar Input"@), only("W"@), Base::Chargers, "solar."@, "power"@, Reading::Numeric),
    ]
}

fn mcu_table() -> (t: Vec<Row>)
    ensures
        models(t@) == mcu_rows(),
{
    let mut t: Vec<Row> = Vec::new();
    push_row(&mut t, Some("general"), Some("Device state"), Unit::Any, Base::Masterbus, "", "deviceState", Reading::Label);
    push_row(&mut t, Some("general"), Some("Mains fuse"), Unit::Only("A"), Base::Inverters, "", "mainsFuse", Reading::Numeric);
    push_row(&mut t, Some("general"), Some("Inverter"), Unit::Any, Base::Inverters, "", "state", Reading::Label);
    push_row(&mut t, Some("general"), Some("User mode"), Unit::Any, Base::Masterbus, "", "userMode", Reading::Label);
    push_row(&mut t, Some("general"), Some("AC in state"), Unit::Any, Base::Inverters, "", "acInState", Reading::Label);
    push_row(&mut t, Some("general"), Some("AC out state"), Unit::Any, Base::Inverters, "", "acOutState", Reading::Label);
    push_row(&mut t, Some("general"), Some("Main charger"), Unit::Any, Base::Chargers, "", "state", Reading::Label);
    push_row(&mut t, Some("general"), Some("Sec. charger"), Unit::Any, Base::Chargers, "secondary.", "state", Reading::Label);
    push_row(&mut t, Some("general"), Some("Solar charger"), Unit::Any, Base::Chargers, "solar.", "state", Reading::Label);
    push_row(&mut t, Some("battery--dc-"), Some("Main charger"), Unit::Any, Base::Chargers, "", "state", Reading::Label);
    push_row(&mut t, Some("battery--dc-"), Some("Main battery"), Unit::Only("V"), Base::Inverters, "dc.", "voltage", Reading::Numeric);
    push_row(&mut t, Some("battery--dc-"), Some("Main battery"), Unit::Only("A"), Base::Inverters, "dc.", "current", Reading::Numeric);
    push_row(&mut t, Some("battery--dc-"), Some("Main battery"), Unit::Only("°C"), Base::Inverters, "dc.", "temperature", Reading::Celsius);
    push_row(&mut t, Some("sec--charger"), Some("Sec. charger"), Unit::Any, Base::Chargers, "secondary.", "state", Reading::Label);
    push_row(&mut t, Some("sec--charger"), Some("Sec. battery"), Unit::Only("V"), Base::Chargers, "secondary.", "voltage", Reading::Numeric);
    push_row(&mut t, Some("sec--charger"), Some("Sec. battery"), Unit::Only("A"), Base::Chargers, "secondary.", "current", Reading::Numeric);
    push_row(&mut t, Some("cluster-ac-in"), Some("Mains"), Unit::Only("V"), Base::Inverters, "cluster.acInMains.", "voltage", Reading::Numeric);
    push_row(&mut t, Some("cluster-ac-in"), Some("Mains"), Unit::Only("A"), Base::Inverters, "cluster.acInMains.", "current", Reading::Numeric);
    push_row(&mut t, Some("cluster-ac-in"), Some("Mains"), Unit::Only("W"), Base::Inverters, "cluster.acInMains.", "power", Reading::Numeric);
    push_row(&mut t, Some("cluster-ac-in"), Some("Generator"), Unit::Only("V"), Base::Inverters, "cluster.acInGenerator.", "voltage", Reading::Numeric);
    push_row(&mut t, Some("cluster-ac-in"), Some("Generator"), Unit::Only("A"), Base::Inverters, "cluster.acInGenerator.", "current", Reading::Numeric);
    push_row(&mut t, Some("cluster-ac-in"), Some("Generator"), Unit::Only("W"), Base::Inverters, "cluster.acInGenerator.", "power", Reading::Numeric);
    push_row(&mut t, Some("cluster-ac-out"), Some("AC Output 1"), Unit::Only("V"), Base::Inverters, "cluster.acOut1.", "voltage", Reading::Numeric);
    push_row(&mut t, Some("cluster-ac-out"), Some("AC Output 1"), Unit::Only("W"), Base::Inverters, "cluster.acOut1.", "power", Reading::Numeric);
    push_row(&mut t, Some("ac-inputs"), Some("Mains"), Unit::Only("V"), Base::Inverters, "acInputs.mains.", "voltage", Reading::Numeric);
    push_row(&mut t, Some("ac-inputs"), Some("Mains"), Unit::Only("A"), Base::Inverters, "acInputs.mains.", "current", Reading::Numeric);
    push_row(&mut t, Some("ac-inputs"), Some("Mains"), Unit::Only("W"), Base::Inverters, "acInputs.mains.", "power", Reading::Numeric);
    push_row(&mut t, Some("ac-inputs"), Some("Generator"), Unit::Only("V"), Base::Inverters, "acInputs.generator.", "voltage", Reading::Numeric);
    push_row(&mut t, Some("ac-inputs"), Some("Generator"), Unit::Only("A"), Base::Inverters, "acInputs.generator.", "current", Reading::Numeric);
    push_row(&mut t, Some("ac-inputs"), Some("Generator"), Unit::Only("W"), Base::Inverters, "acInputs.generator.", "power", Reading::Numeric);
    push_row(&mut t, Some("ac-outputs"), Some("AC Output 1"), Unit::Only("V"), Base::Inverters, "acOutputs.output1.", "voltage", Reading::Numeric);
    push_row(&mut t, Some("ac-outputs"), Some("AC Output 1"), Unit::Only("A"), Base::Inverters, "acOutputs.output1.", "current", Reading::Numeric);
    push_row(&mut t, Some("ac-outputs"), Some("AC Output 1"), Unit::Only("W"), Base::Inverters, "acOutputs.output1.", "power", Reading::Numeric);
    push_row(&mut t, Some("ac-outputs"), Some("AC Output 2"), Unit::Only("V"), Base::Inverters, "acOutputs.output2.", "voltage", Reading::Numeric);
    push_row(&mut t, Some("ac-outputs"), Some("AC Output 2"), Unit::Only("A"), Base::Inverters, "acOutputs.output2.", "current", Reading::Numeric);
    push_row(&mut t, Some("ac-outputs"), Some("AC Output 2"), Unit::Only("W"), Base::Inverters, "acOutputs.output2.", "power", Reading::Numeric);
    push_row(&mut t, Some("solar-input"), Some("State"), Unit::Any, Base::Chargers, "solar.", "state", Reading::Label);
    push_row(&mut t, Some("solar-input"), Some("Solar Input"), Unit::Only("W"), Base::Chargers, "solar.", "power", Reading::Numeric);
    t
}

/// Converters from one direct voltage to another; the rows without a group serve schemas
/// whose groups say nothing.
pub open spec fn mac_rows() -> Seq<RowModel> {
    seq![
        row(Some("status"@), Some("Device state"@), any_unit(), Base::Chargers, ""@, "deviceMode"@, Reading::LowerLabel),
        row(Some("status"@), Some("Charge state"@), any_unit(), Base::Chargers, ""@, "chargingMode"@, Reading::LowerLabel),
        row(Some("status"@), Some("On/Standby"@), any_unit(), Base::Chargers, ""@, "state"@, Reading::Label),
        row(Some("dc-48v"@), Some("Thrust 48v [V]"@), only("V"@), Base::Chargers, "dc48."@, "voltage"@, Reading::Numeric),
        row(Some("dc-48v"@), Some("Thrust 48v [A]"@), only("A"@), Base::Chargers, "dc48."@, "current"@, Reading::Numeric),
        row(Some("dc-48v"@), Some("Bat. volt sense"@), only("V"@), Base::Chargers, ""@, "voltageSense"@, Reading::Numeric),
        row(Some("dc-24v"@), Some("House 24v [V]"@), only("V"@), Base::Chargers, "dc24."@, "voltage"@, Reading::Numeric),
        row(Some("dc-24v"@), Some("House 24v [A]"@), only("A"@), Base::Chargers, "dc24."@, "current"@, Reading::Numeric),
        row(Some("remote"@), Some("Remote input"@), any_unit(), Base::Chargers, ""@, "remoteInput"@, Reading::Label),
        row(Some("temperature"@), Some("Device"@), only("°C"@), Base::Chargers, ""@, "temperature"@, Reading::Celsius),
        row(Some("temperature"@), Some("Battery"@), only("°C"@), Base::Chargers, "battery."@, "temperature"@, Reading::Celsius),
        row(None, Some("Output voltage"@), only_or_blank("V"@), Base::Chargers, ""@, "voltage"@, Reading::Numeric),
        row(None, Some("Output current"@), only_or_blank("A"@), Base::Chargers, ""@, "current"@, Reading::Numeric),
        row(None, Some("Input voltage"@), only_or_blank("V"@), Base::Chargers, "input."@, "voltage"@, Reading::Numeric),
        row(None, Some("Input current"@), only_or_blank("A"@), Base::Chargers, "input."@, "current"@, Reading::Numeric),
        row(None, Some("Bat. volt sense"@), only_or_blank("V"@), Base::Chargers, ""@, "voltageSense"@, Reading::Numeric),
        row(None, Some("Device"@), only("°C"@), Base::Chargers, ""@, "temperature"@, Reading::Celsius),
        row(None, Some("Battery"@), only("°C"@), Base::Chargers, "battery."@, "temperature"@, Reading::Celsius),
        row(None, Some("Device state"@), any_unit(), Base::Chargers, ""@, "deviceMode"@, Reading::LowerLabel),
        row(None, Some("Charge state"@), any_unit(), Base::Chargers, ""@, "chargingMode"@, Reading::LowerLabel),
        row(None, Some("Standby"@), any_unit(), Base::Chargers, ""@, "enabled"@, Reading::Negated),
    ]
}

fn mac_table() -> (t: Vec<Row>)
    ensures
        models(t@) == mac_rows(),
{
    let mut t: Vec<Row> = Vec::new();
    push_row(&mut t, Some("status"), Some("Device state"), Unit::Any, Base::Chargers, "", "deviceMode", Reading::LowerLabel);
    push_row(&mut t, Some("status"), Some("Charge state"), Unit::Any, Base::Chargers, "", "chargingMode", Reading::LowerLabel);
    push_row(&mut t, Some("status"), Some("On/Standby"), Unit::Any, Base::Chargers, "", "state", Reading::Label);
    push_row(&mut t, Some("dc-48v"), Some("Thrust 48v [V]"), Unit::Only("V"), Base::Chargers, "dc48.", "voltage", Reading::Numeric);
    push_row(&mut t, Some("dc-48v"), Some("Thrust 48v [A]"), Unit::Only("A"), Base::Chargers, "dc48.", "current", Reading::Numeric);
    push_row(&mut t, Some("dc-48v"), Some("Bat. volt sense"), Unit::Only("V"), Base::Chargers, "", "voltageSense", Reading::Numeric);
    push_row(&mut t, Some("dc-24v"), Some("House 24v [V]"), Unit::Only("V"), Base::Chargers, "dc24.", "voltage", Reading::Numeric);
    push_row(&mut t, Some("dc-24v"), Some("House 24v [A]"), Unit::Only("A"), Base::Chargers, "dc24.", "current", Reading::Numeric);
    push_row(&mut t, Some("remote"), Some("Remote input"), Unit::Any, Base::Chargers, "", "remoteInput", Reading::Label);
    push_row(&mut t, Some("temperature"), Some("Device"), Unit::Only("°C"), Base::Chargers, "", "temperature", Reading::Celsius);
    push_row(&mut t, Some("temperature"), Some("Battery"), Unit::Only("°C"), Base::Chargers, "battery.", "temperature", Reading::Celsius);
    push_row(&mut t, None, Some("Output voltage"), Unit::OnlyOrBlank("V"), Base::Chargers, "", "voltage", Reading::Numeric);
    push_row(&mut t, None, Some("Output current"), Unit::OnlyOrBlank("A"), Base::Chargers, "", "current", Reading::Numeric);
    push_row(&mut t, None, Some("Input voltage"), Unit::OnlyOrBlank("V"), Base::Chargers, "input.", "voltage", Reading::Numeric);
    push_row(&mut t, None, Some("Input current"), Unit::OnlyOrBlank("A"), Base::Chargers, "input.", "current", Reading::Numeric);
    push_row(&mut t, None, Some("Bat. volt sense"), Unit::OnlyOrBlank("V"), Base::Chargers, "", "voltageSense", Reading::Numeric);
    push_row(&mut t, None, Some("Device"), Unit::Only("°C"), Base::Chargers, "", "temperature", Reading::Celsius);
    push_row(&mut t, None, Some("Battery"), Unit::Only("°C"), Base::Chargers, "battery.", "temperature", Reading::Celsius);
    push_row(&mut t, None, Some("Device state"), Unit::Any, Base::Chargers, "", "deviceMode", Reading::LowerLabel);
    push_row(&mut t, None, Some("Charge state"), Unit::Any, Base::Chargers, "", "chargingMode", Reading::LowerLabel);
    push_row(&mut t, None, Some("Standby"), Unit::Any, Base::Chargers, "", "enabled", Reading::Negated);
    t
}

/// Interfaces with a converter behind them.
pub open spec fn int_rows() -> Seq<RowModel> {
    seq![
        row(Some("mac-magic"@), Some("Mode"@), any_unit(), Base::Chargers, ""@, "deviceMode"@, Reading::Label),
        row(Some("mac-magic"@), Some("Mac/Magic On"@), any_unit(), Base::Chargers, ""@, "state"@, Reading::Label),
        row(Some("mac-magic"@), Some("DC Input"@), only("V"@), Base::Chargers, "input."@, "voltage"@, Reading::Numeric),
        row(Some("mac-magic"@), Some("DC Output"@), only("V"@), Base::Chargers, ""@, "voltage"@, Reading::Numeric),
        row(Some("mac-magic"@), Some("DC Output"@), only("A"@), Base::Chargers, ""@, "current"@, Reading::Numeric),
    ]
}

fn int_table() -> (t: Vec<Row>)
    ensures
        models(t@) == int_rows(),
{
    let mut t: Vec<Row> = Vec::new();
    push_row(&mut t, Some("mac-magic"), Some("Mode"), Unit::Any, Base::Chargers, "", "deviceMode", Reading::Label);
    push_row(&mut t, Some("mac-magic"), Some("Mac/Magic On"), Unit::Any, Base::Chargers, "", "state", Reading::Label);
    push_row(&mut t, Some("mac-magic"), Some("DC Input"), Unit::Only("V"), Base::Chargers, "input.", "voltage", Reading::Numeric);
    push_row(&mut t, Some("mac-magic"), Some("DC Output"), Unit::Only("V"), Base::Chargers, "", "voltage", Reading::Numeric);
    push_row(&mut t, Some("mac-magic"), Some("DC Output"), Unit::Only("A"), Base::Chargers, "", "current", Reading::Numeric);
    t
}

/// Chargers; models differ in their groups.
pub open spec fn chg_rows() -> Seq<RowModel> {
    seq![
        row(Some("general"@), Some("Device state"@), any_unit(), Base::Chargers, ""@, "deviceMode"@, Reading::Label),
        row(Some("general"@), Some("On/Stand-by"@), any_unit(), Base::Chargers, ""@, "state"@, Reading::Label),
        row(Some("general"@), Some("Max. current"@), only("%"@), Base::Chargers, ""@, "currentLimitRatio"@, Reading::Percent),
        row(Some("general"@), Some("State"@), any_unit(), Base::Chargers, ""@, "chargingMode"@, Reading::LowerLabel),
        row(Some("general"@), Some("Charger temp"@), only("°C"@), Base::Chargers, ""@, "temperature"@, Reading::Celsius),
        row(Some("output"@), Some("Battery name"@), any_unit(), Base::Chargers, "battery."@, "name"@, Reading::Text),
        row(Some("output"@), Some("Battery voltage"@), only("V"@), Base::Chargers, ""@, "voltage"@, Reading::Numeric),
        row(Some("output"@), Some("Battery current"@), only("A"@), Base::Chargers, ""@, "current"@, Reading::Numeric),
        row(Some("output"@), Some("Bat. temperature"@), only("°C"@), Base::Chargers, "battery."@, "temperature"@, Reading::Celsius),
        row(Some("monitoring"@), Some("State"@), any_unit(), Base::Chargers, ""@, "deviceMode"@, Reading::Label),
        row(Some("monitoring"@), Some("State of charger"@), any_unit(), Base::Chargers, ""@, "chargingMode"@, Reading::LowerLabel),
        row(Some("monitoring"@), Some("Charger"@), any_unit(), Base::Chargers, ""@, "state"@, Reading::Label),
        row(Some("monitoring"@), Some("Set max current"@), only("A"@), Base::Chargers, ""@, "currentLimit"@, Reading::Numeric),
        row(Some("monitoring"@), Some("Output 1"@), only("V"@), Base::Chargers, ""@, "voltage"@, Reading::Numeric),
        row(Some("monitoring"@), Some("Output 1"@), only("A"@), Base::Chargers, ""@, "current"@, Reading::Numeric),
        row(Some("monitoring"@), Some("Output 2"@), only("V"@), Base::Chargers, "output2."@, "voltage"@, Reading::Numeric),
        row(Some("monitoring"@), Some("Output 2"@), only("A"@), Base::Chargers, "output2."@, "current"@, Reading::Numeric),
        row(Some("monitoring"@), Some("Output 3"@), only("V"@), Base::Chargers, "output3."@, "voltage"@, Reading::Numeric),
        row(Some("monitoring"@), Some("Output 3"@), only("A"@), Base::Chargers, "output3."@, "current"@, Reading::Numeric),
        row(Some("monitoring"@), Some("Battery"@), only("°C"@), Base::Chargers, "battery."@, "temperature"@, Reading::Celsius),
    ]
}

fn chg_table() -> (t: Vec<Row>)
    ensures
        models(t@) == chg_rows(),
{
    let mut t: Vec<Row> = Vec::new();
    push_row(&mut t, Some("general"), Some("Device state"), Unit::Any, Base::Chargers, "", "deviceMode", Reading::Label);
    push_row(&mut t, Some("general"), Some("On/Stand-by"), Unit::Any, Base::Chargers, "", "state", Reading::Label);
    push_row(&mut t, Some("general"), Some("Max. current"), Unit::Only("%"), Base::Chargers, "", "currentLimitRatio", Reading::Percent);
    push_row(&mut t, Some("general"), Some("State"), Unit::Any, Base::Chargers, "", "chargingMode", Reading::LowerLabel);
    push_row(&mut t, Some("general"), Some("Charger temp"), Unit::Only("°C"), Base::Chargers, "", "temperature", Reading::Celsius);
    push_row(&mut t, Some("output"), Some("Battery name"), Unit::Any, Base::Chargers, "battery.", "name", Reading::Text);
    push_row(&mut t, Some("output"), Some("Battery voltage"), Unit::Only("V"), Base::Chargers, "", "voltage", Reading::Numeric);
    push_row(&mut t, Some("output"), Some("Battery current"), Unit::Only("A"), Base::Chargers, "", "current", Reading::Numeric);
    push_row(&mut t, Some("output"), Some("Bat. temperature"), Unit::Only("°C"), Base::Chargers, "battery.", "temperature", Reading::Celsius);
    push_row(&mut t, Some("monitoring"), Some("State"), Unit::Any, Base::Chargers, "", "deviceMode", Reading::Label);
    push_row(&mut t, Some("monitoring"), Some("State of charger"), Unit::Any, Base::Chargers, "", "chargingMode", Reading::LowerLabel);
    push_row(&mut t, Some("monitoring"), Some("Charger"), Unit::Any, Base::Chargers, "", "state", Reading::Label);
    push_row(&mut t, Some("monitoring"), Some("Set max current"), Unit::Only("A"), Base::Chargers, "", "currentLimit", Reading::Numeric);
    push_row(&mut t, Some("monitoring"), Some("Output 1"), Unit::Only("V"), Base::Chargers, "", "voltage", Reading::Numeric);
    push_row(&mut t, Some("monitoring"), Some("Output 1"), Unit::Only("A"), Base::Chargers, "", "current", Reading::Numeric);
    push_row(&mut t, Some("monitoring"), Some("Output 2"), Unit::Only("V"), Base::Chargers, "output2.", "voltage", Reading::Numeric);
    push_row(&mut t, Some("monitoring"), Some("Output 2"), Unit::Only("A"), Base::Chargers, "output2.", "current", Reading::Numeric);
    push_row(&mut t, Some("monitoring"), Some("Output 3"), Unit::Only("V"), Base::Chargers, "output3.", "voltage", Reading::Numeric);
    push_row(&mut t, Some("monitoring"), Some("Output 3"), Unit::Only("A"), Base::Chargers, "output3.", "current", Reading::Numeric);
    push_row(&mut t, Some("monitoring"), Some("Battery"), Unit::Only("°C"), Base::Chargers, "battery.", "temperature", Reading::Celsius);
    t
}

/// Alternator regulators; the rows without a group serve schemas whose groups say nothing.
pub open spec fn apr_rows() -> Seq<RowModel> {
    seq![
        row(Some("general"@), Some("Device state"@), any_unit(), Base::Alternators, ""@, "deviceState"@, Reading::Label),
        row(Some("general"@), Some("Charger state"@), any_unit(), Base::Alternators, ""@, "chargingMode"@, Reading::LowerLabel),
        row(Some("battery"@), Some("Battery voltage"@), only("V"@), Base::Alternators, "battery."@, "voltage"@, Reading::Numeric),
        row(Some("battery"@), Some("Battery temp."@), only("°C"@), Base::Alternators, "battery."@, "temperature"@, Reading::Celsius),
        row(Some("alternator"@), Some("Alternator volt."@), only("V"@), Base::Alternators, ""@, "voltage"@, Reading::Numeric),
        row(Some("alternator"@), Some("Sense voltage"@), only("V"@), Base::Alternators, ""@, "voltageSense"@, Reading::Numeric),
        row(Some("alternator"@), Some("Field current"@), only("A"@), Base::Alternators, "field."@, "current"@, Reading::Numeric),
        row(Some("alternator"@), Some("Alternator temp."@), only("°C"@), Base::Alternators, ""@, "temperature"@, Reading::Celsius),
        row(Some("alternator"@), Some("Alternator shaft"@), only("rpm"@), Base::Alternators, ""@, "revolutions"@, Reading::Rpm),
        row(Some("alternator"@), Some("Engine shaft"@), only("rpm"@), Base::Alternators, "engine."@, "revolutions"@, Reading::Rpm),
        row(Some("shunt"@), Some("State"@), any_unit(), Base::Alternators, "shunt."@, "state"@, Reading::Label),
        row(Some("shunt"@), Some("State of charge"@), only("%"@), Base::Alternators, "shunt."@, "stateOfCharge"@, Reading::Percent),
        row(Some("shunt"@), Some("Battery voltage"@), only("V"@), Base::Alternators, "shunt."@, "voltage"@, Reading::Numeric),
        row(Some("shunt"@), Some("Battery current"@), only("A"@), Base::Alternators, "shunt."@, "current"@, Reading::Numeric),
        row(Some("shunt"@), Some("Battery temp."@), only("°C"@), Base::Alternators, "shunt."@, "temperature"@, Reading::Celsius),
        row(None, Some("Alternator volt."@), only("V"@), Base::Alternators, ""@, "voltage"@, Reading::Numeric),
        row(None, Some("Sense voltage"@), only("V"@), Base::Alternators, ""@, "voltageSense"@, Reading::Numeric),
        row(None, Some("Field current"@), only("A"@), Base::Alternators, "field."@, "current"@, Reading::Numeric),
        row(None, Some("Alternator temp."@), only("°C"@), Base::Alternators, ""@, "temperature"@, Reading::Celsius),
        row(None, Some("Alternator shaft"@), only("rpm"@), Base::Alternators, ""@, "revolutions"@, Reading::Rpm),
        row(None, Some("Engine shaft"@), only("rpm"@), Base::Alternators, "engine."@, "revolutions"@, Reading::Rpm),
        row(None, Some("Charger state"@), any_unit(), Base::Alternators, ""@, "chargingMode"@, Reading::LowerLabel),
        row(None, Some("State of charge"@), only("%"@), Base::Alternators, "battery."@, "stateOfCharge"@, Reading::Percent),
        row(None, Some("Battery voltage"@), only("V"@), Base::Alternators, "battery."@, "voltage"@, Reading::Numeric),
        row(None, Some("Battery current"@), only("A"@), Base::Alternators, "battery."@, "current"@, Reading::Numeric),
        row(None, Some("Battery temp."@), only("°C"@), Base::Alternators, "battery."@, "temperature"@, Reading::Celsius),
    ]
}

fn apr_table() -> (t: Vec<Row>)
    ensures
        models(t@) == apr_rows(),
{
    let mut t: Vec<Row> = Vec::new();
    push_row(&mut t, Some("general"), Some("Device state"), Unit::Any, Base::Alternators, "", "deviceState", Reading::Label);
    push_row(&mut t, Some("general"), Some("Charger state"), Unit::Any, Base::Alternators, "", "chargingMode", Reading::LowerLabel);
    push_row(&mut t, Some("battery"), Some("Battery voltage"), Unit::Only("V"), Base::Alternators, "battery.", "voltage", Reading::Numeric);
    push_row(&mut t, Some("battery"), Some("Battery temp."), Unit::Only("°C"), Base::Alternators, "battery.", "temperature", Reading::Celsius);
    push_row(&mut t, Some("alternator"), Some("Alternator volt."), Unit::Only("V"), Base::Alternators, "", "voltage", Reading::Numeric);
    push_row(&mut t, Some("alternator"), Some("Sense voltage"), Unit::Only("V"), Base::Alternators, "", "voltageSense", Reading::Numeric);
    push_row(&mut t, Some("alternator"), Some("Field current"), Unit::Only("A"), Base::Alternators, "field.", "current", Reading::Numeric);
    push_row(&mut t, Some("alternator"), Some("Alternator temp."), Unit::Only("°C"), Base::Alternators, "", "temperature", Reading::Celsius);
    push_row(&mut t, Some("alternator"), Some("Alternator shaft"), Unit::Only("rpm"), Base::Alternators, "", "revolutions", Reading::Rpm);
    push_row(&mut t, Some("alternator"), Some("Engine shaft"), Unit::Only("rpm"), Base::Alternators, "engine.", "revolutions", Reading::Rpm);
    push_row(&mut t, Some("shunt"), Some("State"), Unit::Any, Base::Alternators, "shunt.", "state", Reading::Label);
    push_row(&mut t, Some("shunt"), Some("State of charge"), Unit::Only("%"), Base::Alternators, "shunt.", "stateOfCharge", Reading::Percent);
    push_row(&mut t, Some("shunt"), Some("Battery voltage"), Unit::Only("V"), Base::Alternators, "shunt.", "voltage", Reading::Numeric);
    push_row(&mut t, Some("shunt"), Some("Battery current"), Unit::Only("A"), Base::Alternators, "shunt.", "current", Reading::Numeric);
    push_row(&mut t, Some("shunt"), Some("Battery temp."), Unit::Only("°C"), Base::Alternators, "shunt.", "temperature", Reading::Celsius);
    push_row(&mut t, None, Some("Alternator volt."), Unit::Only("V"), Base::Alternators, "", "voltage", Reading::Numeric);
    push_row(&mut t, None, Some("Sense voltage"), Unit::Only("V"), Base::Alternators, "", "voltageSense", Reading::Numeric);
    push_row(&mut t, None, Some("Field current"), Unit::Only("A"), Base::Alternators, "field.", "current", Reading::Numeric);
    push_row(&mut t, None, Some("Alternator temp."), Unit::Only("°C"), Base::Alternators, "", "temperature", Reading::Celsius);
    push_row(&mut t, None, Some("Alternator shaft"), Unit::Only("rpm"), Base::Alternators, "", "revolutions", Reading::Rpm);
    push_row(&mut t, None, Some("Engine shaft"), Unit::Only("rpm"), Base::Alternators, "engine.", "revolutions", Reading::Rpm);
    push_row(&mut t, None, Some("Charger state"), Unit::Any, Base::Alternators, "", "chargingMode", Reading::LowerLabel);
    push_row(&mut t, None, Some("State of charge"), Unit::Only("%"), Base::Alternators, "battery.", "stateOfCharge", Reading::Percent);
    push_row(&mut t, None, Some("Battery voltage"), Unit::Only("V"), Base::Alternators, "battery.", "voltage", Reading::Numeric);
    push_row(&mut t, None, Some("Battery current"), Unit::Only("A"), Base::Alternators, "battery.", "current", Reading::Numeric);
    push_row(&mut t, None, Some("Battery temp."), Unit::Only("°C"), Base::Alternators, "battery.", "temperature", Reading::Celsius);
    t
}

/// Displays. Switches carry the names their owner gave them.
pub open spec fn dis_rows() -> Seq<RowModel> {
    seq![
        row(Some("switches"@), None, any_unit(), Base::Masterbus, "switches."@, ".state"@, Reading::Text),
        row(Some("general"@), Some("Language"@), any_unit(), Base::Masterbus, "display."@, "language"@, Reading::Text),
        row(Some("general"@), Some("Alarm sound"@), any_unit(), Base::Masterbus, "display."@, "alarmSound"@, Reading::Label),
        row(Some("power-save"@), Some("Standby time"@), any_unit(), Base::Masterbus, "display.powerSave."@, "standbyTime"@, Reading::SecondsOrText),
        row(Some("power-save"@), Some("Auto off"@), any_unit(), Base::Masterbus, "display.powerSave."@, "autoOff"@, Reading::Label),
        row(Some("power-save"@), Some("Backlight"@), only("%"@), Base::Masterbus, "display.powerSave."@, "backlight"@, Reading::Percent),
        row(Some("widgets"@), Some("Page duration"@), any_unit(), Base::Masterbus, "display.widgets."@, "pageDuration"@, Reading::SecondsOrText),
        row(Some("widgets"@), Some("Slideshow"@), any_unit(), Base::Masterbus, "display.widgets."@, "slideshow"@, Reading::Label),
    ]
}

fn dis_table() -> (t: Vec<Row>)
    ensures
        models(t@) == dis_rows(),
{
    let mut t: Vec<Row> = Vec::new();
    push_row(&mut t, Some("switches"), None, Unit::Any, Base::Masterbus, "switches.", ".state", Reading::Text);
    push_row(&mut t, Some("general"), Some("Language"), Unit::Any, Base::Masterbus, "display.", "language", Reading::Text);
    push_row(&mut t, Some("general"), Some("Alarm sound"), Unit::Any, Base::Masterbus, "display.", "alarmSound", Reading::Label);
    push_row(&mut t, Some("power-save"), Some("Standby time"), Unit::Any, Base::Masterbus, "display.powerSave.", "standbyTime", Reading::SecondsOrText);
    push_row(&mut t, Some("power-save"), Some("Auto off"), Unit::Any, Base::Masterbus, "display.powerSave.", "autoOff", Reading::Label);
    push_row(&mut t, Some("power-save"), Some("Backlight"), Unit::Only("%"), Base::Masterbus, "display.powerSave.", "backlight", Reading::Percent);
    push_row(&mut t, Some("widgets"), Some("Page duration"), Unit::Any, Base::Masterbus, "display.widgets.", "pageDuration", Reading::SecondsOrText);
    push_row(&mut t, Some("widgets"), Some("Slideshow"), Unit::Any, Base::Masterbus, "display.widgets.", "slideshow", Reading::Label);
    t
}

/// The rows of a class of devices.
pub open spec fn class_rows(class: Seq<char>) -> Seq<RowModel> {
    if class == "BAT"@ {
        bat_rows()
    } else if class == "MSH"@ {
        msh_rows()
    } else if class == "CMR"@ {
        cmr_rows()
    } else if class == "MCU"@ {
        mcu_rows()
    } else if class == "MAC"@ {
        mac_rows()
    } else if class == "INT"@ {
        int_rows()
    } else if class == "CHG"@ {
        chg_rows()
    } else if class == "APR"@ {
        apr_rows()
    } else if class == "DIS"@ {
        dis_rows()
    } else {
        seq![]
    }
}

fn class_table(class: &str) -> (t: Vec<Row>)
    ensures
        models(t@) == class_rows(class@),
{
    if same(class, "BAT") {
        bat_table()
    } else if same(class, "MSH") {
        msh_table()
    } else if same(class, "CMR") {
        cmr_table()
    } else if same(class, "MCU") {
        mcu_table()
    } else if same(class, "MAC") {
        mac_table()
    } else if same(class, "INT") {
        int_table()
    } else if same(class, "CHG") {
        chg_table()
    } else if same(class, "APR") {
        apr_table()
    } else if same(class, "DIS") {
        dis_table()
    } else {
        let t: Vec<Row> = Vec::new();
        assert(models(t@) =~= seq![]);
        t
    }
}

// ---- the mapping ---------------------------------------------------------------

impl UnitModel {
    /// Whether a unit is one of those meant.
    pub open spec fn admits(self, unit: Seq<char>) -> bool {
        match self {
            UnitModel::Any => true,
            UnitModel::Only(u) => unit == u,
            UnitModel::OnlyOrBlank(u) => unit == u || unit.len() == 0,
        }
    }
}

impl RowModel {
    /// Whether the row is for a field.
    pub open spec fn admits(self, group: Seq<char>, name: Seq<char>, unit: Seq<char>) -> bool {
        &&& self.group matches Some(g) ==> group == g
        &&& self.name matches Some(n) ==> name == n
        &&& self.unit.admits(unit)
    }

    /// What stands behind the node of the device in the path of a field, or nothing
    /// where the name of the field leaves no slug.
    pub open spec fn tail(self, name: Seq<char>) -> Option<Seq<char>> {
        if self.name is Some {
            Some(self.node + self.last)
        } else if slug(name).len() > 0 {
            Some(self.node + slug(name) + self.last)
        } else {
            None
        }
    }
}

/// The first row for a field.
pub open spec fn first_row(
    rows: Seq<RowModel>,
    group: Seq<char>,
    name: Seq<char>,
    unit: Seq<char>,
) -> Option<RowModel>
    decreases rows.len(),
{
    if rows.len() == 0 {
        None
    } else if rows[0].admits(group, name, unit) {
        Some(rows[0])
    } else {
        first_row(rows.drop_first(), group, name, unit)
    }
}

/// The path of a field and how its value is read, where the field is known.
pub open spec fn rule(
    class: Seq<char>,
    id: Seq<char>,
    group: Seq<char>,
    name: Seq<char>,
    unit: Seq<char>,
) -> Option<(Seq<char>, Reading)> {
    match first_row(class_rows(class), group, name, trimmed(unit)) {
        Some(r) => match r.tail(name) {
            Some(t) => Some((r.base.node(id) + "."@ + t, r.reading)),
            None => None,
        },
        None => None,
    }
}

/// The path of a field that is known.
pub open spec fn known_path(
    class: Seq<char>,
    id: Seq<char>,
    group: Seq<char>,
    name: Seq<char>,
    unit: Seq<char>,
) -> Option<Seq<char>> {
    match rule(class, id, group, name, unit) {
        Some((p, _)) => Some(p),
        None => None,
    }
}

/// What is published of a field: its path and its value.
pub open spec fn mapped(
    class: Seq<char>,
    id: Seq<char>,
    group: Seq<char>,
    name: Seq<char>,
    unit: Seq<char>,
    value: BusValue,
) -> Option<(Seq<char>, PublishedModel)> {
    match rule(class, id, group, name, unit) {
        Some((p, reading)) => match reading.apply(value) {
            Some(v) => Some((p, v)),
            None => None,
        },
        None => None,
    }
}

fn unit_fits(rule: &Unit, unit: &str) -> (r: bool)
    ensures
        r == rule@.admits(unit@),
{
    match rule {
        Unit::Any => true,
        Unit::Only(u) => same(unit, u),
        Unit::OnlyOrBlank(u) => same(unit, u) || unit.is_empty(),
    }
}

fn row_fits(r: &Row, group: &str, name: &str, unit: &str) -> (fits: bool)
    ensures
        fits == r@.admits(group@, name@, unit@),
{
    let by_group: bool = match r.group {
        Some(g) => same(group, g),
        None => true,
    };
    let by_name: bool = match r.name {
        Some(n) => same(name, n),
        None => true,
    };
    by_group && by_name && unit_fits(&r.unit, unit)
}

/// The path of a field and how its value is read.
fn find_rule(class: &str, id: &str, group: &str, name: &str, unit: &str) -> (r: Option<
    (String, Reading),
>)
    ensures
        match r {
            Some((p, reading)) => rule(class@, id@, group@, name@, unit@) == Some((p@, reading)),
            None => rule(class@, id@, group@, name@, unit@) is None,
        },
{
    let given = trim(unit);
    let t = class_table(class);
    let ghost rows = class_rows(class@);
    let mut i: usize = 0;
    assert(rows.skip(0) =~= rows);
    while i < t.len()
        invariant
            i <= t@.len(),
            models(t@) == rows,
            rows == class_rows(class@),
            given@ == trimmed(unit@),
            first_row(rows, group@, name@, given@) == first_row(
                rows.skip(i as int),
                group@,
                name@,
                given@,
            ),
        decreases t@.len() - i,
    {
        assert(rows[i as int] == t@[i as int]@);
        assert(rows.skip(i as int)[0] == rows[i as int]);
        if row_fits(&t[i], group, name, given) {
            let r = &t[i];
            let mut path = r.base.node_text(id);
            path.append(".");
            let ghost head = path@;
            path.append(r.node);
            if r.name.is_none() {
                let middle = field_slug(name);
                if middle.as_str().is_empty() {
                    return None;
                }
                path.append(middle.as_str());
                path.append(r.last);
                assert(path@ =~= head + (r.node@ + slug(name@) + r.last@));
            } else {
                path.append(r.last);
                assert(path@ =~= head + (r.node@ + r.last@));
            }
            return Some((path, r.reading));
        }
        assert(rows.skip(i as int).drop_first() =~= rows.skip(i as int + 1));
        i += 1;
    }
    None
}

/// The path suggested for a field, where the field is known.
pub fn suggested_path(class: &str, id: &str, group: &str, name: &str, unit: &str) -> (r: Option<
    String,
>)
    ensures
        match r {
            Some(p) => known_path(class@, id@, group@, name@, unit@) == Some(p@),
            None => known_path(class@, id@, group@, name@, unit@) is None,
        },
{
    match find_rule(class, id, group, name, unit) {
        Some((p, _)) => Some(p),
        None => None,
    }
}

/// The path and the value of a field in Signal K. There is none where the field is
/// not known, or its value is not valid.
pub fn map_field(
    class: &str,
    id: &str,
    group: &str,
    name: &str,
    unit: &str,
    value: &BusValue,
) -> (r: Option<(String, Published)>)
    ensures
        match r {
            Some((p, v)) => mapped(class@, id@, group@, name@, unit@, *value) == Some((p@, v@)),
            None => mapped(class@, id@, group@, name@, unit@, *value) is None,
        },
{
    match find_rule(class, id, group, name, unit) {
        Some((p, reading)) => match reading.read(value) {
            Some(v) => Some((p, v)),
            None => None,
        },
        None => None,
    }
}

} // verus!
