//! The field configuration file: which fields are published, and under which paths.
//!
//! Finding a field does not publish it. A field is published once its entry is
//! enabled, under the path that the entry holds.

use vstd::prelude::*;

use crate::quote::{law_quoted_reads_back, quoted, toml_string};
use crate::text::{alnum, cat, cat3, chars_of, is_alnum, same, trim, trimmed};

verus! {

/// What is published of a device itself.
#[derive(Debug, PartialEq, Eq)]
pub struct DeviceConfig {
    /// The address of the device.
    pub device: String,
    pub class: String,
    pub instance: String,
    pub publish_name: bool,
    pub publish_manufacturer_name: bool,
    pub publish_model: bool,
}

/// What the entry of a device holds.
#[verifier::ext_equal]
pub struct DeviceModel {
    pub device: Seq<char>,
    pub class: Seq<char>,
    pub instance: Seq<char>,
    pub publish_name: bool,
    pub publish_manufacturer_name: bool,
    pub publish_model: bool,
}

impl View for DeviceConfig {
    type V = DeviceModel;

    open spec fn view(&self) -> DeviceModel {
        DeviceModel {
            device: self.device@,
            class: self.class@,
            instance: self.instance@,
            publish_name: self.publish_name,
            publish_manufacturer_name: self.publish_manufacturer_name,
            publish_model: self.publish_model,
        }
    }
}

/// Whether a field is published, and where.
#[derive(Debug, PartialEq, Eq)]
pub struct FieldConfig {
    /// The address of the device.
    pub device: String,
    pub class: String,
    pub instance: String,
    pub group: String,
    /// The number of the field on its device.
    pub index: String,
    pub field: String,
    pub unit: String,
    pub enabled: bool,
    /// The path that the mapper suggests, or nothing.
    pub suggested_path: String,
    /// The path under which the field is published.
    pub path: String,
}

/// What the entry of a field holds.
#[verifier::ext_equal]
pub struct FieldModel {
    pub device: Seq<char>,
    pub class: Seq<char>,
    pub instance: Seq<char>,
    pub group: Seq<char>,
    pub index: Seq<char>,
    pub field: Seq<char>,
    pub unit: Seq<char>,
    pub enabled: bool,
    pub suggested_path: Seq<char>,
    pub path: Seq<char>,
}

impl View for FieldConfig {
    type V = FieldModel;

    open spec fn view(&self) -> FieldModel {
        FieldModel {
            device: self.device@,
            class: self.class@,
            instance: self.instance@,
            group: self.group@,
            index: self.index@,
            field: self.field@,
            unit: self.unit@,
            enabled: self.enabled,
            suggested_path: self.suggested_path@,
            path: self.path@,
        }
    }
}

/// The whole file.
#[derive(Debug, PartialEq, Eq)]
pub struct PublicationConfig {
    pub devices: Vec<DeviceConfig>,
    pub fields: Vec<FieldConfig>,
}

/// What the file holds.
#[verifier::ext_equal]
pub struct ConfigModel {
    pub devices: Seq<DeviceModel>,
    pub fields: Seq<FieldModel>,
}

/// What the entries of devices hold.
pub open spec fn device_models(v: Seq<DeviceConfig>) -> Seq<DeviceModel> {
    v.map_values(|d: DeviceConfig| d@)
}

/// What the entries of fields hold.
pub open spec fn field_models(v: Seq<FieldConfig>) -> Seq<FieldModel> {
    v.map_values(|f: FieldConfig| f@)
}

impl View for PublicationConfig {
    type V = ConfigModel;

    open spec fn view(&self) -> ConfigModel {
        ConfigModel {
            devices: device_models(self.devices@),
            fields: field_models(self.fields@),
        }
    }
}

// ---- what a file may hold --------------------------------------------------

/// Why a file is refused.
#[derive(Debug, PartialEq, Eq)]
pub enum ConfigError {
    DeviceIdentity,
    DuplicateDevice(String),
    FieldIdentity,
    DuplicateField(String, String),
    EmptyPath,
    InvalidPath(String),
    UnsupportedPath(String),
}

/// What a reason to refuse a file says.
pub enum Fault {
    /// The entry of a device lacks its address, class or instance.
    DeviceIdentity,
    /// Two entries are for the same device.
    DuplicateDevice(Seq<char>),
    /// The entry of a field lacks what tells it apart.
    FieldIdentity,
    /// Two entries are for the same field: device and index.
    DuplicateField(Seq<char>, Seq<char>),
    EmptyPath,
    /// A path has a segment that is empty.
    InvalidPath(Seq<char>),
    /// A path has a character that paths do not have.
    UnsupportedPath(Seq<char>),
}

impl View for ConfigError {
    type V = Fault;

    open spec fn view(&self) -> Fault {
        match self {
            ConfigError::DeviceIdentity => Fault::DeviceIdentity,
            ConfigError::DuplicateDevice(d) => Fault::DuplicateDevice(d@),
            ConfigError::FieldIdentity => Fault::FieldIdentity,
            ConfigError::DuplicateField(d, i) => Fault::DuplicateField(d@, i@),
            ConfigError::EmptyPath => Fault::EmptyPath,
            ConfigError::InvalidPath(p) => Fault::InvalidPath(p@),
            ConfigError::UnsupportedPath(p) => Fault::UnsupportedPath(p@),
        }
    }
}

impl Fault {
    /// The fault in words.
    pub open spec fn words(self) -> Seq<char> {
        match self {
            Fault::DeviceIdentity => "device entries must have device, class, and instance"@,
            Fault::DuplicateDevice(d) => "duplicate device entry: "@ + d,
            Fault::FieldIdentity => "field entries are missing stable identity information"@,
            Fault::DuplicateField(d, i) => "duplicate field entry: device="@ + d + " index="@ + i,
            Fault::EmptyPath => "Signal K paths may not be empty"@,
            Fault::InvalidPath(p) => "invalid Signal K path: "@ + p,
            Fault::UnsupportedPath(p) => "Signal K path contains unsupported characters: "@ + p,
        }
    }
}

impl ConfigError {
    /// The error in words.
    pub fn message(&self) -> (s: String)
        ensures
            s@ == self@.words(),
    {
        match self {
            ConfigError::DeviceIdentity => {
                "device entries must have device, class, and instance".to_owned()
            },
            ConfigError::DuplicateDevice(d) => cat("duplicate device entry: ", d.as_str()),
            ConfigError::FieldIdentity => {
                "field entries are missing stable identity information".to_owned()
            },
            ConfigError::DuplicateField(d, i) => {
                let mut s = cat3("duplicate field entry: device=", d.as_str(), " index=");
                s.append(i.as_str());
                s
            },
            ConfigError::EmptyPath => "Signal K paths may not be empty".to_owned(),
            ConfigError::InvalidPath(p) => cat("invalid Signal K path: ", p.as_str()),
            ConfigError::UnsupportedPath(p) => {
                cat("Signal K path contains unsupported characters: ", p.as_str())
            },
        }
    }
}

/// Whether a text is empty but for white space.
pub open spec fn blank(s: Seq<char>) -> bool {
    trimmed(s).len() == 0
}

fn is_blank(s: &str) -> (r: bool)
    ensures
        r == blank(s@),
{
    trim(s).is_empty()
}

/// Whether a text has two dots in a row.
pub open spec fn has_two_dots(p: Seq<char>) -> bool {
    exists|i: int| 0 <= i < p.len() - 1 && #[trigger] p[i] == '.' && p[i + 1] == '.'
}

/// The characters of paths.
pub open spec fn path_char(c: char) -> bool {
    is_alnum(c) || c == '.' || c == '_' || c == '-'
}

/// What is wrong with a path.
pub open spec fn path_fault(path: Seq<char>) -> Option<Fault> {
    let p = trimmed(path);
    if p.len() == 0 {
        Some(Fault::EmptyPath)
    } else if p[0] == '.' || p.last() == '.' || has_two_dots(p) {
        Some(Fault::InvalidPath(p))
    } else if exists|i: int| 0 <= i < p.len() && !path_char(#[trigger] p[i]) {
        Some(Fault::UnsupportedPath(p))
    } else {
        None
    }
}

/// What a check says of a file: that there is no fault, or which.
pub open spec fn answers(r: Result<(), ConfigError>, fault: Option<Fault>) -> bool {
    match r {
        Ok(()) => fault is None,
        Err(e) => fault == Some(e@),
    }
}

/// Checks a path, but for white space around it: it is not empty, none of its
/// segments is, and it is made of letters, digits, `.`, `_` and `-`.
pub fn validate_signalk_path(path: &str) -> (r: Result<(), ConfigError>)
    ensures
        answers(r, path_fault(path@)),
{
    let p = trim(path);
    let v = chars_of(p);
    let ghost t = trimmed(path@);
    assert(v@ =~= t);
    if v.len() == 0 {
        return Err(ConfigError::EmptyPath);
    }
    let mut dots: bool = v[0] == '.' || v[v.len() - 1] == '.';
    let mut odd: bool = false;
    let mut i: usize = 0;
    while i < v.len()
        invariant
            i <= v@.len(),
            v@ == t,
            t.len() > 0,
            dots == (t[0] == '.' || t.last() == '.' || exists|k: int|
                0 <= k < t.len() - 1 && k < i && #[trigger] t[k] == '.' && t[k + 1] == '.'),
            odd == exists|k: int| 0 <= k < i && !path_char(#[trigger] t[k]),
        decreases v@.len() - i,
    {
        let c = v[i];
        if c == '.' && i + 1 < v.len() && v[i + 1] == '.' {
            assert(t[i as int] == '.' && t[i as int + 1] == '.');
            dots = true;
        }
        if !(alnum(c) || c == '.' || c == '_' || c == '-') {
            assert(!path_char(t[i as int]));
            odd = true;
        }
        i += 1;
    }
    if dots {
        assert(t[0] == '.' || t.last() == '.' || has_two_dots(t));
        Err(ConfigError::InvalidPath(p.to_owned()))
    } else {
        assert(!has_two_dots(t));
        if odd {
            Err(ConfigError::UnsupportedPath(p.to_owned()))
        } else {
            Ok(())
        }
    }
}

/// What is wrong with the entry of a device, given those before it.
pub open spec fn device_fault(devices: Seq<DeviceModel>, i: int) -> Option<Fault> {
    let d = devices[i];
    if blank(d.device) || blank(d.class) || blank(d.instance) {
        Some(Fault::DeviceIdentity)
    } else if exists|j: int| 0 <= j < i && #[trigger] devices[j].device == d.device {
        Some(Fault::DuplicateDevice(d.device))
    } else {
        None
    }
}

/// What is wrong with the entry of a field, given those before it. A field that is
/// not enabled needs no path, and one that is not known has no suggestion.
pub open spec fn field_fault(fields: Seq<FieldModel>, i: int) -> Option<Fault> {
    let f = fields[i];
    if blank(f.device) || blank(f.index) || blank(f.class) || blank(f.instance) {
        Some(Fault::FieldIdentity)
    } else if exists|j: int|
        0 <= j < i && #[trigger] fields[j].device == f.device && fields[j].index == f.index {
        Some(Fault::DuplicateField(f.device, f.index))
    } else if (f.enabled || !blank(f.path)) && path_fault(f.path) is Some {
        path_fault(f.path)
    } else if !blank(f.suggested_path) {
        path_fault(f.suggested_path)
    } else {
        None
    }
}

/// The first thing that is wrong with the entries of devices from `i` on.
pub open spec fn devices_fault(devices: Seq<DeviceModel>, i: int) -> Option<Fault>
    decreases devices.len() - i,
{
    if i >= devices.len() {
        None
    } else if device_fault(devices, i) is Some {
        device_fault(devices, i)
    } else {
        devices_fault(devices, i + 1)
    }
}

/// The first thing that is wrong with the entries of fields from `i` on.
pub open spec fn fields_fault(fields: Seq<FieldModel>, i: int) -> Option<Fault>
    decreases fields.len() - i,
{
    if i >= fields.len() {
        None
    } else if field_fault(fields, i) is Some {
        field_fault(fields, i)
    } else {
        fields_fault(fields, i + 1)
    }
}

/// The first thing that is wrong with a file.
pub open spec fn config_fault(cfg: ConfigModel) -> Option<Fault> {
    if devices_fault(cfg.devices, 0) is Some {
        devices_fault(cfg.devices, 0)
    } else {
        fields_fault(cfg.fields, 0)
    }
}

fn check_device(devices: &Vec<DeviceConfig>, i: usize) -> (r: Result<(), ConfigError>)
    requires
        i < devices@.len(),
    ensures
        answers(r, device_fault(device_models(devices@), i as int)),
{
    let ghost m = device_models(devices@);
    let d = &devices[i];
    assert(m[i as int] == d@);
    if is_blank(d.device.as_str()) || is_blank(d.class.as_str()) || is_blank(d.instance.as_str()) {
        return Err(ConfigError::DeviceIdentity);
    }
    let mut j: usize = 0;
    while j < i
        invariant
            j <= i < devices@.len(),
            *d == devices@[i as int],
            m == device_models(devices@),
            !blank(d.device@) && !blank(d.class@) && !blank(d.instance@),
            forall|k: int| 0 <= k < j ==> (#[trigger] m[k]).device != d.device@,
        decreases i - j,
    {
        assert(m[j as int] == devices@[j as int]@);
        if same(devices[j].device.as_str(), d.device.as_str()) {
            assert(m[j as int].device == m[i as int].device);
            return Err(ConfigError::DuplicateDevice(d.device.clone()));
        }
        j += 1;
    }
    Ok(())
}

fn check_field(fields: &Vec<FieldConfig>, i: usize) -> (r: Result<(), ConfigError>)
    requires
        i < fields@.len(),
    ensures
        answers(r, field_fault(field_models(fields@), i as int)),
{
    let ghost m = field_models(fields@);
    let f = &fields[i];
    assert(m[i as int] == f@);
    if is_blank(f.device.as_str()) || is_blank(f.index.as_str()) || is_blank(f.class.as_str())
        || is_blank(f.instance.as_str()) {
        return Err(ConfigError::FieldIdentity);
    }
    let mut j: usize = 0;
    while j < i
        invariant
            j <= i < fields@.len(),
            *f == fields@[i as int],
            m == field_models(fields@),
            !blank(f.device@) && !blank(f.index@),
            !blank(f.class@) && !blank(f.instance@),
            forall|k: int| 0 <= k < j ==>
                !((#[trigger] m[k]).device == f.device@ && m[k].index == f.index@),
        decreases i - j,
    {
        assert(m[j as int] == fields@[j as int]@);
        if same(fields[j].device.as_str(), f.device.as_str()) && same(
            fields[j].index.as_str(),
            f.index.as_str(),
        ) {
            assert(m[j as int].device == m[i as int].device);
            return Err(ConfigError::DuplicateField(f.device.clone(), f.index.clone()));
        }
        j += 1;
    }
    if f.enabled || !is_blank(f.path.as_str()) {
        match validate_signalk_path(f.path.as_str()) {
            Ok(()) => {},
            Err(e) => {
                return Err(e);
            },
        }
    }
    if !is_blank(f.suggested_path.as_str()) {
        validate_signalk_path(f.suggested_path.as_str())
    } else {
        Ok(())
    }
}

/// Checks a file. The first fault is reported, those of devices before those of
/// fields.
pub fn validate_config(cfg: &PublicationConfig) -> (r: Result<(), ConfigError>)
    ensures
        answers(r, config_fault(cfg@)),
{
    let ghost m = cfg@;
    let mut i: usize = 0;
    while i < cfg.devices.len()
        invariant
            i <= cfg.devices@.len(),
            m == cfg@,
            devices_fault(m.devices, 0) == devices_fault(m.devices, i as int),
        decreases cfg.devices@.len() - i,
    {
        match check_device(&cfg.devices, i) {
            Ok(()) => {},
            Err(e) => {
                return Err(e);
            },
        }
        i += 1;
    }
    let mut k: usize = 0;
    while k < cfg.fields.len()
        invariant
            k <= cfg.fields@.len(),
            m == cfg@,
            devices_fault(m.devices, 0) is None,
            fields_fault(m.fields, 0) == fields_fault(m.fields, k as int),
        decreases cfg.fields@.len() - k,
    {
        match check_field(&cfg.fields, k) {
            Ok(()) => {},
            Err(e) => {
                return Err(e);
            },
        }
        k += 1;
    }
    Ok(())
}

// ---- the text of a file ----------------------------------------------------

/// A truth value in a file.
pub open spec fn truth(b: bool) -> Seq<char> {
    if b {
        "true"@
    } else {
        "false"@
    }
}

/// A line of an entry.
pub open spec fn line(key: Seq<char>, value: Seq<char>) -> Seq<char> {
    key + " = "@ + value + "\n"@
}

/// What a file starts with.
pub open spec fn heading() -> Seq<char> {
    "# masterbus-signalk field publication configuration.\n"@
        + "# Managed by masterbus-config-web. Manual edits remain supported.\n"@
        + "# Entries are keyed by MasterBus device address + field index.\n\n"@
}

/// The entry of a device in a file.
#[verifier::opaque]
pub open spec fn device_entry(d: DeviceModel) -> Seq<char> {
    "[[devices]]\n"@ + line("device"@, quoted(d.device)) + line("class"@, quoted(d.class))
        + line("instance"@, quoted(d.instance)) + line("publish_name"@, truth(d.publish_name))
        + line("publish_manufacturer_name"@, truth(d.publish_manufacturer_name))
        + line("publish_model"@, truth(d.publish_model)) + "\n"@
}

/// The entry of a field in a file.
#[verifier::opaque]
pub open spec fn field_entry(f: FieldModel) -> Seq<char> {
    "[[fields]]\n"@ + line("device"@, quoted(f.device)) + line("class"@, quoted(f.class))
        + line("instance"@, quoted(f.instance)) + line("group"@, quoted(f.group))
        + line("index"@, quoted(f.index)) + line("field"@, quoted(f.field))
        + line("unit"@, quoted(f.unit)) + line("enabled"@, truth(f.enabled))
        + line("suggested_path"@, quoted(f.suggested_path)) + line("path"@, quoted(f.path))
        + "\n"@
}

/// The entries of devices in a file.
pub open spec fn device_entries(devices: Seq<DeviceModel>) -> Seq<char>
    decreases devices.len(),
{
    if devices.len() == 0 {
        Seq::empty()
    } else {
        device_entries(devices.drop_last()) + device_entry(devices.last())
    }
}

/// The entries of fields in a file.
pub open spec fn field_entries(fields: Seq<FieldModel>) -> Seq<char>
    decreases fields.len(),
{
    if fields.len() == 0 {
        Seq::empty()
    } else {
        field_entries(fields.drop_last()) + field_entry(fields.last())
    }
}

/// The text of a file.
pub open spec fn config_text(cfg: ConfigModel) -> Seq<char> {
    heading() + device_entries(cfg.devices) + field_entries(cfg.fields)
}

fn put_line(out: &mut String, key: &str, value: &str)
    ensures
        final(out)@ == old(out)@ + line(key@, value@),
{
    let ghost start = out@;
    out.append(key);
    out.append(" = ");
    out.append(value);
    out.append("\n");
    assert(out@ =~= start + line(key@, value@));
}

fn put_text(out: &mut String, key: &str, value: &str)
    ensures
        final(out)@ == old(out)@ + line(key@, quoted(value@)),
{
    let v = toml_string(value);
    put_line(out, key, v.as_str());
}

fn put_truth(out: &mut String, key: &str, value: bool)
    ensures
        final(out)@ == old(out)@ + line(key@, truth(value)),
{
    put_line(out, key, if value { "true" } else { "false" });
}

fn put_device(out: &mut String, d: &DeviceConfig)
    ensures
        final(out)@ == old(out)@ + device_entry(d@),
{
    let ghost start = out@;
    out.append("[[devices]]\n");
    put_text(out, "device", d.device.as_str());
    put_text(out, "class", d.class.as_str());
    put_text(out, "instance", d.instance.as_str());
    put_truth(out, "publish_name", d.publish_name);
    put_truth(out, "publish_manufacturer_name", d.publish_manufacturer_name);
    put_truth(out, "publish_model", d.publish_model);
    out.append("\n");
    reveal(device_entry);
    assert(out@ =~= start + device_entry(d@));
}

fn put_field(out: &mut String, f: &FieldConfig)
    ensures
        final(out)@ == old(out)@ + field_entry(f@),
{
    let ghost start = out@;
    out.append("[[fields]]\n");
    put_text(out, "device", f.device.as_str());
    put_text(out, "class", f.class.as_str());
    put_text(out, "instance", f.instance.as_str());
    put_text(out, "group", f.group.as_str());
    put_text(out, "index", f.index.as_str());
    put_text(out, "field", f.field.as_str());
    put_text(out, "unit", f.unit.as_str());
    put_truth(out, "enabled", f.enabled);
    put_text(out, "suggested_path", f.suggested_path.as_str());
    put_text(out, "path", f.path.as_str());
    out.append("\n");
    reveal(field_entry);
    assert(out@ =~= start + field_entry(f@));
}

/// The text of a file.
pub fn render_config(cfg: &PublicationConfig) -> (out: String)
    ensures
        out@ == config_text(cfg@),
{
    let ghost m = cfg@;
    let mut out = "# masterbus-signalk field publication configuration.\n".to_owned();
    out.append("# Managed by masterbus-config-web. Manual edits remain supported.\n");
    out.append("# Entries are keyed by MasterBus device address + field index.\n\n");
    assert(out@ =~= heading() + device_entries(m.devices.take(0)));
    let mut i: usize = 0;
    while i < cfg.devices.len()
        invariant
            i <= cfg.devices@.len(),
            m == cfg@,
            out@ == heading() + device_entries(m.devices.take(i as int)),
        decreases cfg.devices@.len() - i,
    {
        let ghost start = out@;
        put_device(&mut out, &cfg.devices[i]);
        proof {
            let next = m.devices.take(i as int + 1);
            assert(next.drop_last() =~= m.devices.take(i as int));
            assert(next.last() == cfg.devices@[i as int]@);
            assert(out@ =~= heading() + device_entries(next));
        }
        i += 1;
    }
    assert(m.devices.take(i as int) =~= m.devices);
    assert(out@ =~= heading() + device_entries(m.devices) + field_entries(m.fields.take(0)));
    let mut k: usize = 0;
    while k < cfg.fields.len()
        invariant
            k <= cfg.fields@.len(),
            m == cfg@,
            out@ == heading() + device_entries(m.devices) + field_entries(
                m.fields.take(k as int),
            ),
        decreases cfg.fields@.len() - k,
    {
        put_field(&mut out, &cfg.fields[k]);
        proof {
            let next = m.fields.take(k as int + 1);
            assert(next.drop_last() =~= m.fields.take(k as int));
            assert(next.last() == cfg.fields@[k as int]@);
            assert(out@ =~= heading() + device_entries(m.devices) + field_entries(next));
        }
        k += 1;
    }
    assert(m.fields.take(k as int) =~= m.fields);
    out
}

// ---- laws ------------------------------------------------------------------

/// A file without fault: each device and each field has what tells it apart and
/// stands in it once, every enabled field has a path, and every path is fit.
pub open spec fn sound(cfg: ConfigModel) -> bool {
    &&& forall|i: int|
        #![trigger cfg.devices[i]]
        0 <= i < cfg.devices.len() ==> !blank(cfg.devices[i].device) && !blank(
            cfg.devices[i].class,
        ) && !blank(cfg.devices[i].instance)
    &&& forall|i: int, j: int|
        0 <= j < i < cfg.devices.len() ==> (#[trigger] cfg.devices[i]).device != (
        #[trigger] cfg.devices[j]).device
    &&& forall|i: int|
        #![trigger cfg.fields[i]]
        0 <= i < cfg.fields.len() ==> !blank(cfg.fields[i].device) && !blank(cfg.fields[i].index)
            && !blank(cfg.fields[i].class) && !blank(cfg.fields[i].instance)
    &&& forall|i: int, j: int|
        0 <= j < i < cfg.fields.len() ==> (#[trigger] cfg.fields[i]).device != (
        #[trigger] cfg.fields[j]).device || cfg.fields[i].index != cfg.fields[j].index
    &&& forall|i: int|
        #![trigger cfg.fields[i]]
        0 <= i < cfg.fields.len() ==> {
            &&& cfg.fields[i].enabled || !blank(cfg.fields[i].path) ==> path_fault(
                cfg.fields[i].path,
            ) is None
            &&& !blank(cfg.fields[i].suggested_path) ==> path_fault(
                cfg.fields[i].suggested_path,
            ) is None
        }
}

proof fn lemma_devices_fault(devices: Seq<DeviceModel>, i: int)
    requires
        0 <= i <= devices.len(),
    ensures
        devices_fault(devices, i) is None <==> forall|k: int|
            i <= k < devices.len() ==> #[trigger] device_fault(devices, k) is None,
    decreases devices.len() - i,
{
    if i < devices.len() {
        lemma_devices_fault(devices, i + 1);
        assert(device_fault(devices, i) is None || device_fault(devices, i) is Some);
    }
}

proof fn lemma_fields_fault(fields: Seq<FieldModel>, i: int)
    requires
        0 <= i <= fields.len(),
    ensures
        fields_fault(fields, i) is None <==> forall|k: int|
            i <= k < fields.len() ==> #[trigger] field_fault(fields, k) is None,
    decreases fields.len() - i,
{
    if i < fields.len() {
        lemma_fields_fault(fields, i + 1);
        assert(field_fault(fields, i) is None || field_fault(fields, i) is Some);
    }
}

/// A file is accepted exactly where it is sound.
pub proof fn law_accepted_is_sound(cfg: ConfigModel)
    ensures
        config_fault(cfg) is None <==> sound(cfg),
{
    lemma_devices_fault(cfg.devices, 0);
    lemma_fields_fault(cfg.fields, 0);
    if config_fault(cfg) is None {
        assert forall|i: int| 0 <= i < cfg.devices.len() implies !blank(
            (#[trigger] cfg.devices[i]).device,
        ) && !blank(cfg.devices[i].class) && !blank(cfg.devices[i].instance) by {
            assert(device_fault(cfg.devices, i) is None);
        }
        assert forall|i: int, j: int| 0 <= j < i < cfg.devices.len() implies (
        #[trigger] cfg.devices[i]).device != (#[trigger] cfg.devices[j]).device by {
            assert(device_fault(cfg.devices, i) is None);
        }
        assert forall|i: int| 0 <= i < cfg.fields.len() implies field_fault(cfg.fields, i) is None
            && !blank((#[trigger] cfg.fields[i]).device) by {
            assert(field_fault(cfg.fields, i) is None);
        }
        assert forall|i: int, j: int| 0 <= j < i < cfg.fields.len() implies (
        #[trigger] cfg.fields[i]).device != (#[trigger] cfg.fields[j]).device
            || cfg.fields[i].index != cfg.fields[j].index by {
            assert(field_fault(cfg.fields, i) is None);
        }
    }
    if sound(cfg) {
        assert forall|i: int| 0 <= i < cfg.devices.len() implies #[trigger] device_fault(
            cfg.devices,
            i,
        ) is None by {
            let d = cfg.devices[i];
            assert(forall|j: int| 0 <= j < i ==> (#[trigger] cfg.devices[j]).device != d.device);
        }
        assert forall|i: int| 0 <= i < cfg.fields.len() implies #[trigger] field_fault(
            cfg.fields,
            i,
        ) is None by {
            let f = cfg.fields[i];
            assert(forall|j: int|
                0 <= j < i ==> (#[trigger] cfg.fields[j]).device != f.device
                    || cfg.fields[j].index != f.index);
        }
    }
}

proof fn lemma_same_head(h: Seq<char>, x: Seq<char>, y: Seq<char>)
    requires
        h + x == h + y,
    ensures
        x == y,
{
    assert((h + x).skip(h.len() as int) =~= x);
    assert((h + y).skip(h.len() as int) =~= y);
}

proof fn lemma_regroup(a: Seq<char>, b: Seq<char>, x: Seq<char>)
    ensures
        (a + b) + x == a + (b + x),
{
    assert((a + b) + x =~= a + (b + x));
}

proof fn lemma_regroup_four(
    h: Seq<char>,
    a: Seq<char>,
    b: Seq<char>,
    c: Seq<char>,
    d: Seq<char>,
    x: Seq<char>,
)
    ensures
        (h + a + b + c + d) + x == h + (a + (b + (c + (d + x)))),
{
    lemma_regroup(h + a + b + c, d, x);
    lemma_regroup(h + a + b, c, d + x);
    lemma_regroup(h + a, b, c + (d + x));
    lemma_regroup(h, a, b + (c + (d + x)));
}

proof fn lemma_text_line(k: Seq<char>, a: Seq<char>, b: Seq<char>, x: Seq<char>, y: Seq<char>)
    requires
        line(k, quoted(a)) + x == line(k, quoted(b)) + y,
    ensures
        a == b,
        x == y,
{
    let (p, q) = ("\n"@ + x, "\n"@ + y);
    assert(line(k, quoted(a)) + x =~= (k + " = "@) + (quoted(a) + p));
    assert(line(k, quoted(b)) + y =~= (k + " = "@) + (quoted(b) + q));
    lemma_same_head(k + " = "@, quoted(a) + p, quoted(b) + q);
    law_quoted_reads_back(a, b, p, q);
    lemma_same_head("\n"@, x, y);
}

proof fn lemma_truth_line(k: Seq<char>, a: bool, b: bool, x: Seq<char>, y: Seq<char>)
    requires
        line(k, truth(a)) + x == line(k, truth(b)) + y,
    ensures
        a == b,
        x == y,
{
    let (p, q) = ("\n"@ + x, "\n"@ + y);
    assert(line(k, truth(a)) + x =~= (k + " = "@) + (truth(a) + p));
    assert(line(k, truth(b)) + y =~= (k + " = "@) + (truth(b) + q));
    lemma_same_head(k + " = "@, truth(a) + p, truth(b) + q);
    reveal_strlit("true");
    reveal_strlit("false");
    assert((truth(a) + p)[0] == truth(a)[0]);
    assert((truth(b) + q)[0] == truth(b)[0]);
    lemma_same_head(truth(a), p, q);
    lemma_same_head("\n"@, x, y);
}

proof fn lemma_device_lines(d: DeviceModel, x: Seq<char>)
    ensures
        device_entry(d) + x == "[[devices]]\n"@ + (line("device"@, quoted(d.device)) + (line(
            "class"@,
            quoted(d.class),
        ) + (line("instance"@, quoted(d.instance)) + (line("publish_name"@, truth(d.publish_name))
            + (line("publish_manufacturer_name"@, truth(d.publish_manufacturer_name)) + (line(
            "publish_model"@,
            truth(d.publish_model),
        ) + ("\n"@ + x))))))),
{
    reveal(device_entry);
    let h = "[[devices]]\n"@;
    let a = line("device"@, quoted(d.device));
    let b = line("class"@, quoted(d.class));
    let c = line("instance"@, quoted(d.instance));
    let e = line("publish_name"@, truth(d.publish_name));
    let f = line("publish_manufacturer_name"@, truth(d.publish_manufacturer_name));
    let g = line("publish_model"@, truth(d.publish_model));
    let n = "\n"@;
    lemma_regroup(h + a + b + c + e + f + g, n, x);
    lemma_regroup(h + a + b + c + e + f, g, n + x);
    lemma_regroup(h + a + b + c + e, f, g + (n + x));
    lemma_regroup_four(h, a, b, c, e, f + (g + (n + x)));
}

proof fn lemma_field_lines(r: FieldModel, x: Seq<char>)
    ensures
        field_entry(r) + x == "[[fields]]\n"@ + (line("device"@, quoted(r.device)) + (line(
            "class"@,
            quoted(r.class),
        ) + (line("instance"@, quoted(r.instance)) + (line("group"@, quoted(r.group)) + (line(
            "index"@,
            quoted(r.index),
        ) + (line("field"@, quoted(r.field)) + (line("unit"@, quoted(r.unit)) + (line(
            "enabled"@,
            truth(r.enabled),
        ) + (line("suggested_path"@, quoted(r.suggested_path)) + (line("path"@, quoted(r.path)) + (
        "\n"@ + x))))))))))),
{
    reveal(field_entry);
    let h = "[[fields]]\n"@;
    let a = line("device"@, quoted(r.device));
    let b = line("class"@, quoted(r.class));
    let c = line("instance"@, quoted(r.instance));
    let d = line("group"@, quoted(r.group));
    let e = line("index"@, quoted(r.index));
    let f = line("field"@, quoted(r.field));
    let g = line("unit"@, quoted(r.unit));
    let i = line("enabled"@, truth(r.enabled));
    let j = line("suggested_path"@, quoted(r.suggested_path));
    let k = line("path"@, quoted(r.path));
    let n = "\n"@;
    let x10 = k + (n + x);
    let x8 = i + (j + x10);
    lemma_regroup(h + a + b + c + d + e + f + g + i + j + k, n, x);
    lemma_regroup(h + a + b + c + d + e + f + g + i + j, k, n + x);
    lemma_regroup(h + a + b + c + d + e + f + g + i, j, x10);
    lemma_regroup(h + a + b + c + d + e + f + g, i, j + x10);
    lemma_regroup(h + a + b + c + d + e + f, g, x8);
    lemma_regroup(h + a + b + c + d + e, f, g + x8);
    lemma_regroup(h + a + b + c + d, e, f + (g + x8));
    lemma_regroup_four(h, a, b, c, d, e + (f + (g + x8)));
}

proof fn lemma_device_entry(d: DeviceModel, e: DeviceModel, x: Seq<char>, y: Seq<char>)
    requires
        device_entry(d) + x == device_entry(e) + y,
    ensures
        d == e,
        x == y,
{
    let h = "[[devices]]\n"@;
    let (u7, v7) = ("\n"@ + x, "\n"@ + y);
    let u6 = line("publish_model"@, truth(d.publish_model)) + u7;
    let v6 = line("publish_model"@, truth(e.publish_model)) + v7;
    let u5 = line("publish_manufacturer_name"@, truth(d.publish_manufacturer_name)) + u6;
    let v5 = line("publish_manufacturer_name"@, truth(e.publish_manufacturer_name)) + v6;
    let u4 = line("publish_name"@, truth(d.publish_name)) + u5;
    let v4 = line("publish_name"@, truth(e.publish_name)) + v5;
    let u3 = line("instance"@, quoted(d.instance)) + u4;
    let v3 = line("instance"@, quoted(e.instance)) + v4;
    let u2 = line("class"@, quoted(d.class)) + u3;
    let v2 = line("class"@, quoted(e.class)) + v3;
    let u1 = line("device"@, quoted(d.device)) + u2;
    let v1 = line("device"@, quoted(e.device)) + v2;
    lemma_device_lines(d, x);
    lemma_device_lines(e, y);
    lemma_same_head(h, u1, v1);
    lemma_text_line("device"@, d.device, e.device, u2, v2);
    lemma_text_line("class"@, d.class, e.class, u3, v3);
    lemma_text_line("instance"@, d.instance, e.instance, u4, v4);
    lemma_truth_line("publish_name"@, d.publish_name, e.publish_name, u5, v5);
    lemma_truth_line(
        "publish_manufacturer_name"@,
        d.publish_manufacturer_name,
        e.publish_manufacturer_name,
        u6,
        v6,
    );
    lemma_truth_line("publish_model"@, d.publish_model, e.publish_model, u7, v7);
    lemma_same_head("\n"@, x, y);
}

proof fn lemma_field_entry(f: FieldModel, g: FieldModel, x: Seq<char>, y: Seq<char>)
    requires
        field_entry(f) + x == field_entry(g) + y,
    ensures
        f == g,
        x == y,
{
    let h = "[[fields]]\n"@;
    let (u11, v11) = ("\n"@ + x, "\n"@ + y);
    let u10 = line("path"@, quoted(f.path)) + u11;
    let v10 = line("path"@, quoted(g.path)) + v11;
    let u9 = line("suggested_path"@, quoted(f.suggested_path)) + u10;
    let v9 = line("suggested_path"@, quoted(g.suggested_path)) + v10;
    let u8 = line("enabled"@, truth(f.enabled)) + u9;
    let v8 = line("enabled"@, truth(g.enabled)) + v9;
    let u7 = line("unit"@, quoted(f.unit)) + u8;
    let v7 = line("unit"@, quoted(g.unit)) + v8;
    let u6 = line("field"@, quoted(f.field)) + u7;
    let v6 = line("field"@, quoted(g.field)) + v7;
    let u5 = line("index"@, quoted(f.index)) + u6;
    let v5 = line("index"@, quoted(g.index)) + v6;
    let u4 = line("group"@, quoted(f.group)) + u5;
    let v4 = line("group"@, quoted(g.group)) + v5;
    let u3 = line("instance"@, quoted(f.instance)) + u4;
    let v3 = line("instance"@, quoted(g.instance)) + v4;
    let u2 = line("class"@, quoted(f.class)) + u3;
    let v2 = line("class"@, quoted(g.class)) + v3;
    let u1 = line("device"@, quoted(f.device)) + u2;
    let v1 = line("device"@, quoted(g.device)) + v2;
    lemma_field_lines(f, x);
    lemma_field_lines(g, y);
    lemma_same_head(h, u1, v1);
    lemma_text_line("device"@, f.device, g.device, u2, v2);
    lemma_text_line("class"@, f.class, g.class, u3, v3);
    lemma_text_line("instance"@, f.instance, g.instance, u4, v4);
    lemma_text_line("group"@, f.group, g.group, u5, v5);
    lemma_text_line("index"@, f.index, g.index, u6, v6);
    lemma_text_line("field"@, f.field, g.field, u7, v7);
    lemma_text_line("unit"@, f.unit, g.unit, u8, v8);
    lemma_truth_line("enabled"@, f.enabled, g.enabled, u9, v9);
    lemma_text_line("suggested_path"@, f.suggested_path, g.suggested_path, u10, v10);
    lemma_text_line("path"@, f.path, g.path, u11, v11);
    lemma_same_head("\n"@, x, y);
}

proof fn lemma_first_device(devices: Seq<DeviceModel>)
    requires
        devices.len() > 0,
    ensures
        device_entries(devices) == device_entry(devices[0]) + device_entries(devices.drop_first()),
    decreases devices.len(),
{
    let rest = devices.drop_first();
    if devices.len() == 1 {
        assert(devices.drop_last() =~= rest);
        let e = device_entry(devices[0]);
        assert(Seq::<char>::empty() + e =~= e + Seq::<char>::empty());
    } else {
        lemma_first_device(devices.drop_last());
        assert(devices.drop_last().drop_first() =~= rest.drop_last());
        lemma_regroup(
            device_entry(devices[0]),
            device_entries(rest.drop_last()),
            device_entry(devices.last()),
        );
    }
}

proof fn lemma_first_field(fields: Seq<FieldModel>)
    requires
        fields.len() > 0,
    ensures
        field_entries(fields) == field_entry(fields[0]) + field_entries(fields.drop_first()),
    decreases fields.len(),
{
    let rest = fields.drop_first();
    if fields.len() == 1 {
        assert(fields.drop_last() =~= rest);
        let e = field_entry(fields[0]);
        assert(Seq::<char>::empty() + e =~= e + Seq::<char>::empty());
    } else {
        lemma_first_field(fields.drop_last());
        assert(fields.drop_last().drop_first() =~= rest.drop_last());
        lemma_regroup(
            field_entry(fields[0]),
            field_entries(rest.drop_last()),
            field_entry(fields.last()),
        );
    }
}

proof fn lemma_entry_starts(d: DeviceModel, f: FieldModel)
    ensures
        device_entry(d).len() > 2 && device_entry(d)[2] == 'd',
        field_entry(f).len() > 2 && field_entry(f)[2] == 'f',
{
    reveal(device_entry);
    reveal(field_entry);
    reveal_strlit("[[devices]]\n");
    reveal_strlit("[[fields]]\n");
}

proof fn lemma_field_entries(a: Seq<FieldModel>, b: Seq<FieldModel>)
    requires
        field_entries(a) == field_entries(b),
    ensures
        a == b,
    decreases a.len() + b.len(),
{
    if a.len() > 0 {
        lemma_first_field(a);
        lemma_entry_starts(arbitrary(), a[0]);
    }
    if b.len() > 0 {
        lemma_first_field(b);
        lemma_entry_starts(arbitrary(), b[0]);
    }
    if a.len() > 0 && b.len() > 0 {
        let (x, y) = (field_entries(a.drop_first()), field_entries(b.drop_first()));
        lemma_field_entry(a[0], b[0], x, y);
        lemma_field_entries(a.drop_first(), b.drop_first());
        assert(a =~= seq![a[0]] + a.drop_first());
        assert(b =~= seq![b[0]] + b.drop_first());
    } else {
        assert(a.len() > 0 ==> field_entries(a).len() > 2);
        assert(b.len() > 0 ==> field_entries(b).len() > 2);
        assert(a =~= b);
    }
}

proof fn lemma_entries(
    a: Seq<DeviceModel>,
    b: Seq<DeviceModel>,
    f: Seq<FieldModel>,
    g: Seq<FieldModel>,
)
    requires
        device_entries(a) + field_entries(f) == device_entries(b) + field_entries(g),
    ensures
        a == b,
        f == g,
    decreases a.len() + b.len(),
{
    let s = device_entries(a) + field_entries(f);
    let t = device_entries(b) + field_entries(g);
    if a.len() > 0 {
        lemma_first_device(a);
        lemma_entry_starts(a[0], arbitrary());
        assert(s.len() > 2 && s[2] == 'd');
    } else {
        assert(s =~= field_entries(f));
        if f.len() > 0 {
            lemma_first_field(f);
            lemma_entry_starts(arbitrary(), f[0]);
            assert(s[2] == 'f');
        }
    }
    if b.len() > 0 {
        lemma_first_device(b);
        lemma_entry_starts(b[0], arbitrary());
        assert(t.len() > 2 && t[2] == 'd');
    } else {
        assert(t =~= field_entries(g));
        if g.len() > 0 {
            lemma_first_field(g);
            lemma_entry_starts(arbitrary(), g[0]);
            assert(t[2] == 'f');
        }
    }
    if a.len() > 0 && b.len() > 0 {
        let (x, y) = (device_entries(a.drop_first()), device_entries(b.drop_first()));
        lemma_regroup(device_entry(a[0]), x, field_entries(f));
        lemma_regroup(device_entry(b[0]), y, field_entries(g));
        lemma_device_entry(a[0], b[0], x + field_entries(f), y + field_entries(g));
        lemma_entries(a.drop_first(), b.drop_first(), f, g);
        assert(a =~= seq![a[0]] + a.drop_first());
        assert(b =~= seq![b[0]] + b.drop_first());
    } else {
        assert(a.len() == 0 && b.len() == 0);
        assert(a =~= b);
        lemma_field_entries(f, g);
    }
}

/// The text of a file holds all of it: no two files that differ have the same text.
pub proof fn law_text_holds_the_file(a: ConfigModel, b: ConfigModel)
    requires
        config_text(a) == config_text(b),
    ensures
        a == b,
{
    let (x, y) = (
        device_entries(a.devices) + field_entries(a.fields),
        device_entries(b.devices) + field_entries(b.fields),
    );
    assert(config_text(a) =~= heading() + x);
    assert(config_text(b) =~= heading() + y);
    lemma_same_head(heading(), x, y);
    lemma_entries(a.devices, b.devices, a.fields, b.fields);
}

} // verus!
