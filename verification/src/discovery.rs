//! What discovery finds on the bus, and what it does to the field configuration.
//!
//! An entry is found again by the address of its device and the number of its
//! field, so what was chosen for a field outlives a change of names.

use vstd::prelude::*;

use crate::field_laws::{law_readings, plain};
use crate::mapper::{known_path, map_field, mapped, rule, suggested_path, Reading};
use crate::publication::{
    blank, device_models, field_models, path_fault, sound, ConfigModel, DeviceConfig, DeviceModel,
    FieldConfig, FieldModel, PublicationConfig,
};
use crate::slug::{lemma_decimal_segment, safe};
use crate::text::{
    cat, decimal, decimal_text, hex, hex_text, is_white, same, trim_end, trimmed,
};
use crate::text_laws::{law_decimal, law_hex};
use crate::value::{as_text, text_value, Published, PublishedModel, BusValue};

verus! {

/// A field that was found.
#[derive(Debug, PartialEq, Eq)]
pub struct FieldRec {
    /// The address of its device.
    pub device: u32,
    /// Its number on the device.
    pub index: u16,
    pub class: String,
    pub instance: String,
    pub group: String,
    pub name: String,
    pub unit: String,
}

/// What is known of a field that was found.
#[verifier::ext_equal]
pub struct RecModel {
    pub device: nat,
    pub index: nat,
    pub class: Seq<char>,
    pub instance: Seq<char>,
    pub group: Seq<char>,
    pub name: Seq<char>,
    pub unit: Seq<char>,
}

impl View for FieldRec {
    type V = RecModel;

    open spec fn view(&self) -> RecModel {
        RecModel {
            device: self.device as nat,
            index: self.index as nat,
            class: self.class@,
            instance: self.instance@,
            group: self.group@,
            name: self.name@,
            unit: self.unit@,
        }
    }
}

/// What is known of fields that were found.
pub open spec fn rec_models(v: Seq<FieldRec>) -> Seq<RecModel> {
    v.map_values(|r: FieldRec| r@)
}

/// A device that was found.
#[derive(Debug, PartialEq, Eq)]
pub struct DeviceMetaRec {
    pub device: u32,
    pub class: String,
    pub instance: String,
    /// Its name, as the installation gives it.
    pub name: String,
    /// Its article number.
    pub article: String,
}

/// What is known of a device that was found.
#[verifier::ext_equal]
pub struct DeviceRecModel {
    pub device: nat,
    pub class: Seq<char>,
    pub instance: Seq<char>,
    pub name: Seq<char>,
    pub article: Seq<char>,
}

impl View for DeviceMetaRec {
    type V = DeviceRecModel;

    open spec fn view(&self) -> DeviceRecModel {
        DeviceRecModel {
            device: self.device as nat,
            class: self.class@,
            instance: self.instance@,
            name: self.name@,
            article: self.article@,
        }
    }
}

/// What is known of devices that were found.
pub open spec fn device_rec_models(v: Seq<DeviceMetaRec>) -> Seq<DeviceRecModel> {
    v.map_values(|r: DeviceMetaRec| r@)
}

// ---- what the mapper knows ---------------------------------------------------

impl RecModel {
    /// The path that the mapper knows for the field.
    pub open spec fn known(self) -> Option<Seq<char>> {
        known_path(self.class, self.instance, self.group, self.name, self.unit)
    }

    /// The path that the mapper suggests, or nothing.
    pub open spec fn suggestion(self) -> Seq<char> {
        match self.known() {
            Some(p) => p,
            None => Seq::empty(),
        }
    }
}

impl FieldRec {
    /// The path that the mapper knows for the field.
    pub fn known(&self) -> (r: Option<String>)
        ensures
            match r {
                Some(p) => self@.known() == Some(p@),
                None => self@.known() is None,
            },
    {
        suggested_path(
            self.class.as_str(),
            self.instance.as_str(),
            self.group.as_str(),
            self.name.as_str(),
            self.unit.as_str(),
        )
    }

    fn suggestion(&self) -> (r: String)
        ensures
            r@ == self@.suggestion(),
    {
        match self.known() {
            Some(p) => p,
            None => String::new(),
        }
    }
}

/// How many of the fields the mapper knows.
pub open spec fn known_count(recs: Seq<RecModel>) -> nat {
    recs.filter(|r: RecModel| r.known() is Some).len()
}

/// The fields that were found, with the path of each one that the mapper knows, and
/// how many are known and how many are not.
pub fn inventory(recs: &Vec<FieldRec>) -> (r: (Vec<Option<String>>, usize, usize))
    ensures
        r.0@.len() == recs@.len(),
        forall|i: int|
            0 <= i < recs@.len() ==> match #[trigger] r.0@[i] {
                Some(p) => recs@[i]@.known() == Some(p@),
                None => recs@[i]@.known() is None,
            },
        r.1 == known_count(rec_models(recs@)),
        r.1 + r.2 == recs@.len(),
{
    let ghost m = rec_models(recs@);
    let ghost knows = |r: RecModel| r.known() is Some;
    let mut paths: Vec<Option<String>> = Vec::new();
    let mut known: usize = 0;
    let mut unknown: usize = 0;
    let mut i: usize = 0;
    assert(m.take(0).filter(knows) =~= seq![]) by {
        assert(m.take(0) =~= seq![]);
        reveal(Seq::filter);
    }
    while i < recs.len()
        invariant
            i <= recs@.len(),
            m == rec_models(recs@),
            knows == (|r: RecModel| r.known() is Some),
            paths@.len() == i,
            known + unknown == i,
            known == m.take(i as int).filter(knows).len(),
            forall|k: int|
                0 <= k < i ==> match #[trigger] paths@[k] {
                    Some(p) => recs@[k]@.known() == Some(p@),
                    None => recs@[k]@.known() is None,
                },
        decreases recs@.len() - i,
    {
        let p = recs[i].known();
        proof {
            let next = m.take(i as int + 1);
            assert(next.drop_last() =~= m.take(i as int));
            assert(next.last() == recs@[i as int]@);
            reveal(Seq::filter);
        }
        if p.is_some() {
            known += 1;
        } else {
            unknown += 1;
        }
        paths.push(p);
        i += 1;
    }
    assert(m.take(i as int) =~= m);
    (paths, known, unknown)
}

// ---- entries -------------------------------------------------------------------

/// The address of a device, as entries hold it.
pub open spec fn address(device: nat) -> Seq<char> {
    "0x"@ + hex(device, 6)
}

/// The address of a device, as entries hold it.
pub fn address_text(device: u32) -> (s: String)
    ensures
        s@ == address(device as nat),
{
    cat("0x", hex_text(device, 6).as_str())
}

/// Where the entry of a field stands, or the number of entries.
pub open spec fn field_at(fields: Seq<FieldModel>, device: Seq<char>, index: Seq<char>) -> int
    decreases fields.len(),
{
    if fields.len() == 0 {
        0
    } else if fields[0].device == device && fields[0].index == index {
        0
    } else {
        1 + field_at(fields.drop_first(), device, index)
    }
}

/// Where the entry of a device stands, or the number of entries.
pub open spec fn device_at(devices: Seq<DeviceModel>, device: Seq<char>) -> int
    decreases devices.len(),
{
    if devices.len() == 0 {
        0
    } else if devices[0].device == device {
        0
    } else {
        1 + device_at(devices.drop_first(), device)
    }
}

proof fn lemma_field_at(fields: Seq<FieldModel>, device: Seq<char>, index: Seq<char>)
    ensures
        0 <= field_at(fields, device, index) <= fields.len(),
        forall|i: int|
            0 <= i < field_at(fields, device, index) ==> !((#[trigger] fields[i]).device == device
                && fields[i].index == index),
        field_at(fields, device, index) < fields.len() ==> {
            let f = fields[field_at(fields, device, index)];
            f.device == device && f.index == index
        },
    decreases fields.len(),
{
    if fields.len() > 0 {
        let rest = fields.drop_first();
        lemma_field_at(rest, device, index);
        if !(fields[0].device == device && fields[0].index == index) {
            assert forall|i: int| 0 <= i < field_at(fields, device, index) implies !((
            #[trigger] fields[i]).device == device && fields[i].index == index) by {
                if i > 0 {
                    assert(rest[i - 1] == fields[i]);
                }
            }
        }
    }
}

proof fn lemma_field_at_unique(
    fields: Seq<FieldModel>,
    device: Seq<char>,
    index: Seq<char>,
    at: int,
)
    requires
        0 <= at <= fields.len(),
        forall|i: int|
            0 <= i < at ==> !((#[trigger] fields[i]).device == device && fields[i].index == index),
        at < fields.len() ==> fields[at].device == device && fields[at].index == index,
    ensures
        field_at(fields, device, index) == at,
{
    lemma_field_at(fields, device, index);
    let n = field_at(fields, device, index);
    if n < at {
        assert(!(fields[n].device == device && fields[n].index == index));
    }
    if at < n {
        assert(!(fields[at].device == device && fields[at].index == index));
    }
}

proof fn lemma_device_at(devices: Seq<DeviceModel>, device: Seq<char>)
    ensures
        0 <= device_at(devices, device) <= devices.len(),
        forall|i: int|
            0 <= i < device_at(devices, device) ==> (#[trigger] devices[i]).device != device,
        device_at(devices, device) < devices.len() ==> devices[device_at(
            devices,
            device,
        )].device == device,
    decreases devices.len(),
{
    if devices.len() > 0 {
        let rest = devices.drop_first();
        lemma_device_at(rest, device);
        if devices[0].device != device {
            assert forall|i: int| 0 <= i < device_at(devices, device) implies (
            #[trigger] devices[i]).device != device by {
                if i > 0 {
                    assert(rest[i - 1] == devices[i]);
                }
            }
        }
    }
}

proof fn lemma_device_at_unique(devices: Seq<DeviceModel>, device: Seq<char>, at: int)
    requires
        0 <= at <= devices.len(),
        forall|i: int| 0 <= i < at ==> (#[trigger] devices[i]).device != device,
        at < devices.len() ==> devices[at].device == device,
    ensures
        device_at(devices, device) == at,
{
    lemma_device_at(devices, device);
    let n = device_at(devices, device);
    if n < at {
        assert(devices[n].device != device);
    }
    if at < n {
        assert(devices[at].device != device);
    }
}

/// The entry of a device is the first that names it.
pub proof fn law_device_place(devices: Seq<DeviceModel>, device: Seq<char>, i: int)
    requires
        0 <= i < devices.len(),
        devices[i].device == device,
        forall|j: int| 0 <= j < i ==> (#[trigger] devices[j]).device != device,
    ensures
        device_at(devices, device) == i,
{
    lemma_device_at_unique(devices, device, i);
}

/// Finds the entry of a field: where it stands, or the number of entries.
pub fn find_field(fields: &Vec<FieldConfig>, device: &str, index: &str) -> (at: usize)
    ensures
        at == field_at(field_models(fields@), device@, index@),
        at <= fields@.len(),
{
    let ghost m = field_models(fields@);
    let mut i: usize = 0;
    while i < fields.len()
        invariant
            i <= fields@.len(),
            m == field_models(fields@),
            forall|k: int|
                0 <= k < i ==> !((#[trigger] m[k]).device == device@ && m[k].index == index@),
        decreases fields@.len() - i,
    {
        assert(m[i as int] == fields@[i as int]@);
        if same(fields[i].device.as_str(), device) && same(fields[i].index.as_str(), index) {
            proof {
                lemma_field_at_unique(m, device@, index@, i as int);
            }
            return i;
        }
        i += 1;
    }
    proof {
        lemma_field_at_unique(m, device@, index@, i as int);
    }
    i
}

/// Finds the entry of a device: where it stands, or the number of entries.
pub fn find_device(devices: &Vec<DeviceConfig>, device: &str) -> (at: usize)
    ensures
        at == device_at(device_models(devices@), device@),
        at <= devices@.len(),
{
    let ghost m = device_models(devices@);
    let mut i: usize = 0;
    while i < devices.len()
        invariant
            i <= devices@.len(),
            m == device_models(devices@),
            forall|k: int| 0 <= k < i ==> (#[trigger] m[k]).device != device@,
        decreases devices@.len() - i,
    {
        assert(m[i as int] == devices@[i as int]@);
        if same(devices[i].device.as_str(), device) {
            proof {
                lemma_device_at_unique(m, device@, i as int);
            }
            return i;
        }
        i += 1;
    }
    proof {
        lemma_device_at_unique(m, device@, i as int);
    }
    i
}

// ---- recording what was found ----------------------------------------------------

/// An entry with what is known of its field now. What was chosen stays.
pub open spec fn refreshed(f: FieldModel, r: RecModel) -> FieldModel {
    FieldModel {
        device: f.device,
        class: r.class,
        instance: r.instance,
        group: r.group,
        index: f.index,
        field: r.name,
        unit: r.unit,
        enabled: f.enabled,
        suggested_path: r.suggestion(),
        path: f.path,
    }
}

/// The first entry of a field: not enabled, under the suggested path.
pub open spec fn fresh(r: RecModel) -> FieldModel {
    FieldModel {
        device: address(r.device),
        class: r.class,
        instance: r.instance,
        group: r.group,
        index: decimal(r.index),
        field: r.name,
        unit: r.unit,
        enabled: false,
        suggested_path: r.suggestion(),
        path: r.suggestion(),
    }
}

/// Where the entry of a field that was found stands.
pub open spec fn place(fields: Seq<FieldModel>, r: RecModel) -> int {
    field_at(fields, address(r.device), decimal(r.index))
}

/// Entries with one for a field that was found.
pub open spec fn with_field(fields: Seq<FieldModel>, r: RecModel) -> Seq<FieldModel> {
    let at = place(fields, r);
    if at < fields.len() {
        fields.update(at, refreshed(fields[at], r))
    } else {
        fields.push(fresh(r))
    }
}

/// Entries with one for each field that was found.
pub open spec fn with_fields(fields: Seq<FieldModel>, recs: Seq<RecModel>) -> Seq<FieldModel>
    decreases recs.len(),
{
    if recs.len() == 0 {
        fields
    } else {
        with_field(with_fields(fields, recs.drop_last()), recs.last())
    }
}

/// Entries with one for a device that was found: what was chosen stays, and nothing
/// is published of a new device.
pub open spec fn with_device(devices: Seq<DeviceModel>, r: DeviceRecModel) -> Seq<DeviceModel> {
    let at = device_at(devices, address(r.device));
    if at < devices.len() {
        devices.update(at, DeviceModel { class: r.class, instance: r.instance, ..devices[at] })
    } else {
        devices.push(
            DeviceModel {
                device: address(r.device),
                class: r.class,
                instance: r.instance,
                publish_name: false,
                publish_manufacturer_name: false,
                publish_model: false,
            },
        )
    }
}

/// Entries with one for each device that was found.
pub open spec fn with_devices(
    devices: Seq<DeviceModel>,
    recs: Seq<DeviceRecModel>,
) -> Seq<DeviceModel>
    decreases recs.len(),
{
    if recs.len() == 0 {
        devices
    } else {
        with_device(with_devices(devices, recs.drop_last()), recs.last())
    }
}

/// A file with what was found.
pub open spec fn recorded(
    cfg: ConfigModel,
    devices: Seq<DeviceRecModel>,
    fields: Seq<RecModel>,
) -> ConfigModel {
    ConfigModel {
        devices: with_devices(cfg.devices, devices),
        fields: with_fields(cfg.fields, fields),
    }
}

fn record_field(fields: &mut Vec<FieldConfig>, r: &FieldRec)
    ensures
        field_models(final(fields)@) == with_field(field_models(old(fields)@), r@),
{
    let ghost m = field_models(fields@);
    let device = address_text(r.device);
    let index = decimal_text(r.index as u64);
    let at = find_field(fields, device.as_str(), index.as_str());
    let suggestion = r.suggestion();
    if at < fields.len() {
        let old_entry = &fields[at];
        let entry = FieldConfig {
            device: old_entry.device.clone(),
            class: r.class.clone(),
            instance: r.instance.clone(),
            group: r.group.clone(),
            index: old_entry.index.clone(),
            field: r.name.clone(),
            unit: r.unit.clone(),
            enabled: old_entry.enabled,
            suggested_path: suggestion,
            path: old_entry.path.clone(),
        };
        assert(m[at as int] == old_entry@);
        assert(entry@ == refreshed(m[at as int], r@));
        fields.set(at, entry);
        assert(field_models(fields@) =~= with_field(m, r@));
    } else {
        let entry = FieldConfig {
            device,
            class: r.class.clone(),
            instance: r.instance.clone(),
            group: r.group.clone(),
            index,
            field: r.name.clone(),
            unit: r.unit.clone(),
            enabled: false,
            suggested_path: suggestion.clone(),
            path: suggestion,
        };
        assert(entry@ == fresh(r@));
        fields.push(entry);
        assert(field_models(fields@) =~= with_field(m, r@));
    }
}

fn record_device(devices: &mut Vec<DeviceConfig>, r: &DeviceMetaRec)
    ensures
        device_models(final(devices)@) == with_device(device_models(old(devices)@), r@),
{
    let ghost m = device_models(devices@);
    let device = address_text(r.device);
    let at = find_device(devices, device.as_str());
    if at < devices.len() {
        let old_entry = &devices[at];
        let entry = DeviceConfig {
            device: old_entry.device.clone(),
            class: r.class.clone(),
            instance: r.instance.clone(),
            publish_name: old_entry.publish_name,
            publish_manufacturer_name: old_entry.publish_manufacturer_name,
            publish_model: old_entry.publish_model,
        };
        assert(m[at as int] == old_entry@);
        devices.set(at, entry);
        assert(device_models(devices@) =~= with_device(m, r@));
    } else {
        devices.push(
            DeviceConfig {
                device,
                class: r.class.clone(),
                instance: r.instance.clone(),
                publish_name: false,
                publish_manufacturer_name: false,
                publish_model: false,
            },
        );
        assert(device_models(devices@) =~= with_device(m, r@));
    }
}

/// Records what was found in a file.
pub fn record(cfg: &mut PublicationConfig, devices: &Vec<DeviceMetaRec>, fields: &Vec<FieldRec>)
    ensures
        final(cfg)@ == recorded(
            old(cfg)@,
            device_rec_models(devices@),
            rec_models(fields@),
        ),
{
    let ghost start = cfg@;
    let ghost ds = device_rec_models(devices@);
    let ghost fs = rec_models(fields@);
    assert(ds.take(0) =~= seq![]);
    assert(fs.take(0) =~= seq![]);
    let mut i: usize = 0;
    while i < devices.len()
        invariant
            i <= devices@.len(),
            ds == device_rec_models(devices@),
            cfg@.devices == with_devices(start.devices, ds.take(i as int)),
            cfg@.fields == start.fields,
        decreases devices@.len() - i,
    {
        record_device(&mut cfg.devices, &devices[i]);
        proof {
            let next = ds.take(i as int + 1);
            assert(next.drop_last() =~= ds.take(i as int));
            assert(next.last() == devices@[i as int]@);
        }
        i += 1;
    }
    assert(ds.take(i as int) =~= ds);
    let mut k: usize = 0;
    while k < fields.len()
        invariant
            k <= fields@.len(),
            fs == rec_models(fields@),
            cfg@.devices == with_devices(start.devices, ds),
            cfg@.fields == with_fields(start.fields, fs.take(k as int)),
        decreases fields@.len() - k,
    {
        record_field(&mut cfg.fields, &fields[k]);
        proof {
            let next = fs.take(k as int + 1);
            assert(next.drop_last() =~= fs.take(k as int));
            assert(next.last() == fields@[k as int]@);
        }
        k += 1;
    }
    assert(fs.take(k as int) =~= fs);
}

// ---- what is published -----------------------------------------------------------

/// What is published of a field: nothing, unless its entry is enabled, and then its
/// value under the path of the entry. A value that the mapper knows is converted; any
/// other is published as it is.
pub open spec fn publication(fields: Seq<FieldModel>, r: RecModel, value: BusValue) -> Option<
    (Seq<char>, PublishedModel),
> {
    let at = place(fields, r);
    if at < fields.len() && fields[at].enabled {
        let v = match rule(r.class, r.instance, r.group, r.name, r.unit) {
            Some((_, reading)) => reading.apply(value),
            None => as_text(value),
        };
        match v {
            Some(p) => Some((fields[at].path, p)),
            None => None,
        }
    } else {
        None
    }
}

/// What is published of a field.
pub fn publish(cfg: &PublicationConfig, r: &FieldRec, value: &BusValue) -> (out: Option<
    (String, Published),
>)
    ensures
        match out {
            Some((p, v)) => publication(cfg@.fields, r@, *value) == Some((p@, v@)),
            None => publication(cfg@.fields, r@, *value) is None,
        },
{
    let device = address_text(r.device);
    let index = decimal_text(r.index as u64);
    let at = find_field(&cfg.fields, device.as_str(), index.as_str());
    if at >= cfg.fields.len() {
        return None;
    }
    let entry = &cfg.fields[at];
    assert(cfg@.fields[at as int] == entry@);
    if !entry.enabled {
        return None;
    }
    let found: Option<Published> = match r.known() {
        Some(_) => match map_field(
            r.class.as_str(),
            r.instance.as_str(),
            r.group.as_str(),
            r.name.as_str(),
            r.unit.as_str(),
            value,
        ) {
            Some((_, v)) => Some(v),
            None => None,
        },
        None => text_value(value),
    };
    match found {
        Some(v) => Some((entry.path.clone(), v)),
        None => None,
    }
}

// ---- laws ------------------------------------------------------------------------

proof fn lemma_with_field(fields: Seq<FieldModel>, r: RecModel)
    ensures
        ({
            let now = with_field(fields, r);
            &&& fields.len() <= now.len() <= fields.len() + 1
            &&& place(now, r) < now.len()
            &&& forall|i: int|
                0 <= i < fields.len() ==> (#[trigger] now[i]).device == fields[i].device
                    && now[i].index == fields[i].index && now[i].enabled == fields[i].enabled
                    && now[i].path == fields[i].path
            &&& now.len() > fields.len() ==> now.last() == fresh(r) && place(fields, r)
                == fields.len()
        }),
{
    let (d, x) = (address(r.device), decimal(r.index));
    lemma_field_at(fields, d, x);
    let now = with_field(fields, r);
    let at = place(fields, r);
    assert forall|i: int| 0 <= i < at implies !((#[trigger] now[i]).device == d && now[i].index
        == x) by {
        assert(now[i] == fields[i]);
    }
    lemma_field_at_unique(now, d, x, at);
}

/// Recording what was found keeps every entry in its place, with what was chosen for
/// it. The entries of new fields come behind, are not enabled, and have the suggested
/// path.
pub proof fn law_record_keeps_choices(fields: Seq<FieldModel>, recs: Seq<RecModel>, i: int)
    requires
        0 <= i < with_fields(fields, recs).len(),
    ensures
        ({
            let f = with_fields(fields, recs)[i];
            &&& fields.len() <= with_fields(fields, recs).len()
            &&& i < fields.len() ==> f.device == fields[i].device && f.index == fields[i].index
                && f.enabled == fields[i].enabled && f.path == fields[i].path
            &&& i >= fields.len() ==> !f.enabled
        }),
    decreases recs.len(),
{
    if recs.len() > 0 {
        let before = with_fields(fields, recs.drop_last());
        lemma_with_field(before, recs.last());
        lemma_keeps_length(fields, recs.drop_last());
        if i < before.len() {
            law_record_keeps_choices(fields, recs.drop_last(), i);
        }
    }
}

/// Recording devices keeps what was chosen of them: an entry that was there, also one of a
/// device that is not found now, stays where it is and tells the same of the device; a new
/// entry tells nothing.
pub proof fn law_record_keeps_device_choices(
    devices: Seq<DeviceModel>,
    recs: Seq<DeviceRecModel>,
    i: int,
)
    requires
        0 <= i < with_devices(devices, recs).len(),
    ensures
        ({
            let d = with_devices(devices, recs)[i];
            let tells = d.publish_name || d.publish_manufacturer_name || d.publish_model;
            &&& devices.len() <= with_devices(devices, recs).len()
            &&& i < devices.len() ==> d.device == devices[i].device && d.publish_name
                == devices[i].publish_name && d.publish_manufacturer_name
                == devices[i].publish_manufacturer_name && d.publish_model
                == devices[i].publish_model
            &&& i >= devices.len() ==> !tells
        }),
    decreases recs.len(),
{
    if recs.len() > 0 {
        let before = with_devices(devices, recs.drop_last());
        lemma_keeps_devices(devices, recs.drop_last());
        lemma_device_at(before, address(recs.last().device));
        if i < before.len() {
            law_record_keeps_device_choices(devices, recs.drop_last(), i);
        }
    }
}

proof fn lemma_keeps_devices(devices: Seq<DeviceModel>, recs: Seq<DeviceRecModel>)
    ensures
        devices.len() <= with_devices(devices, recs).len(),
    decreases recs.len(),
{
    if recs.len() > 0 {
        lemma_keeps_devices(devices, recs.drop_last());
        let before = with_devices(devices, recs.drop_last());
        lemma_device_at(before, address(recs.last().device));
    }
}

proof fn lemma_keeps_length(fields: Seq<FieldModel>, recs: Seq<RecModel>)
    ensures
        fields.len() <= with_fields(fields, recs).len(),
    decreases recs.len(),
{
    if recs.len() > 0 {
        lemma_keeps_length(fields, recs.drop_last());
        lemma_with_field(with_fields(fields, recs.drop_last()), recs.last());
    }
}

/// Every field that was found has an entry once it is recorded.
pub proof fn law_found_fields_have_entries(
    fields: Seq<FieldModel>,
    recs: Seq<RecModel>,
    k: int,
)
    requires
        0 <= k < recs.len(),
    ensures
        place(with_fields(fields, recs), recs[k]) < with_fields(fields, recs).len(),
    decreases recs.len(),
{
    let before = with_fields(fields, recs.drop_last());
    let now = with_fields(fields, recs);
    lemma_with_field(before, recs.last());
    if k < recs.len() - 1 {
        law_found_fields_have_entries(fields, recs.drop_last(), k);
        assert(recs.drop_last()[k] == recs[k]);
        let (d, x) = (address(recs[k].device), decimal(recs[k].index));
        lemma_field_at(before, d, x);
        lemma_field_at(now, d, x);
        let p = place(before, recs[k]);
        if place(now, recs[k]) >= now.len() {
            assert(now[p].device == before[p].device && now[p].index == before[p].index);
        }
    }
}

/// What is published of a field is published because its entry is enabled, and at the path
/// of that entry.
pub proof fn law_published_means_enabled(fields: Seq<FieldModel>, r: RecModel, value: BusValue)
    ensures
        publication(fields, r, value) matches Some((p, _)) ==> exists|i: int|
            0 <= i < fields.len() && (#[trigger] fields[i]).enabled && fields[i].path == p
                && fields[i].device == address(r.device) && fields[i].index == decimal(r.index),
{
    lemma_field_at(fields, address(r.device), decimal(r.index));
    if publication(fields, r, value) is Some {
        assert(fields[place(fields, r)].enabled);
    }
}

/// A field that was only just found is not published.
pub proof fn law_new_fields_are_not_published(
    fields: Seq<FieldModel>,
    recs: Seq<RecModel>,
    r: RecModel,
    value: BusValue,
)
    requires
        place(fields, r) >= fields.len(),
    ensures
        publication(with_fields(fields, recs), r, value) is None,
{
    let now = with_fields(fields, recs);
    let (d, x) = (address(r.device), decimal(r.index));
    lemma_field_at(fields, d, x);
    lemma_field_at(now, d, x);
    let at = place(now, r);
    if at < now.len() {
        law_record_keeps_choices(fields, recs, at);
        if at < fields.len() {
            assert(fields[at].device == d && fields[at].index == x);
        }
    }
}

/// Whether entry `i` is the one of a field: the first that names the device and the number
/// of the field on it.
pub open spec fn entry_is_of(fields: Seq<FieldModel>, i: int, r: RecModel) -> bool {
    let names = |f: FieldModel| f.device == address(r.device) && f.index == decimal(r.index);
    &&& 0 <= i < fields.len() && names(fields[i])
    &&& forall|j: int| 0 <= j < i ==> !names(#[trigger] fields[j])
}

/// An address is `0x` and the number of the device in six capital hexadecimal digits, or
/// more where six are not enough. No two devices have the same address.
pub proof fn law_address(device: nat, other: nat)
    ensures
        address(device).take(2) == "0x"@,
        address(device).skip(2) == hex(device, 6),
        address(device).len() >= 8,
        address(device) == address(other) ==> device == other,
{
    reveal_strlit("0x");
    assert(address(device).take(2) =~= "0x"@);
    assert(address(device).skip(2) =~= hex(device, 6));
    assert(address(other).skip(2) =~= hex(other, 6));
    law_hex(device, 6);
    if address(device) == address(other) {
        lemma_hex_apart(device, other, 6);
    }
}

proof fn lemma_hex_apart(a: nat, b: nat, width: nat)
    requires
        hex(a, width) == hex(b, width),
    ensures
        a == b,
    decreases a + b + width,
{
    law_hex(a, width);
    law_hex(b, width);
    let w: nat = (if width == 0 { 0 } else { width - 1 }) as nat;
    if a > 0 || b > 0 || width > 0 {
        if a > 0 || width > 0 {
            assert(b > 0 || width > 0);
            lemma_hex_apart(a / 16, b / 16, w);
            assert(a as int % 16 == b as int % 16);
        } else {
            assert(hex(b, width).len() == 0);
        }
    }
}

proof fn lemma_place(fields: Seq<FieldModel>, i: int, r: RecModel)
    requires
        entry_is_of(fields, i, r),
    ensures
        place(fields, r) == i,
{
    let (d, x) = (address(r.device), decimal(r.index));
    assert forall|j: int| 0 <= j < i implies !((#[trigger] fields[j]).device == d
        && fields[j].index == x) by {}
    lemma_field_at_unique(fields, d, x, i);
}

/// What is published of a field stands at the path of its entry. Of a field that is known
/// the value is the one its rule makes of it; of any other it is the value as it was
/// reported. Nothing is published where the entry is not enabled, where there is none, and
/// where the rule makes nothing of the value.
pub proof fn law_published_value(fields: Seq<FieldModel>, i: int, r: RecModel, value: BusValue)
    ensures
        entry_is_of(fields, i, r) && fields[i].enabled ==> {
            let out = publication(fields, r, value);
            match known_path(r.class, r.instance, r.group, r.name, r.unit) {
                Some(_) => match mapped(r.class, r.instance, r.group, r.name, r.unit, value) {
                    Some((_, v)) => out == Some((fields[i].path, v)),
                    None => out is None,
                },
                None => match plain(value, false) {
                    Some(v) => out == Some((fields[i].path, v)),
                    None => out is None,
                },
            }
        },
        entry_is_of(fields, i, r) && !fields[i].enabled ==> publication(fields, r, value) is None,
        (forall|j: int|
            0 <= j < fields.len() ==> (#[trigger] fields[j]).device != address(r.device)
                || fields[j].index != decimal(r.index)) ==> publication(fields, r, value) is None,
{
    law_readings(Reading::Text, value);
    if entry_is_of(fields, i, r) {
        lemma_place(fields, i, r);
    }
    lemma_field_at(fields, address(r.device), decimal(r.index));
}

/// Recording a field makes its entry say what was found of it: class, instance, group,
/// name and unit, and the path that is known for it, or none. An entry that was there keeps
/// its place, whether it is enabled, and its path. One that is new stands behind those that
/// were there, is not enabled, and has the path that is known.
pub proof fn law_entries_tell_what_was_found(
    fields: Seq<FieldModel>,
    recs: Seq<RecModel>,
    k: int,
) -> (i: int)
    requires
        0 <= k < recs.len(),
        forall|j: int|
            0 <= j < recs.len() && j != k ==> (#[trigger] recs[j]).device != recs[k].device
                || recs[j].index != recs[k].index,
    ensures
        ({
            let now = with_fields(fields, recs);
            let (f, r) = (now[i], recs[k]);
            &&& entry_is_of(now, i, r)
            &&& f.class == r.class && f.instance == r.instance && f.group == r.group
            &&& f.field == r.name && f.unit == r.unit
            &&& f.suggested_path == match known_path(
                r.class,
                r.instance,
                r.group,
                r.name,
                r.unit,
            ) {
                Some(p) => p,
                None => Seq::empty(),
            }
            &&& i < fields.len() ==> f.enabled == fields[i].enabled && f.path == fields[i].path
            &&& i >= fields.len() ==> !f.enabled && f.path == f.suggested_path
            &&& (exists|j: int|
                0 <= j < fields.len() && (#[trigger] fields[j]).device == address(r.device)
                    && fields[j].index == decimal(r.index)) ==> i < fields.len()
        }),
    decreases recs.len(),
{
    let rest = recs.drop_last();
    let was = with_fields(fields, rest);
    let now = with_fields(fields, recs);
    let (r, l) = (recs[k], recs.last());
    let (d, x) = (address(r.device), decimal(r.index));
    lemma_with_field(was, l);
    lemma_field_at(was, address(l.device), decimal(l.index));
    lemma_keeps_length(fields, rest);
    lemma_field_at(fields, d, x);
    lemma_field_at(now, d, x);
    let at = place(now, r);
    if k < rest.len() {
        assert forall|j: int| 0 <= j < rest.len() && j != k implies (#[trigger] rest[j]).device
            != rest[k].device || rest[j].index != rest[k].index by {
            assert(rest[j] == recs[j]);
        }
        let i = law_entries_tell_what_was_found(fields, rest, k);
        assert(recs[recs.len() - 1] == l);
        law_address(l.device, r.device);
        law_decimal_tells_apart(l.index, r.index);
        assert(now[i] == was[i]);
        assert forall|j: int| 0 <= j < i implies !((#[trigger] now[j]).device == d && now[j].index
            == x) by {
            assert(!(was[j].device == d && was[j].index == x));
        }
        i
    } else {
        lemma_none_yet(fields, rest, r);
        lemma_field_at(was, d, x);
        let i = place(was, r);
        assert(now[i].device == d && now[i].index == x);
        assert(now[i].suggested_path == r.suggestion());
        assert forall|j: int| 0 <= j < i implies !((#[trigger] now[j]).device == d && now[j].index
            == x) by {
            assert(now[j] == was[j]);
            assert(!(was[j].device == d && was[j].index == x));
        }
        assert(entry_is_of(now, i, r));
        if i < fields.len() {
            law_record_keeps_choices(fields, rest, i);
        } else {
            assert(place(fields, r) >= fields.len());
            assert(i == was.len());
        }
        if exists|j: int|
            0 <= j < fields.len() && (#[trigger] fields[j]).device == d && fields[j].index == x {
            assert(place(fields, r) < fields.len());
        }
        i
    }
}

/// Numbers of fields are written so that no two read the same.
pub proof fn law_decimal_tells_apart(a: nat, b: nat)
    ensures
        decimal(a) == decimal(b) ==> a == b,
{
    law_decimal(a);
    law_decimal(b);
}

proof fn lemma_none_yet(fields: Seq<FieldModel>, recs: Seq<RecModel>, r: RecModel)
    requires
        forall|j: int|
            0 <= j < recs.len() ==> (#[trigger] recs[j]).device != r.device || recs[j].index
                != r.index,
    ensures
        place(with_fields(fields, recs), r) == if place(fields, r) < fields.len() {
            place(fields, r)
        } else {
            with_fields(fields, recs).len() as int
        },
    decreases recs.len(),
{
    lemma_field_at(fields, address(r.device), decimal(r.index));
    if recs.len() > 0 {
        let rest = recs.drop_last();
        let was = with_fields(fields, rest);
        let now = with_fields(fields, recs);
        let l = recs.last();
        let (d, x) = (address(r.device), decimal(r.index));
        assert forall|j: int| 0 <= j < rest.len() implies (#[trigger] rest[j]).device != r.device
            || rest[j].index != r.index by {
            assert(rest[j] == recs[j]);
        }
        lemma_none_yet(fields, rest, r);
        lemma_keeps_length(fields, rest);
        assert(recs[recs.len() - 1] == l);
        law_address(l.device, r.device);
        law_decimal_tells_apart(l.index, r.index);
        lemma_with_field(was, l);
        lemma_field_at(was, address(l.device), decimal(l.index));
        lemma_field_at(was, d, x);
        lemma_field_at(fields, d, x);
        let at = place(was, r);
        assert forall|j: int| 0 <= j < at implies !((#[trigger] now[j]).device == d && now[j].index
            == x) by {
            assert(!(was[j].device == d && was[j].index == x));
        }
        if at < was.len() {
            assert(now[at].device == was[at].device && now[at].index == was[at].index);
            lemma_field_at_unique(now, d, x, at);
        } else {
            assert forall|j: int| 0 <= j < now.len() implies !((#[trigger] now[j]).device == d
                && now[j].index == x) by {
                if j < was.len() {
                    assert(!(was[j].device == d && was[j].index == x));
                }
            }
            lemma_field_at_unique(now, d, x, now.len() as int);
        }
    }
}

/// Recording a device makes its entry say its class and its instance. An entry that was
/// there keeps its place and what it tells of the device; a new one stands behind and tells
/// nothing.
pub proof fn law_device_entries_tell_what_was_found(
    devices: Seq<DeviceModel>,
    r: DeviceRecModel,
    i: int,
)
    ensures
        ({
            let now = with_devices(devices, seq![r]);
            let names = |d: DeviceModel| d.device == address(r.device);
            &&& 0 <= i < devices.len() && names(devices[i]) && (forall|j: int|
                0 <= j < i ==> !names(#[trigger] devices[j])) ==> now == devices.update(
                i,
                DeviceModel {
                    device: devices[i].device,
                    class: r.class,
                    instance: r.instance,
                    publish_name: devices[i].publish_name,
                    publish_manufacturer_name: devices[i].publish_manufacturer_name,
                    publish_model: devices[i].publish_model,
                },
            )
            &&& (forall|j: int| 0 <= j < devices.len() ==> !names(#[trigger] devices[j])) ==> now
                == devices.push(
                DeviceModel {
                    device: address(r.device),
                    class: r.class,
                    instance: r.instance,
                    publish_name: false,
                    publish_manufacturer_name: false,
                    publish_model: false,
                },
            )
        }),
{
    let one = seq![r];
    assert(one.drop_last() =~= seq![]);
    assert(with_devices(devices, one.drop_last()) == devices);
    assert(with_devices(devices, one) == with_device(devices, r));
    lemma_device_at(devices, address(r.device));
    let names = |d: DeviceModel| d.device == address(r.device);
    if 0 <= i < devices.len() && names(devices[i]) && (forall|j: int|
        0 <= j < i ==> !names(#[trigger] devices[j])) {
        assert forall|j: int| 0 <= j < i implies (#[trigger] devices[j]).device != address(
            r.device,
        ) by {
            assert(!names(devices[j]));
        }
        lemma_device_at_unique(devices, address(r.device), i);
    }
    if forall|j: int| 0 <= j < devices.len() ==> !names(#[trigger] devices[j]) {
        let at = device_at(devices, address(r.device));
        if at < devices.len() {
            assert(!names(devices[at]));
        }
    }
}

/// Devices are recorded one after the other, each into what the ones before it left.
pub proof fn law_devices_in_turn(
    devices: Seq<DeviceModel>,
    recs: Seq<DeviceRecModel>,
    more: Seq<DeviceRecModel>,
)
    ensures
        with_devices(devices, recs + more) == with_devices(with_devices(devices, recs), more),
        recs.len() == 0 ==> with_devices(devices, recs) == devices,
    decreases more.len(),
{
    if more.len() == 0 {
        assert(recs + more =~= recs);
    } else {
        assert((recs + more).drop_last() =~= recs + more.drop_last());
        law_devices_in_turn(devices, recs, more.drop_last());
    }
}

/// Fields are recorded one after the other, each into what the ones before it left.
pub proof fn law_fields_in_turn(
    fields: Seq<FieldModel>,
    recs: Seq<RecModel>,
    more: Seq<RecModel>,
)
    ensures
        with_fields(fields, recs + more) == with_fields(with_fields(fields, recs), more),
        recs.len() == 0 ==> with_fields(fields, recs) == fields,
    decreases more.len(),
{
    if more.len() == 0 {
        assert(recs + more =~= recs);
    } else {
        assert((recs + more).drop_last() =~= recs + more.drop_last());
        law_fields_in_turn(fields, recs, more.drop_last());
    }
}

/// Recording touches the entries of devices by the devices found and those of fields by the
/// fields found, and nothing of one by the other.
pub proof fn law_record_splits(
    cfg: ConfigModel,
    devices: Seq<DeviceRecModel>,
    fields: Seq<RecModel>,
)
    ensures
        recorded(cfg, devices, fields).devices == recorded(cfg, devices, seq![]).devices,
        recorded(cfg, devices, fields).fields == recorded(cfg, seq![], fields).fields,
        recorded(cfg, seq![], fields).devices == cfg.devices,
        recorded(cfg, devices, seq![]).fields == cfg.fields,
{
}

/// Whether the entry of a field says what is known of it.
spec fn up_to_date(fields: Seq<FieldModel>, r: RecModel) -> bool {
    let at = place(fields, r);
    at < fields.len() && fields[at] == refreshed(fields[at], r)
}

/// Whether two fields are told apart by their entries.
pub open spec fn apart(a: RecModel, b: RecModel) -> bool {
    address(a.device) != address(b.device) || decimal(a.index) != decimal(b.index)
}

proof fn lemma_up_to_date_stays(fields: Seq<FieldModel>, a: RecModel, b: RecModel)
    requires
        up_to_date(fields, a),
        apart(a, b),
    ensures
        up_to_date(with_field(fields, b), a),
{
    let (d, x) = (address(a.device), decimal(a.index));
    lemma_field_at(fields, d, x);
    lemma_field_at(fields, address(b.device), decimal(b.index));
    lemma_with_field(fields, b);
    let now = with_field(fields, b);
    let at = place(fields, a);
    assert(place(fields, b) != at);
    assert(now[at] == fields[at]);
    assert forall|i: int| 0 <= i < at implies !((#[trigger] now[i]).device == d && now[i].index
        == x) by {
        assert(!(fields[i].device == d && fields[i].index == x));
    }
    lemma_field_at_unique(now, d, x, at);
}

proof fn lemma_all_up_to_date(fields: Seq<FieldModel>, recs: Seq<RecModel>, k: int)
    requires
        forall|i: int, j: int|
            0 <= i < j < recs.len() ==> apart(#[trigger] recs[i], #[trigger] recs[j]),
        0 <= k < recs.len(),
    ensures
        up_to_date(with_fields(fields, recs), recs[k]),
    decreases recs.len(),
{
    let rest = recs.drop_last();
    let before = with_fields(fields, rest);
    let now = with_fields(fields, recs);
    lemma_with_field(before, recs.last());
    if k < rest.len() {
        assert forall|i: int, j: int| 0 <= i < j < rest.len() implies apart(
            #[trigger] rest[i],
            #[trigger] rest[j],
        ) by {
            assert(apart(recs[i], recs[j]));
        }
        lemma_all_up_to_date(fields, rest, k);
        assert(apart(recs[k], recs[recs.len() - 1]));
        lemma_up_to_date_stays(before, recs[k], recs.last());
    } else {
        let r = recs.last();
        let (d, x) = (address(r.device), decimal(r.index));
        lemma_field_at(before, d, x);
        let at = place(before, r);
        assert forall|i: int| 0 <= i < at implies !((#[trigger] now[i]).device == d && now[i].index
            == x) by {
            assert(now[i] == before[i]);
        }
        lemma_field_at_unique(now, d, x, at);
        assert(now[at] =~= refreshed(now[at], r));
    }
}

proof fn lemma_nothing_to_add(fields: Seq<FieldModel>, recs: Seq<RecModel>)
    requires
        forall|i: int| 0 <= i < recs.len() ==> up_to_date(fields, #[trigger] recs[i]),
    ensures
        with_fields(fields, recs) == fields,
    decreases recs.len(),
{
    if recs.len() > 0 {
        let rest = recs.drop_last();
        assert forall|i: int| 0 <= i < rest.len() implies up_to_date(
            fields,
            #[trigger] rest[i],
        ) by {
            assert(up_to_date(fields, recs[i]));
        }
        lemma_nothing_to_add(fields, rest);
        let r = recs.last();
        assert(up_to_date(fields, recs[recs.len() - 1]));
        lemma_field_at(fields, address(r.device), decimal(r.index));
        assert(with_field(fields, r) =~= fields);
    }
}

/// Recording the same fields again changes nothing.
pub proof fn law_recording_again_changes_nothing(fields: Seq<FieldModel>, recs: Seq<RecModel>)
    requires
        forall|i: int, j: int|
            0 <= i < j < recs.len() ==> apart(#[trigger] recs[i], #[trigger] recs[j]),
    ensures
        with_fields(with_fields(fields, recs), recs) == with_fields(fields, recs),
{
    let now = with_fields(fields, recs);
    assert forall|i: int| 0 <= i < recs.len() implies up_to_date(now, #[trigger] recs[i]) by {
        lemma_all_up_to_date(fields, recs, i);
    }
    lemma_nothing_to_add(now, recs);
}

/// Whether what is known of a field can stand in a file.
pub open spec fn presentable(r: RecModel) -> bool {
    &&& !blank(r.class)
    &&& !blank(r.instance)
    &&& blank(r.suggestion()) || path_fault(r.suggestion()) is None
}

proof fn lemma_not_blank(s: Seq<char>)
    requires
        s.len() > 0,
        !is_white(s[0]),
    ensures
        !blank(s),
{
    lemma_trimmed_ends(s);
}

proof fn lemma_trimmed_ends(s: Seq<char>)
    requires
        s.len() > 0,
        !is_white(s[0]),
    ensures
        trim_end(s).len() > 0,
        trimmed(s) == trim_end(s),
    decreases s.len(),
{
    if s.len() > 1 && is_white(s.last()) {
        lemma_trimmed_ends(s.drop_last());
    }
}

proof fn lemma_keys_not_blank(r: RecModel)
    ensures
        !blank(address(r.device)),
        !blank(decimal(r.index)),
{
    reveal_strlit("0x");
    lemma_not_blank(address(r.device));
    lemma_decimal_segment(r.index);
    assert(safe(decimal(r.index)[0]));
    lemma_not_blank(decimal(r.index));
}

/// Recording fields that can stand in a file keeps a file sound.
pub proof fn law_recording_fields_keeps_sound(cfg: ConfigModel, recs: Seq<RecModel>)
    requires
        sound(cfg),
        forall|i: int| 0 <= i < recs.len() ==> presentable(#[trigger] recs[i]),
    ensures
        sound(ConfigModel { fields: with_fields(cfg.fields, recs), ..cfg }),
    decreases recs.len(),
{
    if recs.len() > 0 {
        let rest = recs.drop_last();
        assert forall|i: int| 0 <= i < rest.len() implies presentable(#[trigger] rest[i]) by {
            assert(rest[i] == recs[i]);
        }
        law_recording_fields_keeps_sound(cfg, rest);
        let before = with_fields(cfg.fields, rest);
        let now = with_fields(cfg.fields, recs);
        let r = recs.last();
        assert(presentable(recs[recs.len() - 1]));
        lemma_with_field(before, r);
        lemma_keys_not_blank(r);
        let (d, x) = (address(r.device), decimal(r.index));
        lemma_field_at(before, d, x);
        let was = ConfigModel { fields: before, ..cfg };
        let is = ConfigModel { fields: now, ..cfg };
        assert forall|i: int| #![trigger is.fields[i]] 0 <= i < is.fields.len() implies {
            let f = is.fields[i];
            &&& !blank(f.device) && !blank(f.index) && !blank(f.class) && !blank(f.instance)
            &&& f.enabled || !blank(f.path) ==> path_fault(f.path) is None
            &&& !blank(f.suggested_path) ==> path_fault(f.suggested_path) is None
        } by {
            if i < before.len() {
                let g = was.fields[i];
                assert(!blank(g.device));
                assert(is.fields[i] == before[i] || is.fields[i] == refreshed(before[i], r));
            }
        }
        assert forall|i: int, j: int| 0 <= j < i < is.fields.len() implies (
        #[trigger] is.fields[i]).device != (#[trigger] is.fields[j]).device || is.fields[i].index
            != is.fields[j].index by {
            if i < before.len() {
                assert(was.fields[i].device != was.fields[j].device || was.fields[i].index
                    != was.fields[j].index);
            } else {
                assert(!(before[j].device == d && before[j].index == x));
            }
        }
        assert forall|i: int| #![trigger is.devices[i]] 0 <= i < is.devices.len() implies !blank(
            is.devices[i].device,
        ) && !blank(is.devices[i].class) && !blank(is.devices[i].instance) by {
            assert(was.devices[i] == is.devices[i]);
        }
        assert forall|i: int, j: int| 0 <= j < i < is.devices.len() implies (
        #[trigger] is.devices[i]).device != (#[trigger] is.devices[j]).device by {
            assert(was.devices[i].device != was.devices[j].device);
        }
    }
}

/// Recording devices whose class and instance are known keeps a file sound.
pub proof fn law_recording_devices_keeps_sound(cfg: ConfigModel, recs: Seq<DeviceRecModel>)
    requires
        sound(cfg),
        forall|i: int|
            0 <= i < recs.len() ==> !blank((#[trigger] recs[i]).class) && !blank(recs[i].instance),
    ensures
        sound(ConfigModel { devices: with_devices(cfg.devices, recs), ..cfg }),
    decreases recs.len(),
{
    if recs.len() > 0 {
        let rest = recs.drop_last();
        assert forall|i: int| 0 <= i < rest.len() implies !blank((#[trigger] rest[i]).class)
            && !blank(rest[i].instance) by {
            assert(rest[i] == recs[i]);
        }
        law_recording_devices_keeps_sound(cfg, rest);
        let before = with_devices(cfg.devices, rest);
        let now = with_devices(cfg.devices, recs);
        let r = recs.last();
        assert(!blank(recs[recs.len() - 1].class));
        reveal_strlit("0x");
        lemma_not_blank(address(r.device));
        let d = address(r.device);
        lemma_device_at(before, d);
        let was = ConfigModel { devices: before, ..cfg };
        let is = ConfigModel { devices: now, ..cfg };
        assert forall|i: int| #![trigger is.devices[i]] 0 <= i < is.devices.len() implies !blank(
            is.devices[i].device,
        ) && !blank(is.devices[i].class) && !blank(is.devices[i].instance) by {
            if i < before.len() {
                assert(!blank(was.devices[i].device));
            }
        }
        assert forall|i: int, j: int| 0 <= j < i < is.devices.len() implies (
        #[trigger] is.devices[i]).device != (#[trigger] is.devices[j]).device by {
            if i < before.len() {
                assert(was.devices[i].device != was.devices[j].device);
            } else {
                assert(before[j].device != d);
            }
        }
        assert forall|i: int| #![trigger is.fields[i]] 0 <= i < is.fields.len() implies {
            let f = is.fields[i];
            &&& !blank(f.device) && !blank(f.index) && !blank(f.class) && !blank(f.instance)
            &&& f.enabled || !blank(f.path) ==> path_fault(f.path) is None
            &&& !blank(f.suggested_path) ==> path_fault(f.suggested_path) is None
        } by {
            assert(was.fields[i] == is.fields[i]);
        }
        assert forall|i: int, j: int| 0 <= j < i < is.fields.len() implies (
        #[trigger] is.fields[i]).device != (#[trigger] is.fields[j]).device || is.fields[i].index
            != is.fields[j].index by {
            assert(was.fields[i].device != was.fields[j].device || was.fields[i].index
                != was.fields[j].index);
        }
    }
}

/// As many fields are known as have a path.
pub proof fn law_known_fields_are_counted(recs: Seq<RecModel>, r: RecModel)
    ensures
        known_count(seq![]) == 0,
        known_count(recs.push(r)) == known_count(recs) + (if known_path(
            r.class,
            r.instance,
            r.group,
            r.name,
            r.unit,
        ) is Some {
            1nat
        } else {
            0
        }),
{
    reveal(Seq::filter);
    let knows = |x: RecModel| x.known() is Some;
    assert(recs.push(r).drop_last() =~= recs);
    assert(Seq::<RecModel>::empty().filter(knows).len() == 0);
}

/// What is handed out for a known field whose entry is enabled is the path of the entry and
/// the value that the rule of the field makes.
pub proof fn law_known_fields_are_published(
    cfg: &PublicationConfig,
    r: &FieldRec,
    value: &BusValue,
    out: Option<(String, Published)>,
    i: int,
    v: PublishedModel,
)
    requires
        call_ensures(publish, (cfg, r, value), out),
        entry_is_of(cfg@.fields, i, r@),
        cfg@.fields[i].enabled,
        mapped(r.class@, r.instance@, r.group@, r.name@, r.unit@, *value) matches Some((_, w)) && w
            == v,
    ensures
        out is Some,
        out matches Some((p, w)) ==> p@ == cfg.fields@[i].path@ && w@ == v,
{
    law_published_value(cfg@.fields, i, r@, *value);
}

} // verus!
