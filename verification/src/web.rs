//! What the browser editor is told: devices from a dump, the fields of the schema, and
//! which of them a value can go to.

use vstd::prelude::*;

use crate::signalk::{Plan, Refusal};
use crate::signalk_schema::{
    chars, electrical_fields, electrical_types, entry_names, list_models, lists, ref_models,
    type_fields, SchemaDoc, SchemaField, SignalKField,
};
use crate::strmap::StrMap;
use crate::text::{cat, same, views};

verus! {

// ---- devices ---------------------------------------------------------------------------

/// A device.
#[derive(Debug, PartialEq, Eq)]
pub struct WebDevice {
    pub id: String,
    pub address: u32,
    pub article: String,
    pub serial: String,
    pub revision: String,
    pub name: String,
    pub firmware: String,
    pub status: String,
    pub groups: Vec<WebGroup>,
}

/// A group of fields.
#[derive(Debug, PartialEq, Eq)]
pub struct WebGroup {
    pub id: u32,
    pub name: String,
    pub menu: String,
    pub fields: Vec<WebField>,
}

/// A field.
#[derive(Debug, PartialEq, Eq)]
pub struct WebField {
    pub id: String,
    pub channel: String,
    pub index: u16,
    pub name: String,
    pub unit: String,
    pub value_text: String,
    pub options: Vec<String>,
    pub writeable: bool,
    pub eventable: bool,
}

/// A dump of a bus.
pub struct Dump {
    pub devices: Vec<DumpDevice>,
}

/// A device in a dump.
pub struct DumpDevice {
    pub id: String,
    pub address: u32,
    pub article: String,
    pub serial: String,
    pub revision: String,
    pub name: String,
    pub firmware: String,
    pub status: String,
    pub groups: Vec<DumpGroup>,
}

/// A group in a dump.
pub struct DumpGroup {
    pub id: u32,
    pub name: String,
    pub menu: String,
    pub fields: Vec<DumpField>,
}

/// A field in a dump.
pub struct DumpField {
    pub id: String,
    pub channel: String,
    pub index: u16,
    pub name: String,
    pub unit: String,
    pub value_text: String,
    pub options: Vec<String>,
    pub writeable: bool,
    pub eventable: bool,
}

/// Whether a field is that of a dump.
pub open spec fn is_field(w: WebField, d: DumpField) -> bool {
    w == (WebField {
        id: d.id,
        channel: d.channel,
        index: d.index,
        name: d.name,
        unit: d.unit,
        value_text: d.value_text,
        options: d.options,
        writeable: d.writeable,
        eventable: d.eventable,
    })
}

/// Whether a group is that of a dump.
pub open spec fn is_group(w: WebGroup, d: DumpGroup) -> bool {
    &&& w.id == d.id && w.name == d.name && w.menu == d.menu
    &&& w.fields@.len() == d.fields@.len()
    &&& forall|i: int| 0 <= i < w.fields@.len() ==> is_field(#[trigger] w.fields@[i], d.fields@[i])
}

/// Whether a device is that of a dump.
pub open spec fn is_device(w: WebDevice, d: DumpDevice) -> bool {
    &&& w.id == d.id && w.address == d.address && w.article == d.article && w.serial == d.serial
    &&& w.revision == d.revision && w.name == d.name && w.firmware == d.firmware && w.status
        == d.status
    &&& w.groups@.len() == d.groups@.len()
    &&& forall|i: int| 0 <= i < w.groups@.len() ==> is_group(#[trigger] w.groups@[i], d.groups@[i])
}

fn web_field(d: DumpField) -> (w: WebField)
    ensures
        is_field(w, d),
{
    WebField {
        id: d.id,
        channel: d.channel,
        index: d.index,
        name: d.name,
        unit: d.unit,
        value_text: d.value_text,
        options: d.options,
        writeable: d.writeable,
        eventable: d.eventable,
    }
}

fn web_group(d: DumpGroup) -> (w: WebGroup)
    ensures
        is_group(w, d),
{
    let DumpGroup { id, name, menu, fields: given } = d;
    let ghost all = given@;
    let mut rest = given;
    let mut fields: Vec<WebField> = Vec::new();
    assert(all.skip(0) =~= all);
    while rest.len() > 0
        invariant
            fields@.len() <= all.len(),
            rest@ == all.skip(fields@.len() as int),
            forall|i: int| 0 <= i < fields@.len() ==> is_field(#[trigger] fields@[i], all[i]),
        decreases rest@.len(),
    {
        let ghost n = fields@.len() as int;
        let f = rest.remove(0);
        assert(f == all[n]);
        assert(all.skip(n).remove(0) =~= all.skip(n + 1));
        fields.push(web_field(f));
    }
    WebGroup { id, name, menu, fields }
}

fn web_device(d: DumpDevice) -> (w: WebDevice)
    ensures
        is_device(w, d),
{
    let DumpDevice {
        id,
        address,
        article,
        serial,
        revision,
        name,
        firmware,
        status,
        groups: given,
    } = d;
    let ghost all = given@;
    let mut rest = given;
    let mut groups: Vec<WebGroup> = Vec::new();
    assert(all.skip(0) =~= all);
    while rest.len() > 0
        invariant
            groups@.len() <= all.len(),
            rest@ == all.skip(groups@.len() as int),
            forall|i: int| 0 <= i < groups@.len() ==> is_group(#[trigger] groups@[i], all[i]),
        decreases rest@.len(),
    {
        let ghost n = groups@.len() as int;
        let g = rest.remove(0);
        assert(g == all[n]);
        assert(all.skip(n).remove(0) =~= all.skip(n + 1));
        groups.push(web_group(g));
    }
    WebDevice { id, address, article, serial, revision, name, firmware, status, groups }
}

/// The devices of a dump.
pub fn load_dump(dump: Dump) -> (devices: Vec<WebDevice>)
    ensures
        devices@.len() == dump.devices@.len(),
        forall|i: int|
            0 <= i < devices@.len() ==> is_device(#[trigger] devices@[i], dump.devices@[i]),
{
    let ghost all = dump.devices@;
    let mut rest = dump.devices;
    let mut devices: Vec<WebDevice> = Vec::new();
    assert(all.skip(0) =~= all);
    while rest.len() > 0
        invariant
            devices@.len() <= all.len(),
            rest@ == all.skip(devices@.len() as int),
            forall|i: int| 0 <= i < devices@.len() ==> is_device(#[trigger] devices@[i], all[i]),
        decreases rest@.len(),
    {
        let ghost n = devices@.len() as int;
        let d = rest.remove(0);
        assert(d == all[n]);
        assert(all.skip(n).remove(0) =~= all.skip(n + 1));
        devices.push(web_device(d));
    }
    devices
}

// ---- the schema --------------------------------------------------------------------------

/// Whether a list has the fields of a type of devices.
pub open spec fn lists_type(doc: SchemaDoc, t: Seq<char>, v: Seq<SignalKField>) -> bool {
    type_fields(doc.root@, ref_models(doc.refs@), t, usize::MAX as nat) matches Some(m) && lists(
        list_models(v),
        m,
    )
}

/// The fields of every type of devices, by type. There is no answer where that of one
/// type has none.
pub fn electrical_catalog(doc: &SchemaDoc) -> (r: Option<StrMap<Vec<SignalKField>>>)
    ensures
        match r {
            Some(m) => {
                let names = entry_names(doc.root@.object_member("properties"@));
                &&& forall|t: Seq<char>|
                    #![trigger m@.dom().contains(t)]
                    m@.dom().contains(t) <==> names.contains(t)
                &&& forall|t: Seq<char>|
                    #![trigger m@[t]]
                    m@.dom().contains(t) ==> lists_type(*doc, t, m@[t]@)
            },
            None => exists|t: Seq<char>|
                entry_names(doc.root@.object_member("properties"@)).contains(t)
                    && #[trigger] type_fields(
                    doc.root@,
                    ref_models(doc.refs@),
                    t,
                    usize::MAX as nat,
                ) is None,
        },
{
    let types = electrical_types(doc);
    let ghost names = entry_names(doc.root@.object_member("properties"@));
    let mut catalog: StrMap<Vec<SignalKField>> = StrMap::new();
    let mut i: usize = 0;
    while i < types.len()
        invariant
            i <= types@.len(),
            views(types@) == names,
            names == entry_names(doc.root@.object_member("properties"@)),
            names.len() == types@.len(),
            forall|t: Seq<char>|
                #![trigger catalog@.dom().contains(t)]
                catalog@.dom().contains(t) <==> names.take(i as int).contains(t),
            forall|t: Seq<char>|
                #![trigger catalog@[t]]
                catalog@.dom().contains(t) ==> lists_type(*doc, t, catalog@[t]@),
        decreases types@.len() - i,
    {
        let ghost t = types@[i as int]@;
        proof {
            let (done, next) = (names.take(i as int), names.take(i as int + 1));
            assert(names[i as int] == t);
            assert(next[i as int] == t);
            assert(names.contains(t));
            assert forall|x: Seq<char>| next.contains(x) implies done.contains(x) || x == t by {
                let j = next.index_of(x);
                if j < i {
                    assert(done[j] == x);
                }
            }
            assert forall|x: Seq<char>| done.contains(x) implies next.contains(x) by {
                let j = done.index_of(x);
                assert(next[j] == x);
            }
        }
        match electrical_fields(doc, types[i].as_str()) {
            Some(fields) => {
                catalog.insert(types[i].clone(), fields);
            },
            None => {
                return None;
            },
        }
        i += 1;
    }
    assert(names.take(i as int) =~= names);
    Some(catalog)
}

// ---- where a value can go ------------------------------------------------------------------

/// Whether a value of a unit can go to a field: the SI unit of the value is that of the
/// field, or neither has one.
pub open spec fn unit_fits(field: Option<Seq<char>>, source: Option<Seq<char>>) -> bool {
    field == source
}

/// The characters of an optional text.
pub open spec fn chars_ref(s: Option<&str>) -> Option<Seq<char>> {
    match s {
        Some(t) => Some(t@),
        None => None,
    }
}

/// Whether a value with an SI unit, or with none, can go to a field.
pub fn fits_unit(field: &SignalKField, source: Option<&str>) -> (r: bool)
    ensures
        r == unit_fits(chars(field.unit), chars_ref(source)),
{
    match (&field.unit, source) {
        (Some(u), Some(s)) => same(u.as_str(), s),
        (None, None) => true,
        _ => false,
    }
}

/// The path that stands for a field of a type of devices.
pub open spec fn stand_in(device_type: Seq<char>, path: Seq<char>) -> Seq<char> {
    "electrical."@ + device_type + ".candidate."@ + path
}

/// The path under which it is planned whether a value can go to a field.
pub fn candidate_path(device_type: &str, path: &str) -> (s: String)
    ensures
        s@ == stand_in(device_type@, path@),
{
    let mut s = cat("electrical.", device_type);
    s.append(".candidate.");
    s.append(path);
    s
}

/// A field that a value can go to.
#[derive(Debug, PartialEq, Eq)]
pub struct Candidate {
    pub path: String,
    pub unit: Option<String>,
    pub description: Option<String>,
}

/// A field that a value can go to.
#[verifier::ext_equal]
pub struct CandidateModel {
    pub path: Seq<char>,
    pub unit: Option<Seq<char>>,
    pub description: Option<Seq<char>>,
}

impl View for Candidate {
    type V = CandidateModel;

    open spec fn view(&self) -> CandidateModel {
        CandidateModel {
            path: self.path@,
            unit: chars(self.unit),
            description: chars(self.description),
        }
    }
}

/// The fields that a value can go to, given its SI unit and, for each field, the unit
/// under which it would be published, if it can be.
pub open spec fn candidates_of(
    fields: Seq<SchemaField>,
    source: Option<Seq<char>>,
    planned: Seq<Option<Option<String>>>,
) -> Seq<CandidateModel>
    decreases fields.len(),
{
    if fields.len() == 0 {
        Seq::empty()
    } else {
        let head = candidates_of(fields.drop_last(), source, planned.drop_last());
        let f = fields.last();
        match planned.last() {
            Some(unit) => if unit_fits(f.unit, source) {
                head.push(
                    CandidateModel {
                        path: f.path,
                        unit: chars(unit),
                        description: f.description,
                    },
                )
            } else {
                head
            },
            None => head,
        }
    }
}

/// The fields that a value can go to.
pub fn candidates(
    fields: &Vec<SignalKField>,
    source: Option<&str>,
    planned: &Vec<Option<Option<String>>>,
) -> (out: Vec<Candidate>)
    requires
        fields@.len() == planned@.len(),
    ensures
        out@.map_values(|c: Candidate| c@) == candidates_of(
            list_models(fields@),
            chars_ref(source),
            planned@,
        ),
{
    let ghost m = list_models(fields@);
    let mut out: Vec<Candidate> = Vec::new();
    let mut i: usize = 0;
    assert(out@.map_values(|c: Candidate| c@) =~= candidates_of(
        m.take(0),
        chars_ref(source),
        planned@.take(0),
    ));
    while i < fields.len()
        invariant
            i <= fields@.len(),
            fields@.len() == planned@.len(),
            m == list_models(fields@),
            out@.map_values(|c: Candidate| c@) == candidates_of(
                m.take(i as int),
                chars_ref(source),
                planned@.take(i as int),
            ),
        decreases fields@.len() - i,
    {
        let f = &fields[i];
        let ghost before = out@.map_values(|c: Candidate| c@);
        proof {
            let (a, b) = (m.take(i as int + 1), planned@.take(i as int + 1));
            assert(a.drop_last() =~= m.take(i as int));
            assert(b.drop_last() =~= planned@.take(i as int));
            assert(a.last() == f@);
        }
        match &planned[i] {
            Some(unit) => {
                if fits_unit(f, source) {
                    let c = Candidate {
                        path: f.path.clone(),
                        unit: unit.clone(),
                        description: f.description.clone(),
                    };
                    let ghost v = c@;
                    out.push(c);
                    assert(out@.map_values(|c: Candidate| c@) =~= before.push(v));
                }
            },
            None => {},
        }
        i += 1;
    }
    assert(m.take(i as int) =~= m);
    assert(planned@.take(i as int) =~= planned@);
    out
}

/// Whether a field can be published under a path, and how.
#[derive(Debug, PartialEq, Eq)]
pub struct CompatibilityResponse {
    pub compatible: bool,
    pub unit: Option<String>,
    pub warning: Option<String>,
    pub refusal: Option<String>,
}

/// Whether a field can be published under a path, by what that comes to.
pub fn compatibility(plan: Result<Plan, Refusal>) -> (r: CompatibilityResponse)
    ensures
        match plan {
            Ok(p) => r.compatible && r.unit == p.unit && r.warning == p.warning && r.refusal is None,
            Err(e) => !r.compatible && r.unit is None && r.warning is None && chars(r.refusal)
                == Some(e.words()),
        },
{
    match plan {
        Ok(p) => CompatibilityResponse {
            compatible: true,
            unit: p.unit,
            warning: p.warning,
            refusal: None,
        },
        Err(e) => CompatibilityResponse {
            compatible: false,
            unit: None,
            warning: None,
            refusal: Some(e.message().clone()),
        },
    }
}

} // verus!
