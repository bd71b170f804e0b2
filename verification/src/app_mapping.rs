//! Editing the mapping file in the terminal program.

use vstd::prelude::*;

use crate::app::{shortened, wrapped, App, AppModel};
use crate::editor::{
    copied_count, copied_to_all, copy_to_targets, mode_leaf_for, targets_of, CopyTarget, Origin,
    PathEditor, Stage, TargetModel, Tier,
};
use crate::mapping::{
    field_key, fields_in, key_of, lookup, mappings, no_device, DeviceMapping, DeviceMappingModel,
    FieldMapping, FieldMappingModel,
};
use crate::panes::{
    held, AccessLevel, IdentityModel, MappingSession, PathEditorModel, SessionModel,
};
use crate::signalk::{instance_of, node_of, path_instance, path_node, Plan, Refusal};
use crate::slug::{class_of, device_class, device_instance};
use crate::strmap::{before, lemma_before_irreflexive, lemma_before_transitive, StrMap};
use crate::text::{cat, cat3, decimal, decimal_text, same, trim, trimmed, views};

verus! {

broadcast use vstd::std_specs::hash::group_hash_axioms;

// ---- what is mapped -----------------------------------------------------------------------

impl AppModel {
    /// The serial number of a device, once the device has said it.
    pub open spec fn serial(self, id: u32) -> Option<Seq<char>> {
        if self.idents.dom().contains(id) && self.idents[id].serial.len() > 0 {
            Some(self.idents[id].serial)
        } else {
            None
        }
    }

    /// How many fields of a device have a path.
    pub open spec fn count_mapped(self, id: u32) -> Option<nat> {
        match (self.mapping, self.serial(id)) {
            (Some(s), Some(serial)) => Some(
                if s.map.dom().contains(serial) {
                    s.map[serial].fields.dom().len()
                } else {
                    0
                },
            ),
            _ => None,
        }
    }

    /// Where a field of the open device goes.
    pub open spec fn mapped_field(self, field: u16) -> Option<FieldMappingModel> {
        match (self.mapping, self.cur_serial) {
            (Some(s), Some(serial)) => lookup(s.map, serial, field as nat),
            _ => None,
        }
    }
}

/// The first field, in the order of keys, whose path lies under a node.
pub open spec fn first_noded(fields: Map<Seq<char>, FieldMappingModel>, k: Seq<char>) -> bool {
    &&& fields.dom().contains(k)
    &&& path_node(fields[k].path) is Some
    &&& forall|j: Seq<char>| #[trigger]
        fields.dom().contains(j) && path_node(fields[j].path) is Some ==> j == k || before(k, j)
}

/// What a path starts with where nothing else is known: the node of the first field of the
/// device that has a path under one.
pub open spec fn start_of_path(fields: Map<Seq<char>, FieldMappingModel>) -> Seq<char> {
    if exists|k: Seq<char>| first_noded(fields, k) {
        path_node(fields[choose|k: Seq<char>| first_noded(fields, k)].path)->0 + "."@
    } else {
        "electrical."@
    }
}

proof fn lemma_first_noded(fields: Map<Seq<char>, FieldMappingModel>, k: Seq<char>)
    requires
        first_noded(fields, k),
    ensures
        start_of_path(fields) == path_node(fields[k].path)->0 + "."@,
{
    let c = choose|c: Seq<char>| first_noded(fields, c);
    if c != k {
        assert(before(k, c));
        assert(before(c, k));
        lemma_before_transitive(k, c, k);
        lemma_before_irreflexive(k);
    }
}

fn prefix_of(fields: &StrMap<FieldMapping>) -> (s: String)
    ensures
        s@ == start_of_path(mappings(fields@)),
{
    let n: usize = fields.len();
    let ghost keys = fields.keys();
    let ghost m = mappings(fields@);
    let mut i: usize = 0;
    while i < n
        invariant
            i <= n,
            n == keys.len(),
            keys == fields.keys(),
            fields.well_formed(),
            m == mappings(fields@),
            forall|k: int| 0 <= k < i ==> path_node(m[#[trigger] keys[k]].path) is None,
        decreases n - i,
    {
        let f = fields.value_at(i);
        assert(m[keys[i as int]] == f@);
        match node_of(f.path.as_str()) {
            Some(node) => {
                proof {
                    let k = keys[i as int];
                    assert forall|j: Seq<char>| #[trigger]
                        m.dom().contains(j) && path_node(m[j].path) is Some implies j == k
                        || before(k, j) by {
                        assert(fields@.dom().contains(j));
                        let p = keys.index_of(j);
                        assert(keys[p] == j);
                        if p < i {
                            assert(path_node(m[keys[p]].path) is None);
                        } else if p > i {
                            assert(before(keys[i as int], keys[p]));
                        }
                    }
                    lemma_first_noded(m, k);
                }
                return cat(node.as_str(), ".");
            },
            None => {},
        }
        i += 1;
    }
    proof {
        if exists|k: Seq<char>| first_noded(m, k) {
            let k = choose|k: Seq<char>| first_noded(m, k);
            assert(fields@.dom().contains(k));
            let p = keys.index_of(k);
            assert(keys[p] == k);
            assert(path_node(m[keys[p]].path) is None);
        }
    }
    "electrical.".to_owned()
}

impl App {
    /// Whether the mapping file is edited.
    pub fn mapping_mode(&self) -> (r: bool)
        ensures
            r == self@.mapping is Some,
    {
        self.mapping.is_some()
    }

    /// Whether a path is being edited.
    pub fn path_editing(&self) -> (r: bool)
        ensures
            r == self@.path_editor is Some,
    {
        self.path_editor.is_some()
    }

    /// The serial number of a device.
    pub fn serial_of(&self, id: u32) -> (r: Option<String>)
        ensures
            held(r) == self@.serial(id),
    {
        match self.idents.get(&id) {
            Some(i) => {
                if i.serial.as_str().is_empty() {
                    None
                } else {
                    Some(i.serial.clone())
                }
            },
            None => None,
        }
    }

    /// How many fields of a device have a path, where the mapping file is edited and the
    /// serial number of the device is known.
    pub fn mapped_count(&self, id: u32) -> (r: Option<usize>)
        ensures
            match r {
                Some(n) => self@.count_mapped(id) == Some(n as nat),
                None => self@.count_mapped(id) is None,
            },
    {
        let serial = self.serial_of(id);
        match (&self.mapping, &serial) {
            (Some(s), Some(serial)) => match s.map.devices.get(serial.as_str()) {
                Some(d) => {
                    let n: usize = d.fields.len();
                    assert(d@.fields.dom() =~= d.fields@.dom());
                    Some(n)
                },
                None => Some(0),
            },
            _ => None,
        }
    }

    /// The path of a field of the open device.
    pub fn mapped_path(&self, field: u16) -> (r: Option<&str>)
        ensures
            match r {
                Some(p) => self@.mapped_field(field) matches Some(f) && f.path == p@,
                None => self@.mapped_field(field) is None,
            },
    {
        match (&self.mapping, &self.cur_serial) {
            (Some(s), Some(serial)) => match s.map.field(serial.as_str(), field) {
                Some(f) => Some(f.path.as_str()),
                None => None,
            },
            _ => None,
        }
    }
}

// ---- opening the editor of paths --------------------------------------------------------------

/// What has to be known to suggest a path.
pub struct SuggestRequest {
    pub article: String,
    pub firmware: String,
    pub class: String,
    pub instance: String,
    pub field: u16,
    pub name: String,
    pub unit: String,
}

/// A path that is suggested, and what the suggestion rests on.
pub struct Suggestion {
    pub path: String,
    pub invert: bool,
    pub tier: Tier,
}

impl AppModel {
    /// Whether a path has to be suggested: the marked field of a device whose serial
    /// number is known has none.
    pub open spec fn wants_suggestion(self) -> bool {
        &&& self.mapping is Some
        &&& self.selected() is Some
        &&& self.cur_serial is Some
        &&& self.mapped_field(self.selected()->0.index) is None
    }

    /// The fields of the open device that have a path.
    pub open spec fn own_fields(self) -> Map<Seq<char>, FieldMappingModel> {
        match (self.mapping, self.cur_serial) {
            (Some(s), Some(serial)) => if s.map.dom().contains(serial) {
                s.map[serial].fields
            } else {
                Map::empty()
            },
            _ => Map::empty(),
        }
    }

    /// With the editor of paths open on the marked field: on the path that it has, else on
    /// the suggested one, else on what other paths of the device start with.
    pub open spec fn map_begun(self, suggestion: Option<Suggestion>) -> AppModel {
        if self.mapping is None {
            self
        } else {
            match self.selected() {
                None => self,
                Some(f) => if self.cur_serial is None {
                    AppModel {
                        status: "this device has not reported a serial number yet"@,
                        ..self
                    }
                } else {
                    let editor = |
                        buf: Seq<char>,
                        invert: bool,
                        truth: Map<Seq<char>, bool>,
                        origin: Origin,
                    |
                        PathEditorModel {
                            field: f.index,
                            field_name: f.name,
                            unit: f.unit,
                            options: f.options,
                            buf,
                            invert,
                            truth,
                            origin,
                            stage: Stage::Path,
                        };
                    AppModel {
                        path_editor: Some(
                            match self.mapped_field(f.index) {
                                Some(m) => editor(m.path, m.invert, m.truth, Origin::Existing),
                                None => match suggestion {
                                    Some(s) => editor(
                                        s.path@,
                                        s.invert,
                                        Map::empty(),
                                        Origin::Suggested(s.tier),
                                    ),
                                    None => editor(
                                        start_of_path(self.own_fields()),
                                        false,
                                        Map::empty(),
                                        Origin::Blank,
                                    ),
                                },
                            },
                        ),
                        ..self
                    }
                },
            }
        }
    }
}

proof fn lemma_no_start()
    ensures
        start_of_path(Map::empty()) == "electrical."@,
{
    if exists|k: Seq<char>| first_noded(Map::empty(), k) {
        let k = choose|k: Seq<char>| first_noded(Map::empty(), k);
        assert(Map::<Seq<char>, FieldMappingModel>::empty().dom().contains(k));
    }
}

impl App {
    /// What has to be known to suggest a path for the marked field, where one has to be
    /// suggested. Of a device that has not said what it is, only the instance is known.
    pub fn suggestion_request(&self) -> (r: Option<SuggestRequest>)
        ensures
            match r {
                Some(q) => {
                    let f = self@.selected()->0;
                    let info = self@.cur_info;
                    &&& self@.wants_suggestion()
                    &&& q.field == f.index && q.name@ == f.name && q.unit@ == f.unit
                    &&& q.instance@ == self@.cur_instance
                    &&& q.article@ == (match info {
                        Some(i) => i.article,
                        None => Seq::empty(),
                    })
                    &&& q.firmware@ == (match info {
                        Some(i) => i.firmware,
                        None => Seq::empty(),
                    })
                    &&& q.class@ == device_class(
                        match info {
                            Some(i) => i.name,
                            None => Seq::empty(),
                        },
                    )
                },
                None => !self@.wants_suggestion(),
            },
    {
        if self.mapping.is_none() || self.cur_serial.is_none() {
            return None;
        }
        let f = match self.selected_field() {
            Some(f) => f,
            None => {
                return None;
            },
        };
        if self.mapped_path(f.index).is_some() {
            return None;
        }
        let (article, firmware, name) = match &self.cur_info {
            Some(i) => (i.article.clone(), i.firmware.clone(), i.name.clone()),
            None => (String::new(), String::new(), String::new()),
        };
        Some(
            SuggestRequest {
                article,
                firmware,
                class: class_of(name.as_str()),
                instance: self.cur_instance.clone(),
                field: f.index,
                name: f.name.clone(),
                unit: f.unit.clone(),
            },
        )
    }

    fn path_prefix(&self) -> (s: String)
        ensures
            s@ == start_of_path(self@.own_fields()),
    {
        proof {
            lemma_no_start();
        }
        match (&self.mapping, &self.cur_serial) {
            (Some(s), Some(serial)) => match s.map.devices.get(serial.as_str()) {
                Some(d) => prefix_of(&d.fields),
                None => "electrical.".to_owned(),
            },
            _ => "electrical.".to_owned(),
        }
    }

    fn existing(&self, field: u16) -> (r: Option<FieldMapping>)
        ensures
            held(r) == self@.mapped_field(field),
    {
        match (&self.mapping, &self.cur_serial) {
            (Some(s), Some(serial)) => match s.map.field(serial.as_str(), field) {
                Some(f) => Some(f.copied()),
                None => None,
            },
            _ => None,
        }
    }

    /// Opens the editor of paths on the marked field.
    pub fn begin_map(&mut self, suggestion: Option<Suggestion>)
        ensures
            final(self)@ == old(self)@.map_begun(suggestion),
    {
        if self.mapping.is_none() {
            return;
        }
        let f = match self.selected_field() {
            Some(f) => f.copied(),
            None => {
                return;
            },
        };
        if self.cur_serial.is_none() {
            self.status = "this device has not reported a serial number yet".to_owned();
            return;
        }
        let (buf, invert, truth, origin) = match self.existing(f.index) {
            Some(m) => (m.path, m.invert, m.truth, Origin::Existing),
            None => match suggestion {
                Some(s) => (s.path, s.invert, StrMap::new(), Origin::Suggested(s.tier)),
                None => (self.path_prefix(), false, StrMap::new(), Origin::Blank),
            },
        };
        self.path_editor = Some(
            PathEditor {
                field: f.index,
                field_name: f.name,
                unit: f.unit,
                options: f.options,
                buf,
                invert,
                truth,
                origin,
                stage: Stage::Path,
            },
        );
    }
}

// ---- removing a path ------------------------------------------------------------------------

impl AppModel {
    /// Without the path of the marked field.
    pub open spec fn unmapped(self) -> AppModel {
        match (self.mapping, self.selected(), self.cur_serial) {
            (Some(s), Some(f), Some(serial)) => if lookup(s.map, serial, f.index as nat) is Some {
                let d = s.map[serial];
                AppModel {
                    mapping: Some(
                        SessionModel {
                            map: s.map.insert(
                                serial,
                                DeviceMappingModel {
                                    fields: d.fields.remove(key_of(f.index as nat)),
                                    ..d
                                },
                            ),
                            dirty: true,
                            ..s
                        },
                    ),
                    status: "unmapped "@ + key_of(f.index as nat),
                    ..self
                }
            } else {
                self
            },
            _ => self,
        }
    }
}

impl App {
    /// Removes the path of the marked field.
    pub fn unmap_selected(&mut self)
        ensures
            final(self)@ == old(self)@.unmapped(),
    {
        let field: u16 = match self.selected_field() {
            Some(f) => f.index,
            None => {
                return;
            },
        };
        let serial = match &self.cur_serial {
            Some(s) => s.clone(),
            None => {
                return;
            },
        };
        let key = field_key(field);
        let ghost start = self@;
        let mut s = match self.mapping.take() {
            Some(s) => s,
            None => {
                return;
            },
        };
        let ghost was = s@;
        match s.map.devices.remove(serial.as_str()) {
            Some(d) => {
                let mut d = d;
                let ghost dm = d@;
                let gone = d.fields.remove(key.as_str());
                assert(d@.fields =~= dm.fields.remove(key@));
                let ghost now = d@;
                s.map.devices.insert(serial, d);
                assert(s@.map =~= was.map.insert(serial@, now));
                if gone.is_some() {
                    s.dirty = true;
                    self.status = cat("unmapped ", key.as_str());
                } else {
                    assert(now =~= dm);
                    assert(s@.map =~= was.map);
                }
            },
            None => {
                assert(s@.map =~= was.map);
            },
        }
        self.mapping = Some(s);
    }
}

// ---- saving what was edited ------------------------------------------------------------------

/// What labels mean, with what is known of labels that have no meaning yet.
pub open spec fn with_known(
    truth: Map<Seq<char>, bool>,
    labels: Seq<Seq<char>>,
    known: Seq<Option<bool>>,
) -> Map<Seq<char>, bool>
    decreases labels.len(),
{
    if labels.len() == 0 {
        truth
    } else {
        let m = with_known(truth, labels.drop_last(), known.drop_last());
        match known.last() {
            Some(b) => if m.dom().contains(labels.last()) {
                m
            } else {
                m.insert(labels.last(), b)
            },
            None => m,
        }
    }
}

fn add_known(truth: &mut StrMap<bool>, labels: &Vec<String>, known: &Vec<Option<bool>>)
    requires
        labels@.len() == known@.len(),
    ensures
        final(truth)@ == with_known(old(truth)@, views(labels@), known@),
{
    let ghost start = truth@;
    let ghost all = views(labels@);
    let mut i: usize = 0;
    assert(truth@ == with_known(start, all.take(0), known@.take(0)));
    while i < labels.len()
        invariant
            i <= labels@.len(),
            labels@.len() == known@.len(),
            all == views(labels@),
            truth@ == with_known(start, all.take(i as int), known@.take(i as int)),
        decreases labels@.len() - i,
    {
        proof {
            let (a, k) = (all.take(i as int + 1), known@.take(i as int + 1));
            assert(a.drop_last() =~= all.take(i as int));
            assert(k.drop_last() =~= known@.take(i as int));
            assert(a.last() == labels@[i as int]@);
        }
        match known[i] {
            Some(b) => {
                if !truth.contains_key(labels[i].as_str()) {
                    truth.insert(labels[i].clone(), b);
                }
            },
            None => {},
        }
        i += 1;
    }
    assert(all.take(i as int) =~= all);
    assert(known@.take(i as int) =~= known@);
}

impl AppModel {
    /// What is held of the open device, with what it said of itself.
    pub open spec fn own_device(self, path: Seq<char>) -> DeviceMappingModel {
        let s = self.mapping->0;
        let serial = self.cur_serial->0;
        let d = if s.map.dom().contains(serial) {
            s.map[serial]
        } else {
            no_device()
        };
        let e = match self.cur_info {
            Some(i) => DeviceMappingModel {
                article: i.article,
                firmware: i.firmware,
                name: i.name,
                ..d
            },
            None => d,
        };
        DeviceMappingModel {
            instance: match path_instance(path) {
                Some(used) => used,
                None => if d.instance.len() == 0 {
                    self.cur_instance
                } else {
                    d.instance
                },
            },
            ..e
        }
    }

    /// With what was edited saved, or why it is not. Labels whose meaning is not known
    /// are asked for first; the instance that the path names becomes that of the device.
    pub open spec fn map_committed(
        self,
        plan: Result<Plan, Refusal>,
        boolean_leaf: bool,
        known: Seq<Option<bool>>,
    ) -> AppModel {
        let closed = AppModel { path_editor: None, ..self };
        match (self.path_editor, self.cur_serial) {
            (None, _) => self,
            (Some(_), None) => closed,
            (Some(ed), Some(serial)) => {
                let path = trimmed(ed.buf);
                if path.len() == 0 {
                    AppModel { status: "empty path; nothing changed"@, ..closed }
                } else {
                    match plan {
                        Err(Refusal::Truth { labels, .. }) => AppModel {
                            path_editor: Some(
                                PathEditorModel {
                                    truth: with_known(ed.truth, views(labels@), known),
                                    stage: Stage::Truth(0),
                                    ..ed
                                },
                            ),
                            status: if ed.options.len() > 2 && boolean_leaf {
                                decimal(ed.options.len()) + " labels → boolean: "@
                                    + mode_leaf_for(path)
                                    + " keeps them all; else set true/false per label"@
                            } else {
                                "boolean leaf: say which labels mean true (Space toggles, Enter saves)"@
                            },
                            ..self
                        },
                        Err(Refusal::Other { message }) => AppModel {
                            status: message@ + " — not saved"@,
                            ..self
                        },
                        Ok(p) => match self.mapping {
                            None => closed,
                            Some(s) => {
                                let d = self.own_device(path);
                                let f = FieldMappingModel {
                                    path,
                                    invert: ed.invert,
                                    truth: p.truth@,
                                };
                                let key = key_of(ed.field as nat);
                                AppModel {
                                    mapping: Some(
                                        SessionModel {
                                            map: s.map.insert(
                                                serial,
                                                DeviceMappingModel {
                                                    fields: d.fields.insert(key, f),
                                                    ..d
                                                },
                                            ),
                                            dirty: true,
                                            ..s
                                        },
                                    ),
                                    status: key + " → "@ + path,
                                    ..closed
                                }
                            },
                        },
                    }
                }
            },
        }
    }
}

impl App {
    fn ask_for_truth(
        &mut self,
        ed: PathEditor,
        labels: &Vec<String>,
        boolean_leaf: bool,
        known: &Vec<Option<bool>>,
    )
        requires
            labels@.len() == known@.len(),
        ensures
            final(self)@ == (AppModel {
                path_editor: Some(
                    PathEditorModel {
                        truth: with_known(ed@.truth, views(labels@), known@),
                        stage: Stage::Truth(0),
                        ..ed@
                    },
                ),
                status: if ed@.options.len() > 2 && boolean_leaf {
                    decimal(ed@.options.len()) + " labels → boolean: "@ + mode_leaf_for(
                        trimmed(ed@.buf),
                    ) + " keeps them all; else set true/false per label"@
                } else {
                    "boolean leaf: say which labels mean true (Space toggles, Enter saves)"@
                },
                ..old(self)@
            }),
    {
        let mut ed = ed;
        assert(ed@.options.len() == ed.options@.len());
        add_known(&mut ed.truth, labels, known);
        ed.stage = Stage::Truth(0);
        self.status = if ed.lossy_boolean(boolean_leaf) {
            let mut s = cat3(
                decimal_text(ed.options.len() as u64).as_str(),
                " labels → boolean: ",
                ed.mode_leaf(),
            );
            s.append(" keeps them all; else set true/false per label");
            s
        } else {
            "boolean leaf: say which labels mean true (Space toggles, Enter saves)".to_owned()
        };
        self.path_editor = Some(ed);
    }

    fn store(
        &mut self,
        s: MappingSession,
        ed: PathEditor,
        serial: String,
        path: String,
        truth: StrMap<bool>,
    )
        requires
            old(self)@.path_editor is None,
            old(self)@.cur_serial == Some(serial@),
            old(self)@.mapping is None,
        ensures
            ({
                let full = AppModel { mapping: Some(s@), ..old(self)@ };
                let d = full.own_device(path@);
                let key = key_of(ed@.field as nat);
                let f = FieldMappingModel { path: path@, invert: ed@.invert, truth: truth@ };
                final(self)@ == (AppModel {
                    mapping: Some(
                        SessionModel {
                            map: s@.map.insert(
                                serial@,
                                DeviceMappingModel { fields: d.fields.insert(key, f), ..d },
                            ),
                            dirty: true,
                            ..s@
                        },
                    ),
                    status: key + " → "@ + path@,
                    ..old(self)@
                })
            }),
    {
        let ghost was = s@;
        let mut s = s;
        let key = field_key(ed.field);
        let mut entry = match s.map.devices.remove(serial.as_str()) {
            Some(d) => d,
            None => DeviceMapping::default(),
        };
        match &self.cur_info {
            Some(i) => {
                entry.article = i.article.clone();
                entry.firmware = i.firmware.clone();
                entry.name = i.name.clone();
            },
            None => {},
        }
        match instance_of(path.as_str()) {
            Some(used) => {
                entry.instance = used;
            },
            None => {
                if entry.instance.as_str().is_empty() {
                    entry.instance = self.cur_instance.clone();
                }
            },
        }
        let ghost d = entry@;
        self.status = cat3(key.as_str(), " → ", path.as_str());
        let f = FieldMapping { path, invert: ed.invert, truth };
        let ghost fm = f@;
        entry.fields.insert(key, f);
        assert(entry@.fields =~= d.fields.insert(key@, fm));
        let ghost e = entry@;
        s.map.devices.insert(serial, entry);
        s.dirty = true;
        assert(s@.map =~= was.map.insert(serial@, e));
        self.mapping = Some(s);
    }

    /// Saves what was edited, given what publishing under the path comes to, whether the
    /// path holds a truth value, and what is known of the labels that it asks about.
    pub fn commit_map(
        &mut self,
        plan: Result<Plan, Refusal>,
        boolean_leaf: bool,
        known: &Vec<Option<bool>>,
    )
        requires
            plan matches Err(Refusal::Truth { labels, .. }) ==> labels@.len() == known@.len(),
        ensures
            final(self)@ == old(self)@.map_committed(plan, boolean_leaf, known@),
    {
        let ed = match self.path_editor.take() {
            Some(e) => e,
            None => {
                return;
            },
        };
        let path = trim(ed.buf.as_str()).to_owned();
        let serial = match &self.cur_serial {
            Some(s) => s.clone(),
            None => {
                return;
            },
        };
        if path.as_str().is_empty() {
            self.status = "empty path; nothing changed".to_owned();
            return;
        }
        match plan {
            Err(Refusal::Truth { labels, .. }) => {
                self.ask_for_truth(ed, &labels, boolean_leaf, known);
            },
            Err(Refusal::Other { message }) => {
                self.status = cat(message.as_str(), " — not saved");
                self.path_editor = Some(ed);
            },
            Ok(p) => match self.mapping.take() {
                Some(s) => {
                    self.store(s, ed, serial, path, p.truth);
                },
                None => {},
            },
        }
    }
}

// ---- what labels mean --------------------------------------------------------------------------

/// An editor after the mark among the labels was moved; the labels are a ring.
pub open spec fn truth_moved(ed: PathEditorModel, delta: int) -> PathEditorModel {
    match ed.stage {
        Stage::Truth(i) => if ed.options.len() > 0 {
            PathEditorModel {
                stage: Stage::Truth(((i + delta) % (ed.options.len() as int)) as usize),
                ..ed
            }
        } else {
            ed
        },
        Stage::Path => ed,
    }
}

/// The label that is marked.
pub open spec fn marked_label(ed: PathEditorModel) -> Option<Seq<char>> {
    match ed.stage {
        Stage::Truth(i) => if i < ed.options.len() {
            Some(ed.options[i as int])
        } else {
            None
        },
        Stage::Path => None,
    }
}

/// An editor after the meaning of the marked label was set.
pub open spec fn truth_given(ed: PathEditorModel, value: bool) -> PathEditorModel {
    match marked_label(ed) {
        Some(l) => PathEditorModel { truth: ed.truth.insert(l, value), ..ed },
        None => ed,
    }
}

/// What the marked label means after it was turned round: a label without a meaning
/// means true.
pub open spec fn toggled(ed: PathEditorModel) -> bool {
    match marked_label(ed) {
        Some(l) => !(ed.truth.dom().contains(l) && ed.truth[l]),
        None => false,
    }
}

/// An editor after what it publishes was turned round: the meanings of the labels, where
/// they count, and otherwise the value itself.
pub open spec fn turned_round(
    ed: PathEditorModel,
    plan: Result<Plan, Refusal>,
    boolean_leaf: bool,
    known: Seq<Option<bool>>,
) -> PathEditorModel {
    if ed.options.len() == 0 || !boolean_leaf {
        PathEditorModel { invert: !ed.invert, ..ed }
    } else {
        let table = if plan matches Ok(p) && p.truth.keys().len() > 0 {
            plan->Ok_0.truth@
        } else {
            with_known(ed.truth, ed.options, known)
        };
        PathEditorModel { truth: table.map_values(|b: bool| !b), invert: false, ..ed }
    }
}

impl AppModel {
    /// With another editor of paths in the place of the one that is open.
    pub open spec fn with_editor(
        self,
        change: spec_fn(PathEditorModel) -> PathEditorModel,
    ) -> AppModel {
        match self.path_editor {
            Some(e) => AppModel { path_editor: Some(change(e)), ..self },
            None => self,
        }
    }

    /// Whether every label has a meaning.
    pub open spec fn truth_known(self) -> bool {
        self.path_editor matches Some(ed) && forall|i: int|
            0 <= i < ed.options.len() ==> ed.truth.dom().contains(#[trigger] ed.options[i])
    }
}

impl App {
    /// Whether the meaning of labels is being edited.
    pub fn truth_editing(&self) -> (r: bool)
        ensures
            r == (self@.path_editor matches Some(ed) && ed.stage is Truth),
    {
        match &self.path_editor {
            Some(ed) => match ed.stage {
                Stage::Truth(_) => true,
                Stage::Path => false,
            },
            None => false,
        }
    }

    /// Moves the mark among the labels.
    pub fn truth_move(&mut self, delta: i32)
        ensures
            final(self)@ == old(self)@.with_editor(
                |e: PathEditorModel| truth_moved(e, delta as int),
            ),
    {
        let mut ed = match self.path_editor.take() {
            Some(e) => e,
            None => {
                return;
            },
        };
        assert(ed@.options.len() == ed.options@.len());
        match ed.stage {
            Stage::Truth(i) => {
                let n: usize = ed.options.len();
                if n > 0 {
                    ed.stage = Stage::Truth(wrapped(i, delta, n));
                }
            },
            Stage::Path => {},
        }
        self.path_editor = Some(ed);
    }

    /// Turns the meaning of the marked label round.
    pub fn truth_toggle(&mut self)
        ensures
            final(self)@ == old(self)@.with_editor(
                |e: PathEditorModel| truth_given(e, toggled(e)),
            ),
    {
        let mut ed = match self.path_editor.take() {
            Some(e) => e,
            None => {
                return;
            },
        };
        assert(ed@.options.len() == ed.options@.len());
        match ed.stage {
            Stage::Truth(i) => {
                if i < ed.options.len() {
                    let label = ed.options[i].clone();
                    assert(ed@.options[i as int] == label@);
                    let on: bool = match ed.truth.get(label.as_str()) {
                        Some(b) => *b,
                        None => false,
                    };
                    ed.truth.insert(label, !on);
                }
            },
            Stage::Path => {},
        }
        self.path_editor = Some(ed);
    }

    /// Sets the meaning of the marked label.
    pub fn truth_set(&mut self, value: bool)
        ensures
            final(self)@ == old(self)@.with_editor(|e: PathEditorModel| truth_given(e, value)),
    {
        let mut ed = match self.path_editor.take() {
            Some(e) => e,
            None => {
                return;
            },
        };
        assert(ed@.options.len() == ed.options@.len());
        match ed.stage {
            Stage::Truth(i) => {
                if i < ed.options.len() {
                    let label = ed.options[i].clone();
                    assert(ed@.options[i as int] == label@);
                    ed.truth.insert(label, value);
                }
            },
            Stage::Path => {},
        }
        self.path_editor = Some(ed);
    }

    /// Goes back from the labels to the path.
    pub fn truth_back(&mut self)
        ensures
            final(self)@ == old(self)@.with_editor(
                |e: PathEditorModel| PathEditorModel { stage: Stage::Path, ..e },
            ),
    {
        let mut ed = match self.path_editor.take() {
            Some(e) => e,
            None => {
                return;
            },
        };
        ed.stage = Stage::Path;
        self.path_editor = Some(ed);
    }

    /// Saves what was edited, once every label has a meaning.
    pub fn commit_truth(
        &mut self,
        plan: Result<Plan, Refusal>,
        boolean_leaf: bool,
        known: &Vec<Option<bool>>,
    )
        requires
            plan matches Err(Refusal::Truth { labels, .. }) ==> labels@.len() == known@.len(),
        ensures
            final(self)@ == if old(self)@.path_editor is None {
                old(self)@
            } else if old(self)@.truth_known() {
                old(self)@.map_committed(plan, boolean_leaf, known@)
            } else {
                AppModel {
                    status: "every label needs true or false before saving"@,
                    ..old(self)@
                }
            },
    {
        let complete: bool = match &self.path_editor {
            Some(ed) => {
                let r: bool = ed.truth_complete();
                proof {
                    let m = ed@;
                    assert(m.options.len() == ed.options@.len());
                    assert(forall|i: int|
                        0 <= i < m.options.len() ==> #[trigger] m.options[i] == ed.options@[i]@);
                    if r {
                        assert forall|i: int| 0 <= i < m.options.len() implies m.truth.dom().contains(
                            #[trigger] m.options[i],
                        ) by {
                            assert(ed.truth@.dom().contains(ed.options@[i]@));
                        }
                    } else {
                        let i = choose|i: int|
                            0 <= i < ed.options@.len() && !ed.truth@.dom().contains(
                                (#[trigger] ed.options@[i])@,
                            );
                        assert(!m.truth.dom().contains(m.options[i]));
                    }
                }
                r
            },
            None => {
                return;
            },
        };
        if !complete {
            self.status = "every label needs true or false before saving".to_owned();
            return;
        }
        self.commit_map(plan, boolean_leaf, known);
    }

    pub fn cancel_map(&mut self)
        ensures
            final(self)@ == (AppModel { path_editor: None, ..old(self)@ }),
    {
        self.path_editor = None;
    }

    /// A character was typed into the path.
    pub fn map_editor_char(&mut self, c: char)
        ensures
            final(self)@ == old(self)@.with_editor(
                |e: PathEditorModel| PathEditorModel { buf: e.buf.push(c), ..e },
            ),
    {
        let mut ed = match self.path_editor.take() {
            Some(e) => e,
            None => {
                return;
            },
        };
        ed.buf.push(c);
        self.path_editor = Some(ed);
    }

    /// The last character of the path is taken back.
    pub fn map_editor_backspace(&mut self)
        ensures
            final(self)@ == old(self)@.with_editor(
                |e: PathEditorModel| PathEditorModel { buf: shortened(e.buf), ..e },
            ),
    {
        let mut ed = match self.path_editor.take() {
            Some(e) => e,
            None => {
                return;
            },
        };
        ed.buf.pop();
        self.path_editor = Some(ed);
    }

    /// Turns round what is published, given what publishing under the path comes to,
    /// whether the path holds a truth value, and what is known of the labels of the field.
    pub fn map_editor_toggle_invert(
        &mut self,
        plan: Result<Plan, Refusal>,
        boolean_leaf: bool,
        known: &Vec<Option<bool>>,
    )
        requires
            old(self)@.path_editor matches Some(ed) ==> ed.options.len() == known@.len(),
        ensures
            final(self)@ == old(self)@.with_editor(
                |e: PathEditorModel| turned_round(e, plan, boolean_leaf, known@),
            ),
    {
        let mut ed = match self.path_editor.take() {
            Some(e) => e,
            None => {
                return;
            },
        };
        let ghost was = ed@;
        assert(was.options.len() == ed.options@.len());
        if ed.options.len() == 0 || !boolean_leaf {
            ed.invert = !ed.invert;
            self.path_editor = Some(ed);
            return;
        }
        let given: Option<StrMap<bool>> = match &plan {
            Ok(p) => {
                if !p.truth.is_empty() {
                    Some(p.truth.copied())
                } else {
                    None
                }
            },
            Err(_) => None,
        };
        match given {
            Some(t) => {
                ed.truth = t;
            },
            None => {
                add_known(&mut ed.truth, &ed.options, known);
            },
        }
        ed.truth = ed.truth.negated();
        ed.invert = false;
        self.path_editor = Some(ed);
    }

    /// Whether turning round what is published would turn the meanings of labels round.
    pub fn flips_truth(&self, boolean_leaf: bool) -> (r: bool)
        ensures
            r == (self@.path_editor matches Some(ed) && ed.options.len() > 0 && boolean_leaf),
    {
        match &self.path_editor {
            Some(ed) => {
                assert(ed@.options.len() == ed.options@.len());
                ed.options.len() > 0 && boolean_leaf
            },
            None => false,
        }
    }
}

// ---- other devices of the same kind -------------------------------------------------------------

impl AppModel {
    /// Whether what is mapped of the open device can be copied to a device: it is of the
    /// same article, and its serial number is known and another one.
    pub open spec fn is_target(self, article: Seq<char>, id: u32) -> bool {
        &&& self.idents.dom().contains(id)
        &&& self.idents[id].article == article
        &&& self.cur_serial != Some(self.idents[id].serial)
        &&& self.idents[id].serial.len() > 0
    }

    /// The devices of an article that what is mapped can be copied to.
    pub open spec fn target_ids(self, article: Seq<char>, ids: Seq<u32>) -> Seq<u32>
        decreases ids.len(),
    {
        if ids.len() == 0 {
            ids
        } else {
            let head = self.target_ids(article, ids.drop_last());
            if self.is_target(article, ids.last()) {
                head.push(ids.last())
            } else {
                head
            }
        }
    }

    /// What is known of the devices that what is mapped can be copied to.
    pub open spec fn targets(self, ids: Seq<u32>, have: Seq<Seq<u16>>) -> Seq<TargetModel> {
        Seq::new(
            ids.len(),
            |i: int|
                TargetModel {
                    serial: self.idents[ids[i]].serial,
                    article: self.idents[ids[i]].article,
                    firmware: self.idents[ids[i]].firmware,
                    name: self.idents[ids[i]].name,
                    instance: device_instance(self.idents[ids[i]].name, ids[i] as nat),
                    have: have[i],
                },
        )
    }

    /// What is mapped of the open device.
    pub open spec fn source(self) -> Option<DeviceMappingModel> {
        match (self.mapping, self.cur_serial) {
            (Some(s), Some(serial)) => if s.map.dom().contains(serial) {
                Some(s.map[serial])
            } else {
                None
            },
            _ => None,
        }
    }

    /// The devices that have to be asked for their fields before copying.
    pub open spec fn copy_ids(self) -> Seq<u32> {
        match self.source() {
            Some(src) => if src.article.len() > 0 {
                self.target_ids(src.article, self.device_ids)
            } else {
                Seq::empty()
            },
            None => Seq::empty(),
        }
    }

    /// With what is mapped of the open device copied to all others of its article.
    pub open spec fn applied_to_article(self, have: Seq<Seq<u16>>) -> AppModel {
        if self.cur_serial is None {
            self
        } else {
            match self.source() {
                None => AppModel {
                    status: "map at least one field on this device first"@,
                    ..self
                },
                Some(src) => if src.article.len() == 0 {
                    AppModel {
                        status: "this device reports no article number to match on"@,
                        ..self
                    }
                } else if self.copy_ids().len() == 0 {
                    AppModel {
                        status: "no other device with article "@ + src.article,
                        ..self
                    }
                } else {
                    let s = self.mapping->0;
                    let ts = self.targets(self.copy_ids(), have);
                    let copied = copied_count(s.map, src, ts);
                    let skipped = (ts.len() * src.fields.dom().len() - copied) as nat;
                    AppModel {
                        mapping: Some(
                            SessionModel { map: copied_to_all(s.map, src, ts), dirty: true, ..s },
                        ),
                        status: "copied "@ + decimal(copied)
                            + " mapping(s) to devices with article "@ + src.article + (if skipped
                            > 0 {
                            "; "@ + decimal(skipped) + " field(s) absent on some targets"@
                        } else {
                            ""@
                        }),
                        ..self
                    }
                },
            }
        }
    }
}

/// The fields of devices.
pub open spec fn have_models(have: Seq<Vec<u16>>) -> Seq<Seq<u16>> {
    have.map_values(|h: Vec<u16>| h@)
}

fn copied_numbers(v: &Vec<u16>) -> (r: Vec<u16>)
    ensures
        r@ == v@,
{
    let mut r: Vec<u16> = Vec::new();
    let mut i: usize = 0;
    while i < v.len()
        invariant
            i <= v@.len(),
            r@ =~= v@.take(i as int),
        decreases v@.len() - i,
    {
        r.push(v[i]);
        i += 1;
    }
    assert(r@ =~= v@);
    r
}

impl App {
    fn own_source(&self) -> (r: Option<DeviceMapping>)
        ensures
            held(r) == self@.source(),
    {
        match (&self.mapping, &self.cur_serial) {
            (Some(s), Some(serial)) => match s.map.devices.get(serial.as_str()) {
                Some(d) => Some(d.copied()),
                None => None,
            },
            _ => None,
        }
    }

    fn can_copy_to(&self, article: &str, id: u32) -> (r: bool)
        ensures
            r == self@.is_target(article@, id),
    {
        match self.idents.get(&id) {
            Some(i) => {
                let own: bool = match &self.cur_serial {
                    Some(s) => same(s.as_str(), i.serial.as_str()),
                    None => false,
                };
                same(i.article.as_str(), article) && !own && !i.serial.as_str().is_empty()
            },
            None => false,
        }
    }

    fn ids_of_article(&self, article: &str) -> (out: Vec<u32>)
        ensures
            out@ == self@.target_ids(article@, self@.device_ids),
    {
        let ghost ids = self@.device_ids;
        let mut out: Vec<u32> = Vec::new();
        let mut i: usize = 0;
        assert(out@ =~= self@.target_ids(article@, ids.take(0)));
        while i < self.device_ids.len()
            invariant
                i <= self.device_ids@.len(),
                ids == self.device_ids@,
                out@ == self@.target_ids(article@, ids.take(i as int)),
            decreases self.device_ids@.len() - i,
        {
            let id: u32 = self.device_ids[i];
            proof {
                let next = ids.take(i as int + 1);
                assert(next.drop_last() =~= ids.take(i as int));
                assert(next.last() == id);
            }
            if self.can_copy_to(article, id) {
                out.push(id);
            }
            i += 1;
        }
        assert(ids.take(i as int) =~= ids);
        out
    }

    /// The devices that have to be asked for their fields before copying.
    pub fn article_devices(&self) -> (out: Vec<u32>)
        ensures
            out@ == self@.copy_ids(),
    {
        match self.own_source() {
            Some(src) => {
                if src.article.as_str().is_empty() {
                    Vec::new()
                } else {
                    self.ids_of_article(src.article.as_str())
                }
            },
            None => Vec::new(),
        }
    }

    fn target_list(&self, ids: &Vec<u32>, have: &Vec<Vec<u16>>) -> (ts: Vec<CopyTarget>)
        requires
            ids@.len() == have@.len(),
            forall|i: int| 0 <= i < ids@.len() ==> self@.idents.dom().contains(#[trigger] ids@[i]),
        ensures
            targets_of(ts@) == self@.targets(ids@, have_models(have@)),
    {
        let ghost all = self@.targets(ids@, have_models(have@));
        let mut ts: Vec<CopyTarget> = Vec::new();
        let mut i: usize = 0;
        assert(targets_of(ts@) =~= all.take(0));
        while i < ids.len()
            invariant
                i <= ids@.len(),
                ids@.len() == have@.len(),
                forall|k: int|
                    0 <= k < ids@.len() ==> self@.idents.dom().contains(#[trigger] ids@[k]),
                all == self@.targets(ids@, have_models(have@)),
                targets_of(ts@) == all.take(i as int),
            decreases ids@.len() - i,
        {
            let id: u32 = ids[i];
            let ghost before = targets_of(ts@);
            assert(self@.idents.dom().contains(ids@[i as int]));
            match self.idents.get(&id) {
                Some(ident) => {
                    let t = CopyTarget {
                        serial: ident.serial.clone(),
                        article: ident.article.clone(),
                        firmware: ident.firmware.clone(),
                        name: ident.name.clone(),
                        instance: crate::slug::instance_of(ident.name.as_str(), id),
                        have: copied_numbers(&have[i]),
                    };
                    let ghost v = t@;
                    assert(have_models(have@)[i as int] == have@[i as int]@);
                    assert(v == all[i as int]);
                    ts.push(t);
                    assert(targets_of(ts@) =~= before.push(v));
                    assert(all.take(i as int + 1) =~= all.take(i as int).push(all[i as int]));
                },
                None => {},
            }
            i += 1;
        }
        assert(all.take(i as int) =~= all);
        ts
    }

    /// Copies what is mapped of the open device to all others of its article, given the
    /// fields that each of them has.
    pub fn apply_to_article(&mut self, have: &Vec<Vec<u16>>)
        requires
            have@.len() == old(self)@.copy_ids().len(),
            old(self)@.source() matches Some(src) ==> have@.len() * src.fields.dom().len()
                <= usize::MAX,
        ensures
            final(self)@ == old(self)@.applied_to_article(have_models(have@)),
    {
        if self.cur_serial.is_none() {
            return;
        }
        let src = match self.own_source() {
            Some(d) => d,
            None => {
                self.status = "map at least one field on this device first".to_owned();
                return;
            },
        };
        if src.article.as_str().is_empty() {
            self.status = "this device reports no article number to match on".to_owned();
            return;
        }
        let ids = self.ids_of_article(src.article.as_str());
        if ids.len() == 0 {
            self.status = cat("no other device with article ", src.article.as_str());
            return;
        }
        proof {
            lemma_targets_known(self@, src@.article, self@.device_ids);
        }
        let ts = self.target_list(&ids, have);
        let n: usize = src.fields.len();
        assert(src@.fields.dom() =~= src.fields@.dom());
        let ghost start = self@;
        match self.mapping.take() {
            Some(s) => {
                let mut s = s;
                assert(targets_of(ts@).len() == ts@.len());
                let (copied, skipped) = copy_to_targets(&mut s.map, &src, &ts);
                s.dirty = true;
                let mut status = cat3(
                    "copied ",
                    decimal_text(copied as u64).as_str(),
                    " mapping(s) to devices with article ",
                );
                status.append(src.article.as_str());
                if skipped > 0 {
                    let tail = cat3(
                        "; ",
                        decimal_text(skipped as u64).as_str(),
                        " field(s) absent on some targets",
                    );
                    let ghost head = status@;
                    status.append(tail.as_str());
                    assert(status@ =~= head + ("; "@ + decimal(skipped as nat)
                        + " field(s) absent on some targets"@));
                } else {
                    proof {
                        reveal_strlit("");
                        assert(status@ =~= status@ + ""@);
                    }
                }
                self.status = status;
                self.mapping = Some(s);
            },
            None => {},
        }
    }

    /// The mapping file was written, or could not be.
    pub fn save_mapping(&mut self, result: Result<(), String>)
        requires
            old(self).mapping matches Some(s) ==> fields_in(s.map.devices.values()) <= usize::MAX,
        ensures
            match old(self)@.mapping {
                None => final(self)@ == old(self)@,
                Some(s) => match result {
                    Ok(()) => final(self)@ == (AppModel {
                        mapping: Some(SessionModel { dirty: false, ..s }),
                        status: "wrote "@ + s.path + " ("@ + decimal(
                            fields_in(old(self).mapping->0.map.devices.values()),
                        ) + " field(s))"@,
                        ..old(self)@
                    }),
                    Err(e) => final(self)@ == (AppModel {
                        status: "could not write "@ + s.path + ": "@ + e@,
                        ..old(self)@
                    }),
                },
            },
    {
        match self.mapping.take() {
            Some(s) => {
                let mut s = s;
                match result {
                    Ok(()) => {
                        s.dirty = false;
                        let n: usize = s.map.len();
                        let mut status = cat3("wrote ", s.path.as_str(), " (");
                        status.append(decimal_text(n as u64).as_str());
                        status.append(" field(s))");
                        self.status = status;
                    },
                    Err(e) => {
                        let mut status = cat3("could not write ", s.path.as_str(), ": ");
                        status.append(e.as_str());
                        self.status = status;
                    },
                }
                self.mapping = Some(s);
            },
            None => {},
        }
    }

    /// Quits, but refuses once while there are changes that are not written.
    pub fn quit_checked(&mut self)
        ensures
            final(self)@ == old(self)@.quit_asked(),
    {
        match self.mapping.take() {
            Some(s) => {
                let mut s = s;
                if s.dirty && !s.quit_armed {
                    s.quit_armed = true;
                    self.mapping = Some(s);
                    self.status =
                        "unsaved mapping changes — w to write, q again to discard".to_owned();
                    return;
                }
                self.mapping = Some(s);
            },
            None => {},
        }
        self.should_quit = true;
    }
}

proof fn lemma_targets_known(m: AppModel, article: Seq<char>, ids: Seq<u32>)
    ensures
        forall|i: int|
            0 <= i < m.target_ids(article, ids).len() ==> m.is_target(
                article,
                #[trigger] m.target_ids(article, ids)[i],
            ),
    decreases ids.len(),
{
    if ids.len() > 0 {
        lemma_targets_known(m, article, ids.drop_last());
        let (all, head) = (
            m.target_ids(article, ids),
            m.target_ids(article, ids.drop_last()),
        );
        assert forall|i: int| 0 <= i < all.len() implies m.is_target(
            article,
            #[trigger] all[i],
        ) by {
            if i < head.len() {
                assert(all[i] == head[i]);
            }
        }
    }
}

impl AppModel {
    /// With quitting asked for.
    pub open spec fn quit_asked(self) -> AppModel {
        match self.mapping {
            Some(s) => if s.dirty && !s.quit_armed {
                AppModel {
                    mapping: Some(SessionModel { quit_armed: true, ..s }),
                    status: "unsaved mapping changes — w to write, q again to discard"@,
                    ..self
                }
            } else {
                AppModel { should_quit: true, ..self }
            },
            None => AppModel { should_quit: true, ..self },
        }
    }
}

// ---- laws ----------------------------------------------------------------------------------------

/// Quitting is refused once at most: asking twice quits.
pub proof fn law_quitting_twice_quits(m: AppModel)
    ensures
        m.quit_asked().quit_asked().should_quit,
        m.mapping is None ==> m.quit_asked().should_quit,
        m.mapping matches Some(s) ==> !s.dirty ==> m.quit_asked().should_quit,
        m.mapping matches Some(s) ==> s.dirty && !s.quit_armed && !m.should_quit
            ==> !m.quit_asked().should_quit,
{
}

/// Devices that are not open keep their entries when a path is saved or removed.
pub proof fn law_other_devices_keep_their_entries(
    m: AppModel,
    plan: Result<Plan, Refusal>,
    boolean_leaf: bool,
    known: Seq<Option<bool>>,
    serial: Seq<char>,
)
    requires
        m.mapping is Some,
        m.mapping->0.map.dom().contains(serial),
        m.cur_serial != Some(serial),
    ensures
        ({
            let a = m.map_committed(plan, boolean_leaf, known).mapping->0.map;
            let b = m.unmapped().mapping->0.map;
            &&& a.dom().contains(serial) && a[serial] == m.mapping->0.map[serial]
            &&& b.dom().contains(serial) && b[serial] == m.mapping->0.map[serial]
        }),
{
}

/// The serial number of the open device is what that device said of itself, never that of a
/// device that was open before; while it has said none, no path is saved.
pub proof fn law_serial_is_of_the_open_device(
    m: AppModel,
    identity: Option<IdentityModel>,
    access: Option<AccessLevel>,
    plan: Result<Plan, Refusal>,
    boolean_leaf: bool,
    known: Seq<Option<bool>>,
)
    requires
        m.dev_sel < m.device_ids.len(),
    ensures
        ({
            let a = m.opened().summarized(identity, access);
            &&& a.cur_serial == match identity {
                Some(i) => if i.serial.len() > 0 {
                    Some(i.serial)
                } else {
                    None
                },
                None => None,
            }
            &&& a.cur_instance == match identity {
                Some(i) => device_instance(i.name, m.device_ids[m.dev_sel] as nat),
                None => Seq::empty(),
            }
        }),
        m.cur_serial is None ==> m.map_committed(plan, boolean_leaf, known).mapping == m.mapping,
        m.cur_serial is None ==> m.unmapped().mapping == m.mapping,
{
}

/// A path that was saved is the one that the field has then, and removing it leaves the
/// field without one.
pub proof fn law_saved_path_is_found(
    m: AppModel,
    plan: Result<Plan, Refusal>,
    boolean_leaf: bool,
    known: Seq<Option<bool>>,
)
    requires
        m.mapping is Some,
        m.cur_serial is Some,
        m.path_editor matches Some(ed) && trimmed(ed.buf).len() > 0,
        plan is Ok,
    ensures
        ({
            let ed = m.path_editor->0;
            let now = m.map_committed(plan, boolean_leaf, known);
            &&& now.mapped_field(ed.field) == Some(
                FieldMappingModel {
                    path: trimmed(ed.buf),
                    invert: ed.invert,
                    truth: plan->Ok_0.truth@,
                },
            )
            &&& now.mapping->0.dirty
            &&& now.selected() matches Some(f) ==> f.index == ed.field
                ==> now.unmapped().mapped_field(ed.field) is None
        }),
{
}

/// Turning what is published round twice changes nothing: neither the value itself, nor
/// the meanings of labels, where the second plan takes over those of the first.
pub proof fn law_turning_round_twice(
    ed: PathEditorModel,
    first: Plan,
    second: Plan,
    boolean_leaf: bool,
    known: Seq<Option<bool>>,
)
    requires
        ed.options.len() > 0 && boolean_leaf ==> {
            &&& first.truth.keys().len() > 0 && second.truth.keys().len() > 0
            &&& second.truth@ == turned_round(ed, Ok(first), boolean_leaf, known).truth
        },
    ensures
        ({
            let once = turned_round(ed, Ok(first), boolean_leaf, known);
            let twice = turned_round(once, Ok(second), boolean_leaf, known);
            if ed.options.len() > 0 && boolean_leaf {
                twice.truth == first.truth@ && !twice.invert
            } else {
                twice == ed
            }
        }),
{
    let t = first.truth@;
    assert(t.map_values(|b: bool| !b).map_values(|b: bool| !b) =~= t);
}

} // verus!
