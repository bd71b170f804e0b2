//! Editing where a field goes, and copying what was chosen for one device to others
//! of its kind.

use vstd::prelude::*;

use crate::mapping::{
    key_value, no_device, parse_field_key, DeviceMapping, DeviceMappingModel, FieldMapping,
    FieldMappingModel, Mapping,
};
use crate::publication::truth;
use crate::signalk::{instance_of, path_instance, Plan, Refusal};
use crate::strmap::{before, lemma_before_irreflexive, ordered, StrMap};
use crate::text::{
    cat, cat3, decimal, decimal_text, join, join_with, lacks, lemma_join_split, lemma_split_join,
    lemma_split_parts, push_text, same, split, split_on, starts, starts_with, trim, trimmed, views,
};

verus! {

/// What a suggested path rests on.
#[derive(Debug, Clone, Copy, PartialEq, Eq, Structural)]
pub enum Tier {
    /// The fields of the model of the device.
    Model,
    /// The name of the field, for the class of the device.
    Class,
}

/// Where the path that an editor starts with came from.
#[derive(Debug, Clone, Copy, PartialEq, Eq, Structural)]
pub enum Origin {
    Existing,
    Suggested(Tier),
    Blank,
}

/// Which part of a mapping is being edited.
#[derive(Debug, Clone, Copy, PartialEq, Eq, Structural)]
pub enum Stage {
    Path,
    /// What a label means, by its place among the labels.
    Truth(usize),
}

/// Where one field goes, while it is being edited.
pub struct PathEditor {
    pub field: u16,
    pub field_name: String,
    pub unit: String,
    /// The labels of the field.
    pub options: Vec<String>,
    /// The path as typed.
    pub buf: String,
    pub invert: bool,
    pub truth: StrMap<bool>,
    pub origin: Origin,
    pub stage: Stage,
}

/// What is said of the path as typed.
#[derive(Debug, PartialEq, Eq)]
pub enum Hint {
    /// Nothing speaks against it.
    Fine(String),
    Warn(String),
    Refuse(String),
}

/// What a hint says.
pub enum HintModel {
    Fine(Seq<char>),
    Warn(Seq<char>),
    Refuse(Seq<char>),
}

impl View for Hint {
    type V = HintModel;

    open spec fn view(&self) -> HintModel {
        match self {
            Hint::Fine(s) => HintModel::Fine(s@),
            Hint::Warn(s) => HintModel::Warn(s@),
            Hint::Refuse(s) => HintModel::Refuse(s@),
        }
    }
}

/// What has to be known to plan the publication of a field.
pub struct PlanRequest {
    pub path: String,
    pub unit: String,
    pub options: Vec<String>,
    pub entry: FieldMapping,
}

/// What labels mean, in words.
pub open spec fn table_words(keys: Seq<Seq<char>>, values: Seq<bool>) -> Seq<Seq<char>> {
    Seq::new(keys.len(), |i: int| keys[i] + "→"@ + truth(values[i]))
}

/// Where the state of a device of a category goes as a whole.
pub open spec fn mode_leaf_for(path: Seq<char>) -> Seq<char> {
    if starts(path, "electrical.inverters."@) {
        "inverterMode"@
    } else if starts(path, "electrical.chargers."@) || starts(path, "electrical.solar."@) {
        "chargingMode"@
    } else {
        "a mode leaf"@
    }
}

fn table_text(truth_of: &StrMap<bool>) -> (r: String)
    ensures
        r@ == join(table_words(truth_of.keys(), truth_of.values()), ", "@),
{
    let n: usize = truth_of.len();
    let ghost all = table_words(truth_of.keys(), truth_of.values());
    let mut parts: Vec<String> = Vec::new();
    let mut i: usize = 0;
    while i < n
        invariant
            i <= n,
            n == truth_of.keys().len(),
            truth_of.well_formed(),
            all == table_words(truth_of.keys(), truth_of.values()),
            views(parts@) =~= all.take(i as int),
        decreases n - i,
    {
        let yes: bool = *truth_of.value_at(i);
        let s = cat3(truth_of.key_at(i).as_str(), "→", if yes { "true" } else { "false" });
        assert(s@ == all[i as int]);
        push_text(&mut parts, s);
        assert(all.take(i as int + 1) =~= all.take(i as int).push(all[i as int]));
        i += 1;
    }
    assert(all.take(n as int) =~= all);
    join_with(&parts, ", ")
}

impl PathEditor {
    /// What holds of every editor that is in use: the place among the labels is one.
    pub open spec fn well_formed(self) -> bool {
        self.stage matches Stage::Truth(i) ==> i < self.options@.len() || self.options@.len() == 0
    }

    /// Whether more than two labels would have to become one of two values.
    pub open spec fn is_lossy(self, boolean_leaf: bool) -> bool {
        self.options@.len() > 2 && boolean_leaf
    }

    /// What is said of the path, given what publishing under it comes to and whether
    /// it holds a truth value.
    pub open spec fn hint_for(self, plan: Result<Plan, Refusal>, boolean_leaf: bool) -> HintModel {
        let lossy = decimal(self.options@.len()) + " labels → boolean loses info; use "@
            + mode_leaf_for(trimmed(self.buf@)) + " (string), or Enter for a truth table"@;
        match plan {
            Err(e) => if e is Truth && self.is_lossy(boolean_leaf) {
                HintModel::Warn(lossy)
            } else {
                HintModel::Refuse(e.words())
            },
            Ok(p) => if self.is_lossy(boolean_leaf) {
                HintModel::Warn(lossy)
            } else if p.truth.keys().len() > 0 {
                HintModel::Fine(
                    "boolean: "@ + join(table_words(p.truth.keys(), p.truth.values()), ", "@),
                )
            } else {
                match (p.unit, p.warning) {
                    (_, Some(w)) => HintModel::Warn(w@),
                    (None, None) => HintModel::Fine("no unit: published as-is"@),
                    (Some(u), None) => HintModel::Fine("→ "@ + u@ + " ("@ + p.conversion@ + ")"@),
                }
            },
        }
    }

    /// The mapping as it stands in the editor.
    pub fn entry(&self) -> (f: FieldMapping)
        ensures
            f@ == (FieldMappingModel {
                path: trimmed(self.buf@),
                invert: self.invert,
                truth: self.truth@,
            }),
    {
        FieldMapping {
            path: trim(self.buf.as_str()).to_owned(),
            invert: self.invert,
            truth: self.truth.copied(),
        }
    }

    /// What is asked of the planner: the path but for white space around it, the unit
    /// and the labels of the field, and the mapping as it stands.
    pub fn plan(&self) -> (r: PlanRequest)
        ensures
            r.path@ == trimmed(self.buf@),
            r.unit@ == self.unit@,
            views(r.options@) == views(self.options@),
            r.entry@ == (FieldMappingModel {
                path: trimmed(self.buf@),
                invert: self.invert,
                truth: self.truth@,
            }),
    {
        PlanRequest {
            path: trim(self.buf.as_str()).to_owned(),
            unit: self.unit.clone(),
            options: copied_strings(&self.options),
            entry: self.entry(),
        }
    }

    /// What is said of the path as typed.
    pub fn hint(&self, plan: &Result<Plan, Refusal>, boolean_leaf: bool) -> (h: Hint)
        ensures
            h@ == self.hint_for(*plan, boolean_leaf),
    {
        let lossy: bool = self.lossy_boolean(boolean_leaf);
        match plan {
            Err(e) => {
                let by_truth: bool = match e {
                    Refusal::Truth { .. } => true,
                    Refusal::Other { .. } => false,
                };
                if by_truth && lossy {
                    Hint::Warn(self.lossy_text())
                } else {
                    Hint::Refuse(e.message().clone())
                }
            },
            Ok(p) => {
                if lossy {
                    Hint::Warn(self.lossy_text())
                } else if !p.truth.is_empty() {
                    Hint::Fine(cat("boolean: ", table_text(&p.truth).as_str()))
                } else {
                    match (&p.unit, &p.warning) {
                        (_, Some(w)) => Hint::Warn(w.clone()),
                        (None, None) => Hint::Fine("no unit: published as-is".to_owned()),
                        (Some(u), None) => {
                            let mut s = cat3("→ ", u.as_str(), " (");
                            s.append(p.conversion.as_str());
                            s.append(")");
                            Hint::Fine(s)
                        },
                    }
                }
            },
        }
    }

    fn lossy_text(&self) -> (s: String)
        ensures
            s@ == decimal(self.options@.len()) + " labels → boolean loses info; use "@
                + mode_leaf_for(trimmed(self.buf@)) + " (string), or Enter for a truth table"@,
    {
        let mut s = decimal_text(self.options.len() as u64);
        s.append(" labels → boolean loses info; use ");
        s.append(self.mode_leaf());
        s.append(" (string), or Enter for a truth table");
        s
    }

    /// Whether more than two labels would have to become one of two values.
    pub fn lossy_boolean(&self, boolean_leaf: bool) -> (r: bool)
        ensures
            r == self.is_lossy(boolean_leaf),
    {
        self.options.len() > 2 && boolean_leaf
    }

    /// Where the state of the device goes as a whole.
    pub fn mode_leaf(&self) -> (s: &'static str)
        ensures
            s@ == mode_leaf_for(trimmed(self.buf@)),
    {
        let p = trim(self.buf.as_str());
        if starts_with(p, "electrical.inverters.") {
            "inverterMode"
        } else if starts_with(p, "electrical.chargers.") || starts_with(p, "electrical.solar.") {
            "chargingMode"
        } else {
            "a mode leaf"
        }
    }

    /// Whether every label has a meaning.
    pub open spec fn complete(self) -> bool {
        forall|i: int|
            0 <= i < self.options@.len() ==> self.truth@.dom().contains(
                (#[trigger] self.options@[i])@,
            )
    }

    /// Whether every label has a meaning.
    pub fn truth_complete(&self) -> (r: bool)
        ensures
            r == self.complete(),
    {
        let mut i: usize = 0;
        while i < self.options.len()
            invariant
                i <= self.options@.len(),
                forall|k: int|
                    0 <= k < i ==> self.truth@.dom().contains((#[trigger] self.options@[k])@),
            decreases self.options@.len() - i,
        {
            if !self.truth.contains_key(self.options[i].as_str()) {
                assert(!self.truth@.dom().contains(self.options@[i as int]@));
                return false;
            }
            i += 1;
        }
        true
    }
}

/// The same strings once more.
pub(crate) fn copied_strings(v: &Vec<String>) -> (r: Vec<String>)
    ensures
        views(r@) == views(v@),
{
    let mut r: Vec<String> = Vec::new();
    let mut i: usize = 0;
    while i < v.len()
        invariant
            i <= v@.len(),
            views(r@) =~= views(v@).take(i as int),
        decreases v@.len() - i,
    {
        push_text(&mut r, v[i].clone());
        assert(views(v@)[i as int] == v@[i as int]@);
        assert(views(v@).take(i as int + 1) =~= views(v@).take(i as int).push(v@[i as int]@));
        i += 1;
    }
    assert(views(v@).take(i as int) =~= views(v@));
    r
}

// ---- another instance in a path ------------------------------------------------

/// A segment, or another in its place.
pub open spec fn swapped(seg: Seq<char>, from: Seq<char>, to: Seq<char>) -> Seq<char> {
    if seg == from {
        to
    } else {
        seg
    }
}

/// Segments, with another in the place of those that are `from`.
pub open spec fn all_swapped(
    parts: Seq<Seq<char>>,
    from: Seq<char>,
    to: Seq<char>,
) -> Seq<Seq<char>> {
    Seq::new(parts.len(), |i: int| swapped(parts[i], from, to))
}

/// A path with `to` in the place of each segment that is `from`.
pub open spec fn retargeted(path: Seq<char>, from: Seq<char>, to: Seq<char>) -> Seq<char> {
    if from.len() == 0 || from == to {
        path
    } else {
        join(all_swapped(split(path, '.'), from, to), seq!['.'])
    }
}

/// Puts another instance in the place of one in a path.
pub fn retarget(path: &str, from: &str, to: &str) -> (r: String)
    ensures
        r@ == retargeted(path@, from@, to@),
{
    if from.is_empty() || same(from, to) {
        return path.to_owned();
    }
    let parts = split_on(path, '.');
    let ghost segs = split(path@, '.');
    let ghost all = all_swapped(segs, from@, to@);
    let mut out: Vec<String> = Vec::new();
    let mut i: usize = 0;
    while i < parts.len()
        invariant
            i <= parts@.len(),
            views(parts@) == segs,
            segs.len() == parts@.len(),
            all == all_swapped(segs, from@, to@),
            views(out@) =~= all.take(i as int),
        decreases parts@.len() - i,
    {
        assert(segs[i as int] == parts@[i as int]@);
        if same(parts[i].as_str(), from) {
            push_text(&mut out, to.to_owned());
        } else {
            push_text(&mut out, parts[i].clone());
        }
        assert(all.take(i as int + 1) =~= all.take(i as int).push(all[i as int]));
        i += 1;
    }
    assert(all.take(i as int) =~= all);
    proof {
        reveal_strlit(".");
        assert("."@ =~= seq!['.']);
    }
    join_with(&out, ".")
}

/// Nothing changes where there is no instance to put in, or it is the same.
pub proof fn law_retarget_same(path: Seq<char>, from: Seq<char>)
    ensures
        retargeted(path, Seq::empty(), from) == path,
        retargeted(path, from, from) == path,
{
}

/// Only whole segments change, and all of those that are `from`.
pub proof fn law_retarget_segments(path: Seq<char>, from: Seq<char>, to: Seq<char>)
    requires
        from.len() > 0,
        lacks(to, '.'),
    ensures
        split(retargeted(path, from, to), '.') == all_swapped(split(path, '.'), from, to),
{
    let parts = split(path, '.');
    lemma_split_parts(path, '.');
    if from == to {
        assert(all_swapped(parts, from, to) =~= parts);
    } else {
        let all = all_swapped(parts, from, to);
        assert forall|i: int| 0 <= i < all.len() implies lacks(#[trigger] all[i], '.') by {
            assert(lacks(parts[i], '.'));
        }
        lemma_split_join(all, '.');
    }
}

/// Putting the first instance back gives the first path, unless the other instance was
/// a segment of it before.
pub proof fn law_retarget_undone(path: Seq<char>, from: Seq<char>, to: Seq<char>)
    requires
        to.len() > 0,
        lacks(to, '.'),
        !split(path, '.').contains(to),
    ensures
        retargeted(retargeted(path, from, to), to, from) == path,
{
    let parts = split(path, '.');
    if from.len() == 0 || from == to {
        if from.len() == 0 {
            assert(all_swapped(parts, to, from) =~= parts) by {
                assert forall|i: int| 0 <= i < parts.len() implies parts[i] != to by {}
            }
            lemma_join_split(path, '.');
        }
    } else {
        law_retarget_segments(path, from, to);
        let all = all_swapped(parts, from, to);
        assert(all_swapped(all, to, from) =~= parts) by {
            assert forall|i: int| 0 <= i < parts.len() implies swapped(
                #[trigger] all[i],
                to,
                from,
            ) == parts[i] by {
                assert(parts[i] != to);
            }
        }
        lemma_join_split(path, '.');
    }
}

// ---- copying to other devices ------------------------------------------------------

/// A device that a mapping can be copied to.
pub struct CopyTarget {
    pub serial: String,
    pub article: String,
    pub firmware: String,
    pub name: String,
    /// The instance proposed for the device.
    pub instance: String,
    /// The fields that the device has.
    pub have: Vec<u16>,
}

/// What is known of a device that a mapping can be copied to.
pub struct TargetModel {
    pub serial: Seq<char>,
    pub article: Seq<char>,
    pub firmware: Seq<char>,
    pub name: Seq<char>,
    pub instance: Seq<char>,
    pub have: Seq<u16>,
}

impl View for CopyTarget {
    type V = TargetModel;

    open spec fn view(&self) -> TargetModel {
        TargetModel {
            serial: self.serial@,
            article: self.article@,
            firmware: self.firmware@,
            name: self.name@,
            instance: self.instance@,
            have: self.have@,
        }
    }
}

/// What is known of devices that a mapping can be copied to.
pub open spec fn targets_of(v: Seq<CopyTarget>) -> Seq<TargetModel> {
    v.map_values(|t: CopyTarget| t@)
}

/// The path of a field on the device with instance `to`: the instance that the path
/// itself names, or else that of the device it comes from, is put out.
pub open spec fn moved(path: Seq<char>, own: Seq<char>, to: Seq<char>) -> Seq<char> {
    match path_instance(path) {
        Some(from) => retargeted(path, from, to),
        None => retargeted(path, own, to),
    }
}

/// Whether a field is copied: the target has it, and its path becomes another.
pub open spec fn is_copied(
    src: DeviceMappingModel,
    have: Seq<u16>,
    to: Seq<char>,
    key: Seq<char>,
) -> bool {
    &&& src.fields.dom().contains(key)
    &&& key_value(key) matches Some(id) && have.contains(id as u16)
    &&& moved(src.fields[key].path, src.instance, to) != src.fields[key].path
}

/// A field as it is copied.
pub open spec fn copy_of(
    src: DeviceMappingModel,
    to: Seq<char>,
    key: Seq<char>,
) -> FieldMappingModel {
    FieldMappingModel {
        path: moved(src.fields[key].path, src.instance, to),
        invert: src.fields[key].invert,
        truth: src.fields[key].truth,
    }
}

/// The fields of a target with those that are copied to it.
pub open spec fn with_copies(
    fields: Map<Seq<char>, FieldMappingModel>,
    src: DeviceMappingModel,
    have: Seq<u16>,
    to: Seq<char>,
) -> Map<Seq<char>, FieldMappingModel> {
    Map::new(
        |k: Seq<char>| fields.dom().contains(k) || is_copied(src, have, to, k),
        |k: Seq<char>|
            if is_copied(src, have, to, k) {
                copy_of(src, to, k)
            } else {
                fields[k]
            },
    )
}

/// What is held of a target before fields are copied to it: its own identity, and the
/// instance that it had, or else the proposed one.
pub open spec fn prepared(
    devices: Map<Seq<char>, DeviceMappingModel>,
    t: TargetModel,
) -> DeviceMappingModel {
    let d = if devices.dom().contains(t.serial) {
        devices[t.serial]
    } else {
        no_device()
    };
    DeviceMappingModel {
        article: t.article,
        firmware: t.firmware,
        name: t.name,
        instance: if d.instance.len() == 0 {
            t.instance
        } else {
            d.instance
        },
        fields: d.fields,
    }
}

/// What is held of a target after fields are copied to it.
pub open spec fn received(
    devices: Map<Seq<char>, DeviceMappingModel>,
    src: DeviceMappingModel,
    t: TargetModel,
) -> DeviceMappingModel {
    let d = prepared(devices, t);
    DeviceMappingModel { fields: with_copies(d.fields, src, t.have, d.instance), ..d }
}

/// How many fields are copied to a target.
pub open spec fn copied_to(
    devices: Map<Seq<char>, DeviceMappingModel>,
    src: DeviceMappingModel,
    t: TargetModel,
) -> nat {
    let to = prepared(devices, t).instance;
    src.fields.dom().filter(|k: Seq<char>| is_copied(src, t.have, to, k)).len()
}

/// A file after fields are copied to targets, one after the other.
pub open spec fn copied_to_all(
    devices: Map<Seq<char>, DeviceMappingModel>,
    src: DeviceMappingModel,
    targets: Seq<TargetModel>,
) -> Map<Seq<char>, DeviceMappingModel>
    decreases targets.len(),
{
    if targets.len() == 0 {
        devices
    } else {
        let m = copied_to_all(devices, src, targets.drop_last());
        m.insert(targets.last().serial, received(m, src, targets.last()))
    }
}

/// How many fields are copied in all.
pub open spec fn copied_count(
    devices: Map<Seq<char>, DeviceMappingModel>,
    src: DeviceMappingModel,
    targets: Seq<TargetModel>,
) -> nat
    decreases targets.len(),
{
    if targets.len() == 0 {
        0
    } else {
        let m = copied_to_all(devices, src, targets.drop_last());
        copied_count(devices, src, targets.drop_last()) + copied_to(m, src, targets.last())
    }
}

/// The fields of a target with those of some keys that are copied to it.
spec fn with_some(
    fields: Map<Seq<char>, FieldMappingModel>,
    src: DeviceMappingModel,
    have: Seq<u16>,
    to: Seq<char>,
    keys: Set<Seq<char>>,
) -> Map<Seq<char>, FieldMappingModel> {
    Map::new(
        |k: Seq<char>|
            fields.dom().contains(k) || (keys.contains(k) && is_copied(src, have, to, k)),
        |k: Seq<char>|
            if keys.contains(k) && is_copied(src, have, to, k) {
                copy_of(src, to, k)
            } else {
                fields[k]
            },
    )
}

/// The keys that are copied, of some.
spec fn chosen(
    src: DeviceMappingModel,
    have: Seq<u16>,
    to: Seq<char>,
    keys: Set<Seq<char>>,
) -> Set<Seq<char>> {
    keys.filter(|k: Seq<char>| is_copied(src, have, to, k))
}

fn has_field(have: &Vec<u16>, id: u16) -> (r: bool)
    ensures
        r == have@.contains(id),
{
    let mut i: usize = 0;
    while i < have.len()
        invariant
            i <= have@.len(),
            forall|k: int| 0 <= k < i ==> have@[k] != id,
        decreases have@.len() - i,
    {
        if have[i] == id {
            assert(have@[i as int] == id);
            return true;
        }
        i += 1;
    }
    false
}

/// The path of a field on the device with instance `to`.
fn moved_path(path: &str, own: &str, to: &str) -> (r: String)
    ensures
        r@ == moved(path@, own@, to@),
{
    match instance_of(path) {
        Some(from) => retarget(path, from.as_str(), to),
        None => retarget(path, own, to),
    }
}

proof fn lemma_take_set(keys: Seq<Seq<char>>, i: int)
    requires
        0 <= i < keys.len(),
    ensures
        keys.take(i + 1).to_set() == keys.take(i).to_set().insert(keys[i]),
{
    let now = keys.take(i + 1);
    assert(now =~= keys.take(i).push(keys[i]));
    assert forall|x: Seq<char>| keys.take(i).contains(x) implies now.contains(x) by {
        let j = keys.take(i).index_of(x);
        assert(now[j] == x);
    }
    assert(now[i] == keys[i]);
    assert(now.to_set() =~= keys.take(i).to_set().insert(keys[i]));
}

proof fn lemma_chosen_step(
    src: DeviceMappingModel,
    have: Seq<u16>,
    to: Seq<char>,
    keys: Seq<Seq<char>>,
    i: int,
)
    requires
        0 <= i < keys.len(),
        ordered(keys),
    ensures
        chosen(src, have, to, keys.take(i + 1).to_set()).len() == chosen(
            src,
            have,
            to,
            keys.take(i).to_set(),
        ).len() + if is_copied(src, have, to, keys[i]) {
            1nat
        } else {
            0nat
        },
{
    lemma_take_set(keys, i);
    let (a, b) = (keys.take(i).to_set(), keys.take(i + 1).to_set());
    vstd::seq_lib::seq_to_set_is_finite(keys.take(i));
    let (x, y) = (chosen(src, have, to, a), chosen(src, have, to, b));
    assert(!a.contains(keys[i])) by {
        if keys.take(i).contains(keys[i]) {
            let j = keys.take(i).index_of(keys[i]);
            assert(keys.take(i)[j] == keys[j]);
            assert(before(keys[j], keys[i]));
            lemma_before_irreflexive(keys[i]);
        }
    }
    assert(x.finite());
    if is_copied(src, have, to, keys[i]) {
        assert(y =~= x.insert(keys[i]));
    } else {
        assert(y =~= x);
    }
}

fn copy_fields(entry: &mut DeviceMapping, src: &DeviceMapping, t: &CopyTarget) -> (r: (usize, usize))
    ensures
        final(entry)@ == (DeviceMappingModel {
            fields: with_copies(old(entry)@.fields, src@, t.have@, old(entry)@.instance),
            ..old(entry)@
        }),
        r.0 == src@.fields.dom().filter(
            |k: Seq<char>| is_copied(src@, t.have@, old(entry)@.instance, k),
        ).len(),
        r.0 + r.1 == src.fields.keys().len(),
{
    let to = entry.instance.clone();
    let ghost start = entry@;
    let ghost m = src@;
    let ghost keys = src.fields.keys();
    let n: usize = src.fields.len();
    let mut copied: usize = 0;
    let mut skipped: usize = 0;
    let mut i: usize = 0;
    proof {
        assert(keys.take(0).to_set() =~= Set::empty());
        assert(chosen(m, t.have@, to@, Set::empty()) =~= Set::empty());
        assert(with_some(start.fields, m, t.have@, to@, Set::empty()) =~= start.fields);
    }
    while i < n
        invariant
            i <= n,
            n == keys.len(),
            keys == src.fields.keys(),
            src.fields.well_formed(),
            m == src@,
            to@ == start.instance,
            copied + skipped == i,
            copied == chosen(m, t.have@, to@, keys.take(i as int).to_set()).len(),
            entry@ == (DeviceMappingModel {
                fields: with_some(
                    start.fields,
                    m,
                    t.have@,
                    to@,
                    keys.take(i as int).to_set(),
                ),
                ..start
            }),
        decreases n - i,
    {
        let ghost k = keys[i as int];
        let ghost held = entry@;
        let key = src.fields.key_at(i);
        let fm = src.fields.value_at(i);
        proof {
            lemma_take_set(keys, i as int);
            lemma_chosen_step(m, t.have@, to@, keys, i as int);
            assert(m.fields[k] == fm@);
        }
        let present: bool = match parse_field_key(key.as_str()) {
            Some(id) => has_field(&t.have, id),
            None => false,
        };
        let path = moved_path(fm.path.as_str(), src.instance.as_str(), to.as_str());
        if present && !same(path.as_str(), fm.path.as_str()) {
            assert(is_copied(m, t.have@, to@, k));
            let f = FieldMapping { path, invert: fm.invert, truth: fm.truth.copied() };
            assert(f@ == copy_of(m, to@, k));
            entry.fields.insert(key.clone(), f);
            assert(entry@.fields =~= held.fields.insert(k, copy_of(m, to@, k)));
            copied += 1;
        } else {
            assert(!is_copied(m, t.have@, to@, k));
            skipped += 1;
        }
        assert(entry@.fields =~= with_some(
            start.fields,
            m,
            t.have@,
            to@,
            keys.take(i as int + 1).to_set(),
        ));
        i += 1;
    }
    proof {
        assert(keys.take(n as int) =~= keys);
        assert(keys.to_set() =~= m.fields.dom());
        assert(with_some(start.fields, m, t.have@, to@, keys.to_set()) =~= with_copies(
            start.fields,
            m,
            t.have@,
            to@,
        ));
    }
    (copied, skipped)
}

/// Copies where the fields of a device go to every target, with the instance of the
/// target in the paths. Says how many fields were copied, and how many were not: those
/// that a target does not have, and those whose path would stay the same.
pub fn copy_to_targets(
    map: &mut Mapping,
    src: &DeviceMapping,
    targets: &Vec<CopyTarget>,
) -> (r: (usize, usize))
    requires
        targets@.len() * src.fields.keys().len() <= usize::MAX,
    ensures
        final(map)@ == copied_to_all(old(map)@, src@, targets_of(targets@)),
        r.0 == copied_count(old(map)@, src@, targets_of(targets@)),
        r.0 + r.1 == targets@.len() * src.fields.keys().len(),
{
    let ghost start = map@;
    let ghost ts = targets_of(targets@);
    let ghost n = src.fields.keys().len();
    let mut copied: usize = 0;
    let mut skipped: usize = 0;
    let mut i: usize = 0;
    assert(ts.take(0) =~= seq![]);
    while i < targets.len()
        invariant
            i <= targets@.len(),
            ts == targets_of(targets@),
            n == src.fields.keys().len(),
            targets@.len() * n <= usize::MAX,
            map@ == copied_to_all(start, src@, ts.take(i as int)),
            copied == copied_count(start, src@, ts.take(i as int)),
            copied + skipped == i * n,
        decreases targets@.len() - i,
    {
        let t = &targets[i];
        let ghost m = map@;
        let ghost taken = ts.take(i as int + 1);
        proof {
            assert(taken.drop_last() =~= ts.take(i as int));
            assert(taken.last() == t@);
            vstd::arithmetic::mul::lemma_mul_inequality(i as int + 1, targets@.len() as int, n as int);
            vstd::arithmetic::mul::lemma_mul_is_distributive_add_other_way(n as int, i as int, 1);
        }
        let mut entry = match map.devices.remove(t.serial.as_str()) {
            Some(d) => d,
            None => DeviceMapping::default(),
        };
        entry.article = t.article.clone();
        entry.firmware = t.firmware.clone();
        entry.name = t.name.clone();
        if entry.instance.as_str().is_empty() {
            entry.instance = t.instance.clone();
        }
        assert(entry@ == prepared(m, t@));
        let (yes, no) = copy_fields(&mut entry, src, t);
        assert(entry@ == received(m, src@, t@));
        let ghost e = entry@;
        map.devices.insert(t.serial.clone(), entry);
        assert(map@ =~= m.insert(t@.serial, e));
        copied = copied + yes;
        skipped = skipped + no;
        i += 1;
    }
    assert(ts.take(i as int) =~= ts);
    (copied, skipped)
}

/// A device that is not a target stays as it is.
pub proof fn law_copy_leaves_others(
    devices: Map<Seq<char>, DeviceMappingModel>,
    src: DeviceMappingModel,
    targets: Seq<TargetModel>,
    serial: Seq<char>,
)
    requires
        forall|i: int| 0 <= i < targets.len() ==> (#[trigger] targets[i]).serial != serial,
    ensures
        copied_to_all(devices, src, targets).dom().contains(serial) == devices.dom().contains(
            serial,
        ),
        devices.dom().contains(serial) ==> copied_to_all(devices, src, targets)[serial]
            == devices[serial],
    decreases targets.len(),
{
    if targets.len() > 0 {
        let rest = targets.drop_last();
        assert forall|i: int| 0 <= i < rest.len() implies (#[trigger] rest[i]).serial
            != serial by {
            assert(rest[i] == targets[i]);
        }
        law_copy_leaves_others(devices, src, rest, serial);
        assert(targets.last() == targets[targets.len() - 1]);
    }
}

/// No field is given to a target that the target does not have: a field that is new
/// to it is one that it has. What the target is called, and which article and firmware
/// it is, comes from the target, and an instance that it had stays.
pub proof fn law_copy_invents_nothing(
    devices: Map<Seq<char>, DeviceMappingModel>,
    src: DeviceMappingModel,
    t: TargetModel,
    key: Seq<char>,
)
    ensures
        ({
            let d = received(devices, src, t);
            let had = devices.dom().contains(t.serial);
            &&& d.name == t.name && d.article == t.article && d.firmware == t.firmware
            &&& had && devices[t.serial].instance.len() > 0 ==> d.instance
                == devices[t.serial].instance
            &&& d.fields.dom().contains(key) && !(had
                && devices[t.serial].fields.dom().contains(key)) ==> {
                &&& src.fields.dom().contains(key)
                &&& key_value(key) matches Some(id) && t.have.contains(id as u16)
            }
            &&& had && devices[t.serial].fields.dom().contains(key) ==> d.fields.dom().contains(key)
        }),
{
}

/// A field that is copied keeps what its labels mean and whether it is turned round.
pub proof fn law_copy_keeps_meaning(
    devices: Map<Seq<char>, DeviceMappingModel>,
    src: DeviceMappingModel,
    t: TargetModel,
    key: Seq<char>,
)
    requires
        is_copied(src, t.have, prepared(devices, t).instance, key),
    ensures
        received(devices, src, t).fields.dom().contains(key),
        received(devices, src, t).fields[key].truth == src.fields[key].truth,
        received(devices, src, t).fields[key].invert == src.fields[key].invert,
{
}

} // verus!
