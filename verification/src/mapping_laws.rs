//! What the mapping file holds once it was edited, and how its keys read.

use vstd::prelude::*;

use crate::app::{App, AppModel};
use crate::app_mapping::{
    first_noded, marked_label, start_of_path, toggled, truth_given, truth_moved, turned_round,
    with_known, SuggestRequest, Suggestion,
};
use crate::editor::{copied_count, copied_to_all, mode_leaf_for, Origin, Stage};
use crate::mapping::{
    fields_in, hex_digit, key_of, key_value, lookup, no_device, no_field, DeviceMapping,
    DeviceMappingModel, FieldMappingModel,
};
use crate::panes::{FieldInfoModel, IdentityModel, PathEditorModel, SessionModel};
use crate::signalk::{path_node, Plan, Refusal};
use crate::slug::{device_class, device_instance};
use crate::strmap::{before, lemma_before_irreflexive, lemma_before_transitive};
use crate::text::{decimal, hex, split, trimmed, views};
use crate::text_laws::law_hex;

verus! {

// ---- keys ----------------------------------------------------------------------------

/// A key is `0x` and the number of the field in three capital hexadecimal digits, or more
/// where three are not enough.
pub proof fn law_key(id: nat)
    ensures
        key_of(id).len() >= 5,
        key_of(id)[0] == '0' && key_of(id)[1] == 'x',
        key_of(id).skip(2) == hex(id, 3),
{
    reveal_strlit("0x");
    law_hex(id, 3);
    assert(key_of(id).skip(2) =~= hex(id, 3));
}

/// Whether a character is a hexadecimal digit that stands for `d`; capital and small letters
/// count the same.
pub open spec fn stands_for(c: char, d: int) -> bool {
    ||| 0 <= d < 10 && c as int == '0' as int + d
    ||| 10 <= d < 16 && c as int == 'A' as int + d - 10
    ||| 10 <= d < 16 && c as int == 'a' as int + d - 10
}

/// A key is read digit by digit: a digit behind a key makes sixteen times its number and the
/// digit, as long as that is the number of a field. Anything else is no key.
pub proof fn law_keys_are_read(key: Seq<char>, c: char, d: int)
    ensures
        key.len() <= 2 ==> key_value(key) is None,
        key.len() > 0 && key[0] != '0' ==> key_value(key) is None,
        key.len() > 1 && key[1] != 'x' ==> key_value(key) is None,
        key == seq!['0', 'x'] && stands_for(c, d) ==> key_value(key.push(c)) == Some(d as nat),
        stands_for(c, d) ==> (key_value(key) matches Some(n) ==> key_value(key.push(c)) == if n * 16
            + d <= 0xffff {
            Some((n * 16 + d) as nat)
        } else {
            None
        }),
        key.len() >= 2 && (forall|x: int| !stands_for(c, x)) ==> key_value(key.push(c)) is None,
        key.len() > 2 && key_value(key) is None ==> key_value(key.push(c)) is None,
{
    let more = key.push(c);
    if key.len() >= 2 {
        assert(more.skip(2) =~= key.skip(2).push(c));
        assert(more.skip(2).drop_last() =~= key.skip(2));
        if forall|x: int| !stands_for(c, x) {
            assert(!stands_for(c, c as int - '0' as int));
            assert(!stands_for(c, c as int - 'A' as int + 10));
            assert(!stands_for(c, c as int - 'a' as int + 10));
            assert(hex_digit(c) is None);
        }
        if key == seq!['0', 'x'] {
            assert(key.skip(2) =~= Seq::empty());
        }
    }
}

/// A field is looked up in the entry of its device, under its own key.
pub proof fn law_lookup(
    devices: Map<Seq<char>, DeviceMappingModel>,
    serial: Seq<char>,
    d: DeviceMappingModel,
    id: nat,
    f: FieldMappingModel,
)
    ensures
        lookup(
            devices.insert(serial, DeviceMappingModel { fields: d.fields.insert(key_of(id), f), ..d }),
            serial,
            id,
        ) == Some(f),
        lookup(
            devices.insert(serial, DeviceMappingModel { fields: d.fields.remove(key_of(id)), ..d }),
            serial,
            id,
        ) is None,
        lookup(devices.remove(serial), serial, id) is None,
{
}

// ---- serial numbers --------------------------------------------------------------------

/// A device is known by the serial number that it said, where it said one, and as many of
/// its fields are mapped as its entry has.
pub proof fn law_serial_numbers(m: AppModel, id: u32)
    ensures
        !m.idents.dom().contains(id) ==> m.serial(id) is None,
        m.idents.dom().contains(id) && m.idents[id].serial.len() == 0 ==> m.serial(id) is None,
        m.idents.dom().contains(id) && m.idents[id].serial.len() > 0 ==> m.serial(id) == Some(
            m.idents[id].serial,
        ),
        m.mapping is None || m.serial(id) is None ==> m.count_mapped(id) is None,
        m.mapping is Some && m.serial(id) is Some ==> ({
            let (map, serial) = (m.mapping->0.map, m.serial(id)->0);
            &&& map.dom().contains(serial) ==> m.count_mapped(id) == Some(
                map[serial].fields.dom().len(),
            )
            &&& !map.dom().contains(serial) ==> m.count_mapped(id) == Some(0nat)
        }),
{
}

// ---- opening the editor of paths ---------------------------------------------------------

/// Whether a path lies under a node: it has four segments or more.
pub open spec fn is_deep(path: Seq<char>) -> bool {
    split(path, '.').len() >= 4
}

/// Where nothing is known of a path, it starts like the first path of the device that lies
/// under a node, in the order of the keys, and with `electrical.` where there is none.
pub proof fn law_start_of_path(fields: Map<Seq<char>, FieldMappingModel>, k: Seq<char>)
    ensures
        (forall|j: Seq<char>| #[trigger]
            fields.dom().contains(j) ==> !is_deep(fields[j].path)) ==> start_of_path(fields)
            == "electrical."@,
        fields.dom().contains(k) && is_deep(fields[k].path) && (forall|j: Seq<char>| #[trigger]
            fields.dom().contains(j) && is_deep(fields[j].path) && j != k ==> before(k, j))
            ==> start_of_path(fields) == path_node(fields[k].path)->0 + "."@,
{
    if exists|x: Seq<char>| first_noded(fields, x) {
        let x = choose|x: Seq<char>| first_noded(fields, x);
        if fields.dom().contains(k) && is_deep(fields[k].path) && (forall|j: Seq<char>| #[trigger]
            fields.dom().contains(j) && is_deep(fields[j].path) && j != k ==> before(k, j)) {
            if x != k {
                assert(before(x, k) && before(k, x));
                lemma_before_transitive(x, k, x);
                lemma_before_irreflexive(x);
            }
        }
    } else {
        if fields.dom().contains(k) && is_deep(fields[k].path) && (forall|j: Seq<char>| #[trigger]
            fields.dom().contains(j) && is_deep(fields[j].path) && j != k ==> before(k, j)) {
            assert(first_noded(fields, k));
        }
    }
}

/// The editor opens on what the field has; without that on what is suggested, and without
/// that on what other paths of the device start with. It is an editor for the marked field.
pub proof fn law_path_editor_opens(m: AppModel, suggestion: Option<Suggestion>, f: FieldInfoModel)
    ensures
        m.mapping is None || m.selected() is None ==> m.map_begun(suggestion) == m,
        m.mapping is Some && m.selected() is Some && m.cur_serial is None ==> m.map_begun(
            suggestion,
        ) == (AppModel {
            status: "this device has not reported a serial number yet"@,
            ..m
        }),
        m.mapping is Some && m.selected() == Some(f) && m.cur_serial is Some ==> {
            let now = m.map_begun(suggestion);
            let e = now.path_editor->0;
            let has = lookup(m.mapping->0.map, m.cur_serial->0, f.index as nat);
            &&& now == (AppModel { path_editor: Some(e), ..m })
            &&& now.path_editor is Some
            &&& e.field == f.index && e.field_name == f.name && e.unit == f.unit
            &&& e.options == f.options && e.stage == Stage::Path
            &&& has matches Some(x) ==> e.buf == x.path && e.invert == x.invert && e.truth
                == x.truth && e.origin == Origin::Existing
            &&& has is None ==> e.truth == Map::<Seq<char>, bool>::empty()
            &&& has is None ==> match suggestion {
                Some(s) => e.buf == s.path@ && e.invert == s.invert && e.origin
                    == Origin::Suggested(s.tier),
                None => e.buf == start_of_path(m.own_fields()) && !e.invert && e.origin
                    == Origin::Blank,
            }
            &&& m.wants_suggestion() == (has is None)
        },
{
}

// ---- removing and saving -------------------------------------------------------------------

/// Removing the path of a field takes out that field of that device and nothing else.
pub proof fn law_unmapping(m: AppModel, f: FieldInfoModel, s: SessionModel, serial: Seq<char>)
    requires
        m.mapping == Some(s),
        m.selected() == Some(f),
        m.cur_serial == Some(serial),
    ensures
        lookup(s.map, serial, f.index as nat) is None ==> m.unmapped() == m,
        lookup(s.map, serial, f.index as nat) is Some ==> {
            let now = m.unmapped();
            let (d, e) = (s.map[serial], now.mapping->0.map[serial]);
            &&& now.mapping is Some && now.mapping->0.dirty
            &&& now.mapping->0.map == s.map.insert(serial, e)
            &&& e.fields == d.fields.remove(key_of(f.index as nat))
            &&& e.article == d.article && e.firmware == d.firmware && e.name == d.name
            &&& e.instance == d.instance
            &&& now.status == "unmapped "@ + key_of(f.index as nat)
            &&& now == (AppModel { mapping: now.mapping, status: now.status, ..m })
        },
{
}

/// A path that is saved is put into the entry of the open device: the device is named as it
/// said last, its instance becomes the one that the path names, or stays, or is the one
/// proposed where it had none, and its other fields stay.
pub proof fn law_saving(
    m: AppModel,
    plan: Plan,
    boolean_leaf: bool,
    known: Seq<Option<bool>>,
    s: SessionModel,
    serial: Seq<char>,
    ed: PathEditorModel,
)
    requires
        m.mapping == Some(s),
        m.cur_serial == Some(serial),
        m.path_editor == Some(ed),
        trimmed(ed.buf).len() > 0,
    ensures
        ({
            let now = m.map_committed(Ok(plan), boolean_leaf, known);
            let path = trimmed(ed.buf);
            let parts = split(path, '.');
            let d = now.mapping->0.map[serial];
            let had = s.map.dom().contains(serial);
            let was = s.map[serial];
            &&& now.mapping is Some && now.mapping->0.dirty
            &&& now.mapping->0.map == s.map.insert(serial, d)
            &&& now.path_editor is None
            &&& now.status == key_of(ed.field as nat) + " → "@ + path
            &&& parts.len() >= 4 ==> d.instance == parts[2]
            &&& parts.len() < 4 && had && was.instance.len() > 0 ==> d.instance == was.instance
            &&& parts.len() < 4 && !(had && was.instance.len() > 0) ==> d.instance
                == m.cur_instance
            &&& m.cur_info matches Some(i) ==> d.article == i.article && d.firmware == i.firmware
                && d.name == i.name
            &&& m.cur_info is None && had ==> d.article == was.article && d.firmware
                == was.firmware && d.name == was.name
            &&& m.cur_info is None && !had ==> d.article.len() == 0 && d.firmware.len() == 0
                && d.name.len() == 0
            &&& d.fields == (if had {
                was.fields
            } else {
                Map::empty()
            }).insert(
                key_of(ed.field as nat),
                FieldMappingModel { path, invert: ed.invert, truth: plan.truth@ },
            )
        }),
{
}

/// What is not saved changes no entry: no path, a path that is refused, and labels whose
/// meaning is not known, which are asked for.
pub proof fn law_not_saving(
    m: AppModel,
    plan: Result<Plan, Refusal>,
    boolean_leaf: bool,
    known: Seq<Option<bool>>,
    ed: PathEditorModel,
)
    ensures
        m.path_editor is None ==> m.map_committed(plan, boolean_leaf, known) == m,
        m.path_editor == Some(ed) && m.cur_serial is None ==> m.map_committed(
            plan,
            boolean_leaf,
            known,
        ) == (AppModel { path_editor: None, ..m }),
        m.path_editor == Some(ed) && m.cur_serial is Some && trimmed(ed.buf).len() == 0
            ==> m.map_committed(plan, boolean_leaf, known) == (AppModel {
            path_editor: None,
            status: "empty path; nothing changed"@,
            ..m
        }),
        m.path_editor == Some(ed) && m.cur_serial is Some && trimmed(ed.buf).len() > 0 ==> {
            let now = m.map_committed(plan, boolean_leaf, known);
            &&& plan matches Err(Refusal::Other { message }) ==> now == (AppModel {
                status: message@ + " — not saved"@,
                ..m
            })
            &&& plan matches Err(Refusal::Truth { labels, message: _ }) ==> {
                let e = now.path_editor->0;
                &&& now == (AppModel { path_editor: Some(e), status: now.status, ..m })
                &&& e == (PathEditorModel { truth: e.truth, stage: Stage::Truth(0), ..ed })
                &&& e.truth == with_known(ed.truth, views(labels@), known)
                &&& ed.options.len() > 2 && boolean_leaf ==> now.status == decimal(
                    ed.options.len(),
                ) + " labels → boolean: "@ + mode_leaf_for(trimmed(ed.buf))
                    + " keeps them all; else set true/false per label"@
                &&& !(ed.options.len() > 2 && boolean_leaf) ==> now.status
                    == "boolean leaf: say which labels mean true (Space toggles, Enter saves)"@
            }
        },
{
}

// ---- labels ----------------------------------------------------------------------------

/// What labels mean stays; a label without a meaning gets the one that is known first for
/// it, and no other label gets any.
pub proof fn law_known_meanings(
    truth: Map<Seq<char>, bool>,
    labels: Seq<Seq<char>>,
    known: Seq<Option<bool>>,
    l: Seq<char>,
    i: int,
)
    requires
        labels.len() == known.len(),
    ensures
        ({
            let now = with_known(truth, labels, known);
            &&& truth.dom().contains(l) ==> now.dom().contains(l) && now[l] == truth[l]
            &&& !truth.dom().contains(l) && 0 <= i < labels.len() && labels[i] == l
                && known[i] is Some && (forall|j: int|
                0 <= j < i && #[trigger] labels[j] == l ==> known[j] is None)
                ==> now.dom().contains(l) && Some(now[l]) == known[i]
            &&& !truth.dom().contains(l) && (forall|j: int|
                0 <= j < labels.len() && #[trigger] labels[j] == l ==> known[j] is None)
                ==> !now.dom().contains(l)
        }),
    decreases labels.len(),
{
    if labels.len() > 0 {
        let (ls, ks) = (labels.drop_last(), known.drop_last());
        law_known_meanings(truth, ls, ks, l, i);
        let n = ls.len() as int;
        assert(labels.last() == labels[n] && known.last() == known[n]);
        assert forall|j: int| 0 <= j < n implies ls[j] == labels[j] && ks[j] == known[j] by {}
        if forall|j: int| 0 <= j < labels.len() && #[trigger] labels[j] == l ==> known[j] is None {
            assert forall|j: int| 0 <= j < n && #[trigger] ls[j] == l implies ks[j] is None by {
                assert(labels[j] == l);
            }
        }
        if 0 <= i <= n && (forall|j: int|
            0 <= j < i && #[trigger] labels[j] == l ==> known[j] is None) {
            assert forall|j: int| 0 <= j < i && j < n && #[trigger] ls[j] == l implies ks[j]
                is None by {
                assert(labels[j] == l);
            }
        }
    }
}

/// The labels are a ring while their meanings are asked for.
pub proof fn law_labels_are_a_ring(ed: PathEditorModel, i: usize, delta: int)
    requires
        ed.stage == Stage::Truth(i),
        i < ed.options.len() <= usize::MAX,
    ensures
        truth_moved(ed, delta) matches e && {
            &&& e == (PathEditorModel { stage: e.stage, ..ed })
            &&& e.stage matches Stage::Truth(now) && {
                &&& now < ed.options.len()
                &&& 0 <= i + delta < ed.options.len() ==> now == i + delta
                &&& i + delta == ed.options.len() ==> now == 0
                &&& i + delta == -1 ==> now == ed.options.len() - 1
            }
        },
{
    let n = ed.options.len() as int;
    let x = i + delta;
    vstd::arithmetic::div_mod::lemma_mod_bound(x, n);
    if 0 <= x < n {
        vstd::arithmetic::div_mod::lemma_small_mod(x as nat, n as nat);
    }
    if x == n {
        vstd::arithmetic::div_mod::lemma_mod_self_0(n);
    }
    if x == -1 {
        vstd::arithmetic::div_mod::lemma_fundamental_div_mod_converse(-1, n, -1, n - 1);
    }
}

/// Only the marked label gets a meaning. Turning it round makes true what was false or had
/// no meaning, and false what was true.
pub proof fn law_labels_get_meanings(ed: PathEditorModel, i: usize, value: bool)
    requires
        ed.stage == Stage::Truth(i),
        i < ed.options.len(),
    ensures
        marked_label(ed) == Some(ed.options[i as int]),
        truth_given(ed, value) == (PathEditorModel {
            truth: ed.truth.insert(ed.options[i as int], value),
            ..ed
        }),
        toggled(ed) == !(ed.truth.dom().contains(ed.options[i as int])
            && ed.truth[ed.options[i as int]]),
        toggled(truth_given(ed, value)) == !value,
{
}

/// While a path is typed no label is marked.
pub proof fn law_no_label_is_marked(ed: PathEditorModel, value: bool, delta: int)
    requires
        ed.stage == Stage::Path,
    ensures
        marked_label(ed) is None,
        truth_given(ed, value) == ed,
        truth_moved(ed, delta) == ed,
{
}

/// Turning round what is published turns round every meaning of a label where labels become
/// a truth value, and the value itself where they do not.
pub proof fn law_turning_round(
    ed: PathEditorModel,
    plan: Result<Plan, Refusal>,
    boolean_leaf: bool,
    known: Seq<Option<bool>>,
    l: Seq<char>,
)
    ensures
        ({
            let now = turned_round(ed, plan, boolean_leaf, known);
            let by_label = ed.options.len() > 0 && boolean_leaf;
            let planned = plan is Ok && plan->Ok_0.truth.keys().len() > 0;
            let filled = with_known(ed.truth, ed.options, known);
            &&& !by_label ==> now == (PathEditorModel { invert: !ed.invert, ..ed })
            &&& by_label ==> now == (PathEditorModel { invert: false, truth: now.truth, ..ed })
            &&& by_label && planned ==> {
                let t = plan->Ok_0.truth@;
                &&& now.truth.dom().contains(l) == t.dom().contains(l)
                &&& t.dom().contains(l) ==> now.truth[l] != t[l]
            }
            &&& by_label && !planned ==> {
                &&& now.truth.dom().contains(l) == filled.dom().contains(l)
                &&& filled.dom().contains(l) ==> now.truth[l] != filled[l]
            }
        }),
{
}

// ---- copying to an article -----------------------------------------------------------------

/// The devices that a mapping is copied to are those of the same article that said another
/// serial number, in the order in which they were heard.
pub proof fn law_targets_are_of_the_article(m: AppModel, article: Seq<char>, ids: Seq<u32>)
    ensures
        m.target_ids(article, ids) == ids.filter(
            |id: u32|
                m.idents.dom().contains(id) && m.idents[id].article == article
                    && m.idents[id].serial.len() > 0 && m.cur_serial != Some(m.idents[id].serial),
        ),
    decreases ids.len(),
{
    let keep = |id: u32|
        m.idents.dom().contains(id) && m.idents[id].article == article
            && m.idents[id].serial.len() > 0 && m.cur_serial != Some(m.idents[id].serial);
    reveal(Seq::filter);
    if ids.len() > 0 {
        law_targets_are_of_the_article(m, article, ids.drop_last());
        assert(m.is_target(article, ids.last()) == keep(ids.last()));
    } else {
        assert(ids =~= ids.filter(keep));
    }
}

/// Each target is told by what its own device said, under the instance that its name gives,
/// and with the fields that were found on it.
pub proof fn law_targets_are_their_own(m: AppModel, ids: Seq<u32>, have: Seq<Seq<u16>>, i: int)
    requires
        0 <= i < ids.len(),
    ensures
        ({
            let t = m.targets(ids, have)[i];
            let d = m.idents[ids[i]];
            &&& m.targets(ids, have).len() == ids.len()
            &&& t.serial == d.serial && t.article == d.article && t.firmware == d.firmware
            &&& t.name == d.name && t.instance == device_instance(d.name, ids[i] as nat)
            &&& t.have == have[i]
        }),
{
}

/// What is mapped of the open device is copied to the other devices of its article, and
/// nothing but the mapping and the line of status changes. Without anything to copy, without
/// an article, and without another device, nothing is copied.
pub proof fn law_apply_to_article(m: AppModel, have: Seq<Seq<u16>>)
    ensures
        m.cur_serial is None ==> m.applied_to_article(have) == m && m.copy_ids().len() == 0,
        m.cur_serial is Some ==> {
            let now = m.applied_to_article(have);
            let mapped = m.mapping is Some && m.mapping->0.map.dom().contains(m.cur_serial->0);
            let src = m.mapping->0.map[m.cur_serial->0];
            let ids = m.target_ids(src.article, m.device_ids);
            let ts = m.targets(ids, have);
            let copied = copied_count(m.mapping->0.map, src, ts);
            let left = ts.len() * src.fields.dom().len() - copied;
            &&& !mapped ==> now == (AppModel {
                status: "map at least one field on this device first"@,
                ..m
            })
            &&& mapped && src.article.len() == 0 ==> now == (AppModel {
                status: "this device reports no article number to match on"@,
                ..m
            }) && m.copy_ids().len() == 0
            &&& mapped && src.article.len() > 0 ==> m.copy_ids() == ids
            &&& mapped && src.article.len() > 0 && ids.len() == 0 ==> now == (AppModel {
                status: "no other device with article "@ + src.article,
                ..m
            })
            &&& mapped && src.article.len() > 0 && ids.len() > 0 ==> {
                &&& now == (AppModel { mapping: now.mapping, status: now.status, ..m })
                &&& now.mapping == Some(
                    SessionModel {
                        map: copied_to_all(m.mapping->0.map, src, ts),
                        dirty: true,
                        ..m.mapping->0
                    },
                )
                &&& left == 0 ==> now.status == "copied "@ + decimal(copied)
                    + " mapping(s) to devices with article "@ + src.article + ""@
                &&& left > 0 ==> now.status == "copied "@ + decimal(copied)
                    + " mapping(s) to devices with article "@ + src.article + ("; "@ + decimal(
                    left as nat,
                ) + " field(s) absent on some targets"@)
            }
        },
{
}

/// Changes that were not written are warned of once before the program ends.
pub proof fn law_quitting_warns(m: AppModel)
    ensures
        m.mapping matches Some(s) ==> s.dirty && !s.quit_armed ==> m.quit_asked() == (AppModel {
            mapping: Some(SessionModel { quit_armed: true, ..s }),
            status: "unsaved mapping changes — w to write, q again to discard"@,
            ..m
        }),
        !(m.mapping is Some && m.mapping->0.dirty && !m.mapping->0.quit_armed) ==> m.quit_asked()
            == (AppModel { should_quit: true, ..m }),
{
}

/// A path is suggested only for a field of a known device that has none, and the fields of
/// the open device are those of its entry.
pub proof fn law_own_fields(m: AppModel, field: u16)
    ensures
        m.mapping is None || m.selected() is None || m.cur_serial is None
            ==> !m.wants_suggestion(),
        m.mapping is None || m.cur_serial is None ==> m.mapped_field(field) is None
            && m.own_fields() == Map::<Seq<char>, FieldMappingModel>::empty() && m.source() is None,
        m.mapping is Some && m.cur_serial is Some ==> ({
            let (map, serial) = (m.mapping->0.map, m.cur_serial->0);
            let key = key_of(field as nat);
            &&& map.dom().contains(serial) ==> m.own_fields() == map[serial].fields && m.source()
                == Some(map[serial])
            &&& !map.dom().contains(serial) ==> m.own_fields() == Map::<
                Seq<char>,
                FieldMappingModel,
            >::empty() && m.source() is None
            &&& m.own_fields().dom().contains(key) ==> m.mapped_field(field) == Some(
                m.own_fields()[key],
            )
            &&& !m.own_fields().dom().contains(key) ==> m.mapped_field(field) is None
        }),
{
}

/// Editing a path changes the editor of paths and nothing else, and nothing where none is
/// open.
pub proof fn law_with_editor(m: AppModel, change: spec_fn(PathEditorModel) -> PathEditorModel)
    ensures
        m.path_editor is None ==> m.with_editor(change) == m,
        m.path_editor matches Some(e) ==> m.with_editor(change) == (AppModel {
            path_editor: Some(change(e)),
            ..m
        }),
{
}

/// The meanings are known where every label of the open editor has one.
pub proof fn law_truth_known(m: AppModel, ed: PathEditorModel, i: int)
    requires
        m.path_editor == Some(ed),
    ensures
        m.truth_known() && 0 <= i < ed.options.len() ==> ed.truth.dom().contains(ed.options[i]),
        !m.truth_known() ==> exists|j: int|
            0 <= j < ed.options.len() && !ed.truth.dom().contains(#[trigger] ed.options[j]),
{
}

/// Nothing is known of a device or of a field before it is mapped.
pub proof fn law_nothing_is_mapped()
    ensures
        no_device().article.len() == 0 && no_device().firmware.len() == 0,
        no_device().name.len() == 0 && no_device().instance.len() == 0,
        no_device().fields == Map::<Seq<char>, FieldMappingModel>::empty(),
        no_field().path.len() == 0 && !no_field().invert,
        no_field().truth == Map::<Seq<char>, bool>::empty(),
{
}

/// A file has the fields of all its devices.
pub proof fn law_fields_are_counted(devices: Seq<DeviceMapping>, d: DeviceMapping)
    ensures
        fields_in(seq![]) == 0,
        fields_in(devices.push(d)) == fields_in(devices) + d.fields.keys().len(),
{
    assert(devices.push(d).drop_last() =~= devices);
}

// ---- one call after the other -----------------------------------------------------------

/// What is typed into the editor of paths comes last, and taking it back gives the path as it
/// was.
pub proof fn law_path_typing(a: &mut App, b: &mut App, c: char, e: PathEditorModel)
    requires
        call_ensures(App::map_editor_char, (a, c), ()),
        call_ensures(App::map_editor_backspace, (b,), ()),
        old(b)@ == final(a)@,
        old(a)@.path_editor == Some(e),
    ensures
        final(a)@.path_editor == Some(PathEditorModel { buf: e.buf.push(c), ..e }),
        final(b)@ == old(a)@,
{
    assert(e.buf.push(c).drop_last() =~= e.buf);
}

/// A file that was written holds no change that was not: the program ends at once then. One
/// that could not be written is as it was.
pub proof fn law_writing(
    a: &mut App,
    b: &mut App,
    result: Result<(), String>,
    s: SessionModel,
)
    requires
        call_ensures(App::save_mapping, (a, result), ()),
        call_ensures(App::quit_checked, (b,), ()),
        old(b)@ == final(a)@,
        old(a)@.mapping == Some(s),
    ensures
        result is Ok ==> final(a)@.mapping == Some(SessionModel { dirty: false, ..s }),
        result is Ok ==> final(b)@.should_quit,
        result matches Err(e) ==> final(a)@ == (AppModel {
            status: "could not write "@ + s.path + ": "@ + e@,
            ..old(a)@
        }),
{
}

/// Nothing is saved while a label has no meaning.
pub proof fn law_labels_come_first(
    a: &mut App,
    plan: Result<Plan, Refusal>,
    boolean_leaf: bool,
    known: &Vec<Option<bool>>,
    e: PathEditorModel,
    i: int,
)
    requires
        call_ensures(App::commit_truth, (a, plan, boolean_leaf, known), ()),
        old(a)@.path_editor == Some(e),
        0 <= i < e.options.len(),
        !e.truth.dom().contains(e.options[i]),
    ensures
        final(a)@ == (AppModel {
            status: "every label needs true or false before saving"@,
            ..old(a)@
        }),
{
}

/// What is asked of the suggester is the marked field, with what the open device said of
/// itself.
pub proof fn law_suggestions_are_asked_for(
    a: &App,
    r: Option<SuggestRequest>,
    f: FieldInfoModel,
    i: IdentityModel,
)
    requires
        call_ensures(App::suggestion_request, (a,), r),
        a@.selected() == Some(f),
        a@.cur_info == Some(i),
    ensures
        r is Some ==> a@.mapped_field(f.index) is None && a@.cur_serial is Some,
        r matches Some(q) ==> {
            &&& q.field == f.index && q.name@ == f.name && q.unit@ == f.unit
            &&& q.article@ == i.article && q.firmware@ == i.firmware
            &&& q.class@ == device_class(i.name) && q.instance@ == a@.cur_instance
        },
        a@.mapping is Some && a@.cur_serial is Some && a@.mapped_field(f.index) is None
            ==> r is Some,
{
}

} // verus!
