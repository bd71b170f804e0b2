//! What copying a mapping to other devices leaves in the file, device by device, and what
//! the editor says of a path.

use vstd::prelude::*;

use crate::editor::{
    all_swapped, copied_count, copied_to_all, copy_to_targets, is_copied, law_copy_leaves_others,
    law_retarget_segments, mode_leaf_for, moved, prepared, table_words, targets_of, CopyTarget,
    HintModel, PathEditor, PlanRequest, TargetModel,
};
use crate::mapping::{key_value, DeviceMapping, DeviceMappingModel, FieldMapping, Mapping};
use crate::signalk::{path_instance, path_node, Plan, Refusal};
use crate::text::{decimal, join, lacks, lemma_join_split, split, starts, trimmed, views};

verus! {

// ---- segments ----------------------------------------------------------------------

/// The segment of a path that tells the device: the third of four or more, or else the
/// instance of the device that the mapping is copied from.
pub open spec fn device_segment(path: Seq<char>, own: Seq<char>) -> Seq<char> {
    if split(path, '.').len() >= 4 {
        split(path, '.')[2]
    } else {
        own
    }
}

/// Segments, with `to` for each one that is `from`. Where there is no `from`, the segments
/// as they are.
pub open spec fn with_segment(
    parts: Seq<Seq<char>>,
    from: Seq<char>,
    to: Seq<char>,
) -> Seq<Seq<char>> {
    Seq::new(
        parts.len(),
        |j: int|
            if from.len() > 0 && parts[j] == from {
                to
            } else {
                parts[j]
            },
    )
}

/// A path with `to` wherever `from` was a segment of it.
pub open spec fn readdressed(path: Seq<char>, from: Seq<char>, to: Seq<char>) -> Seq<char> {
    join(with_segment(split(path, '.'), from, to), seq!['.'])
}

/// The path that a field gets on another device is the one it had, with the other instance
/// in the place of its own.
pub proof fn law_moved(path: Seq<char>, own: Seq<char>, to: Seq<char>)
    ensures
        moved(path, own, to) == readdressed(path, device_segment(path, own), to),
{
    let parts = split(path, '.');
    let from = device_segment(path, own);
    lemma_join_split(path, '.');
    if from.len() == 0 || from == to {
        assert(with_segment(parts, from, to) =~= parts);
    } else {
        assert(with_segment(parts, from, to) =~= all_swapped(parts, from, to));
    }
}

/// A path that names an instance names the other one after the move. Every segment that
/// is not the instance stays, and there are as many as before.
pub proof fn law_moved_names_the_instance(path: Seq<char>, own: Seq<char>, to: Seq<char>, j: int)
    requires
        lacks(to, '.'),
        split(path, '.').len() >= 4,
        split(path, '.')[2].len() > 0,
    ensures
        split(moved(path, own, to), '.').len() == split(path, '.').len(),
        split(moved(path, own, to), '.')[2] == to,
        path_instance(moved(path, own, to)) == Some(to),
        0 <= j < split(path, '.').len() && split(path, '.')[j] != split(path, '.')[2]
            ==> split(moved(path, own, to), '.')[j] == split(path, '.')[j],
{
    law_retarget_segments(path, split(path, '.')[2], to);
}

/// The node of a path is its first three segments, which are followed by something, and its
/// instance is the third of them.
pub proof fn law_node_segments(path: Seq<char>)
    ensures
        split(path, '.').len() < 4 <==> path_node(path) is None,
        split(path, '.').len() < 4 <==> path_instance(path) is None,
        split(path, '.').len() >= 4 ==> {
            let parts = split(path, '.');
            &&& path_instance(path) == Some(parts[2])
            &&& path_node(path) == Some(parts[0] + seq!['.'] + parts[1] + seq!['.'] + parts[2])
        },
{
    let parts = split(path, '.');
    if parts.len() >= 4 {
        let three = parts.take(3);
        reveal_with_fuel(join, 4);
        assert(three.drop_first().drop_first() =~= seq![parts[2]]);
        assert(join(three, seq!['.']) == parts[0] + seq!['.'] + (parts[1] + seq!['.'] + parts[2]));
        assert(join(three, seq!['.']) =~= parts[0] + seq!['.'] + parts[1] + seq!['.'] + parts[2]);
    }
}

// ---- copying -----------------------------------------------------------------------

/// Whether a target has the field of a key.
pub open spec fn has_key(t: TargetModel, key: Seq<char>) -> bool {
    match key_value(key) {
        Some(id) => exists|j: int| 0 <= j < t.have.len() && #[trigger] t.have[j] as nat == id,
        None => false,
    }
}

/// What a copy of one field to a target comes to: the source says where it goes, the
/// target has it, and its path names the source.
pub open spec fn goes_over(
    src: DeviceMappingModel,
    t: TargetModel,
    to: Seq<char>,
    key: Seq<char>,
) -> bool {
    let path = src.fields[key].path;
    &&& src.fields.dom().contains(key)
    &&& has_key(t, key)
    &&& readdressed(path, device_segment(path, src.instance), to) != path
}

/// What a file says of a device, if it says anything.
pub open spec fn in_file(
    devices: Map<Seq<char>, DeviceMappingModel>,
    serial: Seq<char>,
) -> Option<DeviceMappingModel> {
    if devices.dom().contains(serial) {
        Some(devices[serial])
    } else {
        None
    }
}

/// The instance under which a target is published: the one that the file had for it, or
/// else the one proposed.
pub open spec fn instance_in_use(
    devices: Map<Seq<char>, DeviceMappingModel>,
    t: TargetModel,
) -> Seq<char> {
    match in_file(devices, t.serial) {
        Some(d) => if d.instance.len() > 0 {
            d.instance
        } else {
            t.instance
        },
        None => t.instance,
    }
}

proof fn lemma_goes_over(
    src: DeviceMappingModel,
    t: TargetModel,
    to: Seq<char>,
    key: Seq<char>,
)
    ensures
        is_copied(src, t.have, to, key) == goes_over(src, t, to, key),
{
    law_moved(src.fields[key].path, src.instance, to);
    match key_value(key) {
        Some(id) => {
            if t.have.contains(id as u16) {
                let j = t.have.index_of(id as u16);
                assert(t.have[j] as nat == id);
            }
            if exists|j: int| 0 <= j < t.have.len() && #[trigger] t.have[j] as nat == id {
                let j = choose|j: int| 0 <= j < t.have.len() && #[trigger] t.have[j] as nat == id;
                assert(t.have[j] == id as u16);
            }
        },
        None => {},
    }
}

/// Every target gets its own: after the whole copy the file names it by its own name,
/// article and firmware, under the instance it had or else the one proposed for it. Each
/// field that the source maps and the target has stands at the path of the source with the
/// instance of this target in it, and keeps what it means. Every other field is as it was.
pub proof fn law_each_target_gets_its_own(
    devices: Map<Seq<char>, DeviceMappingModel>,
    src: DeviceMappingModel,
    targets: Seq<TargetModel>,
    i: int,
    key: Seq<char>,
)
    requires
        0 <= i < targets.len(),
        forall|j: int, k: int|
            0 <= j < k < targets.len() ==> (#[trigger] targets[j]).serial != (
            #[trigger] targets[k]).serial,
    ensures
        ({
            let t = targets[i];
            let d = copied_to_all(devices, src, targets)[t.serial];
            let was = in_file(devices, t.serial);
            let to = instance_in_use(devices, t);
            let path = src.fields[key].path;
            &&& copied_to_all(devices, src, targets).dom().contains(t.serial)
            &&& d.name == t.name && d.article == t.article && d.firmware == t.firmware
            &&& d.instance == to
            &&& goes_over(src, t, to, key) ==> {
                &&& d.fields.dom().contains(key)
                &&& d.fields[key].path == readdressed(
                    path,
                    device_segment(path, src.instance),
                    to,
                )
                &&& d.fields[key].invert == src.fields[key].invert
                &&& d.fields[key].truth == src.fields[key].truth
            }
            &&& !goes_over(src, t, to, key) ==> match was {
                Some(w) => d.fields.dom().contains(key) == w.fields.dom().contains(key)
                    && d.fields[key] == w.fields[key] || !d.fields.dom().contains(key)
                    && !w.fields.dom().contains(key),
                None => !d.fields.dom().contains(key),
            }
        }),
    decreases targets.len(),
{
    let t = targets[i];
    let rest = targets.drop_last();
    let m = copied_to_all(devices, src, rest);
    let last = targets.last();
    assert(last == targets[targets.len() - 1]);
    if i < rest.len() {
        assert forall|j: int, k: int| 0 <= j < k < rest.len() implies (#[trigger] rest[j]).serial
            != (#[trigger] rest[k]).serial by {
            assert(rest[j] == targets[j] && rest[k] == targets[k]);
        }
        assert(rest[i] == targets[i]);
        law_each_target_gets_its_own(devices, src, rest, i, key);
        assert(targets[i].serial != targets[targets.len() - 1].serial);
    } else {
        assert forall|j: int| 0 <= j < rest.len() implies (#[trigger] rest[j]).serial
            != t.serial by {
            assert(rest[j] == targets[j]);
        }
        law_copy_leaves_others(devices, src, rest, t.serial);
        assert(prepared(m, t).instance == instance_in_use(devices, t));
        lemma_goes_over(src, t, instance_in_use(devices, t), key);
        law_moved(src.fields[key].path, src.instance, instance_in_use(devices, t));
    }
}

/// Targets are served one after the other, each from the file that the ones before it left,
/// and what is copied adds up.
pub proof fn law_copies_in_turn(
    devices: Map<Seq<char>, DeviceMappingModel>,
    src: DeviceMappingModel,
    some: Seq<TargetModel>,
    more: Seq<TargetModel>,
)
    ensures
        copied_to_all(devices, src, some + more) == copied_to_all(
            copied_to_all(devices, src, some),
            src,
            more,
        ),
        copied_count(devices, src, some + more) == copied_count(devices, src, some) + copied_count(
            copied_to_all(devices, src, some),
            src,
            more,
        ),
        some.len() == 0 ==> copied_to_all(devices, src, some) == devices && copied_count(
            devices,
            src,
            some,
        ) == 0,
    decreases more.len(),
{
    if more.len() == 0 {
        assert(some + more =~= some);
    } else {
        assert((some + more).drop_last() =~= some + more.drop_last());
        law_copies_in_turn(devices, src, some, more.drop_last());
    }
}

/// What is counted of a target are the fields that go over to it.
pub proof fn law_copies_are_counted(
    devices: Map<Seq<char>, DeviceMappingModel>,
    src: DeviceMappingModel,
    t: TargetModel,
)
    ensures
        copied_count(devices, src, seq![t]) == src.fields.dom().filter(
            |k: Seq<char>| goes_over(src, t, instance_in_use(devices, t), k),
        ).len(),
{
    let one = seq![t];
    let to = instance_in_use(devices, t);
    assert(one.drop_last() =~= seq![]);
    assert(copied_to_all(devices, src, one.drop_last()) == devices);
    assert(copied_count(devices, src, one.drop_last()) == 0);
    assert(prepared(devices, t).instance == to);
    assert forall|k: Seq<char>| is_copied(src, t.have, to, k) == #[trigger] goes_over(
        src,
        t,
        to,
        k,
    ) by {
        lemma_goes_over(src, t, to, k);
    }
    assert(src.fields.dom().filter(|k: Seq<char>| is_copied(src, t.have, to, k))
        =~= src.fields.dom().filter(|k: Seq<char>| goes_over(src, t, to, k)));
}

// ---- what the editor says ------------------------------------------------------------

/// The state of an inverter goes to `inverterMode`, that of a charger or of a solar
/// controller to `chargingMode`; of any other category the leaf is not known.
pub proof fn law_mode_leaf(category: Seq<char>, rest: Seq<char>)
    requires
        lacks(category, '.'),
    ensures
        mode_leaf_for("electrical."@ + category + "."@ + rest) == if category == "inverters"@ {
            "inverterMode"@
        } else if category == "chargers"@ || category == "solar"@ {
            "chargingMode"@
        } else {
            "a mode leaf"@
        },
{
    let path = "electrical."@ + category + "."@ + rest;
    reveal_strlit("electrical.");
    reveal_strlit(".");
    reveal_strlit("inverters");
    reveal_strlit("chargers");
    reveal_strlit("solar");
    reveal_strlit("electrical.inverters.");
    reveal_strlit("electrical.chargers.");
    reveal_strlit("electrical.solar.");
    lemma_category(category, rest, "inverters"@);
    lemma_category(category, rest, "chargers"@);
    lemma_category(category, rest, "solar"@);
    assert("electrical."@ + "inverters"@ + "."@ =~= "electrical.inverters."@);
    assert("electrical."@ + "chargers"@ + "."@ =~= "electrical.chargers."@);
    assert("electrical."@ + "solar"@ + "."@ =~= "electrical.solar."@);
}

proof fn lemma_category(category: Seq<char>, rest: Seq<char>, other: Seq<char>)
    requires
        lacks(category, '.'),
        lacks(other, '.'),
    ensures
        starts("electrical."@ + category + "."@ + rest, "electrical."@ + other + "."@)
            == (category == other),
{
    reveal_strlit("electrical.");
    reveal_strlit(".");
    let path = "electrical."@ + category + "."@ + rest;
    let head = "electrical."@ + other + "."@;
    if category == other {
        assert(path.take(head.len() as int) =~= head);
    } else if starts(path, head) {
        let (n, k) = (category.len() as int, other.len() as int);
        assert forall|j: int| 0 <= j < head.len() implies path[j] == head[j] by {
            assert(path.take(head.len() as int)[j] == path[j]);
        }
        if n < k {
            assert(path[11 + n] == '.');
            assert(head[11 + n] == other[n]);
            assert(other[n] != '.');
        } else if k < n {
            assert(head[11 + k] == '.');
            assert(path[11 + k] == category[k]);
            assert(category[k] != '.');
        } else {
            assert forall|j: int| 0 <= j < n implies category[j] == other[j] by {
                assert(path[11 + j] == category[j]);
                assert(head[11 + j] == other[j]);
            }
            assert(category =~= other);
        }
    }
}

/// What is said of a path: more than two labels on a truth value are warned of, unless
/// there is another reason against the path. A reason against it is given in its own
/// words. Where nothing speaks against it, a warning comes before the unit.
pub proof fn law_hints(e: PathEditor, plan: Result<Plan, Refusal>, boolean_leaf: bool)
    ensures
        ({
            let h = e.hint_for(plan, boolean_leaf);
            let many = e.options@.len() > 2 && boolean_leaf;
            let loses = decimal(e.options@.len()) + " labels → boolean loses info; use "@
                + mode_leaf_for(trimmed(e.buf@)) + " (string), or Enter for a truth table"@;
            match plan {
                Err(Refusal::Other { message }) => h == HintModel::Refuse(message@),
                Err(Refusal::Truth { message, .. }) => {
                    &&& many ==> h == HintModel::Warn(loses)
                    &&& !many ==> h == HintModel::Refuse(message@)
                },
                Ok(p) => {
                    let bare = !many && p.truth.keys().len() == 0;
                    &&& many ==> h == HintModel::Warn(loses)
                    &&& !many && !bare ==> h is Fine
                    &&& bare && p.warning is Some ==> h == HintModel::Warn(p.warning->0@)
                    &&& bare && p.warning is None && p.unit is None ==> h == HintModel::Fine(
                        "no unit: published as-is"@,
                    )
                    &&& bare && p.warning is None && p.unit is Some ==> h == HintModel::Fine(
                        "→ "@ + p.unit->0@ + " ("@ + p.conversion@ + ")"@,
                    )
                },
            }
        }),
{
}

/// Where labels become a truth value, it is said what each of them becomes, in the order of
/// the labels.
pub proof fn law_truth_table_is_told(
    e: PathEditor,
    plan: Plan,
    boolean_leaf: bool,
    keys: Seq<Seq<char>>,
    values: Seq<bool>,
    i: int,
)
    requires
        plan.truth.keys().len() > 0,
        e.options@.len() <= 2 || !boolean_leaf,
        0 <= i < keys.len(),
    ensures
        e.hint_for(Ok(plan), boolean_leaf) == HintModel::Fine(
            "boolean: "@ + join(table_words(plan.truth.keys(), plan.truth.values()), ", "@),
        ),
        table_words(keys, values).len() == keys.len(),
        values[i] ==> table_words(keys, values)[i] == keys[i] + "→"@ + "true"@,
        !values[i] ==> table_words(keys, values)[i] == keys[i] + "→"@ + "false"@,
{
}

/// The meanings are complete where no label is without one.
pub proof fn law_complete(e: PathEditor)
    ensures
        e.complete() <==> !(exists|i: int|
            0 <= i < e.options@.len() && !e.truth@.dom().contains((#[trigger] e.options@[i])@)),
{
    if !e.complete() {
        let i = choose|i: int|
            0 <= i < e.options@.len() && !e.truth@.dom().contains((#[trigger] e.options@[i])@);
        assert(!e.truth@.dom().contains(e.options@[i]@));
    }
}

/// What is planned and saved is the path but for white space around it, with everything else
/// as it stands in the editor.
pub proof fn law_entry(e: PathEditor, f: FieldMapping, r: PlanRequest)
    requires
        call_ensures(PathEditor::entry, (&e,), f),
        call_ensures(PathEditor::plan, (&e,), r),
    ensures
        f.path@ == trimmed(e.buf@) && f.invert == e.invert && f.truth@ == e.truth@,
        r.path@ == trimmed(e.buf@) && r.unit@ == e.unit@ && r.entry@ == f@,
        r.options@.len() == e.options@.len(),
        forall|i: int| 0 <= i < e.options@.len() ==> (#[trigger] r.options@[i])@ == e.options@[i]@,
{
    assert(views(r.options@).len() == views(e.options@).len());
    assert(f@ == r.entry@);
    assert(f@.path == f.path@);
    assert forall|i: int| 0 <= i < e.options@.len() implies (#[trigger] r.options@[i])@
        == e.options@[i]@ by {
        assert(views(r.options@)[i] == views(e.options@)[i]);
    }
}

/// A whole copy leaves in the file, for each of its targets, what belongs to that target:
/// its name, the instance it had or else the one proposed for it, and the paths of the source
/// with that instance in them. A device that is no target keeps its entry.
pub proof fn law_copy_to_targets(
    map: &mut Mapping,
    src: &DeviceMapping,
    targets: &Vec<CopyTarget>,
    r: (usize, usize),
    i: int,
    key: Seq<char>,
    other: Seq<char>,
)
    requires
        call_ensures(copy_to_targets, (map, src, targets), r),
        0 <= i < targets@.len(),
        forall|j: int, k: int|
            0 <= j < k < targets@.len() ==> (#[trigger] targets@[j]).serial@ != (
            #[trigger] targets@[k]).serial@,
        forall|j: int| 0 <= j < targets@.len() ==> (#[trigger] targets@[j]).serial@ != other,
    ensures
        ({
            let t = targets@[i]@;
            let d = final(map)@[t.serial];
            let to = instance_in_use(old(map)@, t);
            let path = src@.fields[key].path;
            &&& final(map)@.dom().contains(t.serial)
            &&& d.name == t.name && d.article == t.article && d.firmware == t.firmware
            &&& d.instance == to
            &&& goes_over(src@, t, to, key) ==> d.fields.dom().contains(key) && d.fields[key].path
                == readdressed(path, device_segment(path, src@.instance), to)
        }),
        final(map)@.dom().contains(other) == old(map)@.dom().contains(other),
        old(map)@.dom().contains(other) ==> final(map)@[other] == old(map)@[other],
        r.0 + r.1 == targets@.len() * src.fields.keys().len(),
{
    let ts = targets_of(targets@);
    assert forall|j: int| 0 <= j < ts.len() implies ts[j] == targets@[j]@ by {}
    assert forall|j: int, k: int| 0 <= j < k < ts.len() implies (#[trigger] ts[j]).serial != (
    #[trigger] ts[k]).serial by {
        assert(targets@[j].serial@ != targets@[k].serial@);
    }
    assert forall|j: int| 0 <= j < ts.len() implies (#[trigger] ts[j]).serial != other by {
        assert(targets@[j].serial@ != other);
    }
    law_each_target_gets_its_own(old(map)@, src@, ts, i, key);
    law_copy_leaves_others(old(map)@, src@, ts, other);
}

} // verus!
