//! What the service streams and tells, path by path: which fields pass the file that turns
//! groups on and off, which value of a path goes out, and what is told of units and devices.

use vstd::prelude::*;

use crate::discovery::{
    address, entry_is_of, law_device_place, law_published_value, publication, rec_models,
    DeviceMetaRec, DeviceRecModel, FieldRec, RecModel,
};
use crate::gate::{
    all_lines, file_text, group_key, group_lines, instance_lines, is_enabled, line_entry, menu,
    menu_key, preamble, with_instance, with_instances, with_line, with_lines,
};
use crate::mapper::{last_segment, leaf_unit, mapped, nodes};
use crate::publication::{ConfigModel, FieldModel, PublicationConfig};
use crate::sidecar::{
    all_values, announce, announcements, chosen_values, coalesce, device_record, enabled_nodes,
    field_record, fields_of, finish_cycle, framed, is_streamed, latest_of, node_values, outcome,
    pair_models, passes, rec_at, static_meta, streamed, untold, wait_step, Outgoing, Update,
    Waiting,
};
use crate::signalk::path_node;
use crate::slug::{device_class, device_instance, sanitized};
use crate::strmap::StrMap;
use crate::text::{find, join, lacks, lemma_find, lemma_find_unique, lowered, split, trimmed};
use crate::value::{BusValue, Published, PublishedModel};

verus! {

// ---- groups that are on -----------------------------------------------------------------

/// A group is published as the line for `<instance>.monitoring.<group>` says, without that
/// as the line for `<instance>.monitoring` says, and without either only where it is the
/// group `cluster`.
pub proof fn law_gate_decides(
    map: Map<Seq<char>, bool>,
    instance: Seq<char>,
    group: Seq<char>,
)
    ensures
        ({
            let of_menu = instance + ".monitoring"@;
            let of_group = instance + ".monitoring."@ + group;
            &&& map.dom().contains(of_group) ==> is_enabled(map, instance, menu(), group)
                == map[of_group]
            &&& !map.dom().contains(of_group) && map.dom().contains(of_menu) ==> is_enabled(
                map,
                instance,
                menu(),
                group,
            ) == map[of_menu]
            &&& !map.dom().contains(of_group) && !map.dom().contains(of_menu) ==> is_enabled(
                map,
                instance,
                menu(),
                group,
            ) == (group == "cluster"@)
        }),
{
    lemma_keys(instance, group);
}

proof fn lemma_keys(instance: Seq<char>, group: Seq<char>)
    ensures
        menu_key(instance, menu()) == instance + ".monitoring"@,
        group_key(instance, menu(), group) == instance + ".monitoring."@ + group,
{
    reveal_strlit(".");
    reveal_strlit("monitoring");
    reveal_strlit(".monitoring");
    reveal_strlit(".monitoring.");
    assert("."@ + "monitoring"@ =~= ".monitoring"@);
    assert("."@ + "monitoring"@ + "."@ =~= ".monitoring."@);
    assert(instance + "."@ + "monitoring"@ =~= instance + ("."@ + "monitoring"@));
    assert(instance + "."@ + "monitoring"@ + "."@ + group =~= instance + ("."@ + "monitoring"@
        + "."@) + group);
}

/// A line turns a key on or off: the key stands before the first `=`, and what stands behind
/// it is on where it is `true`, `1`, `yes` or `on`, in whatever letters, and off otherwise.
/// Blank lines, comments and lines without `=` say nothing.
pub proof fn law_lines_are_read(l: Seq<char>, key: Seq<char>, value: Seq<char>)
    ensures
        trimmed(l).len() == 0 ==> line_entry(l) is None,
        trimmed(l).len() > 0 && trimmed(l)[0] == '#' ==> line_entry(l) is None,
        lacks(trimmed(l), '=') ==> line_entry(l) is None,
        trimmed(l) == key + seq!['='] + value && lacks(key, '=') && (key.len() > 0 ==> key[0]
            != '#') ==> {
            let word = lowered(trimmed(value));
            line_entry(l) == Some(
                (
                    trimmed(key),
                    word == "true"@ || word == "1"@ || word == "yes"@ || word == "on"@,
                ),
            )
        },
{
    let t = trimmed(l);
    lemma_find(t, '=');
    if lacks(t, '=') && find(t, '=') < t.len() {
        assert(t[find(t, '=')] == '=');
    }
    if t == key + seq!['='] + value && lacks(key, '=') {
        assert(t[key.len() as int] == '=');
        assert forall|i: int| 0 <= i < key.len() implies t[i] != '=' by {
            assert(t[i] == key[i]);
        }
        lemma_find_unique(t, '=', key.len() as int);
        assert(t.take(key.len() as int) =~= key);
        assert(t.skip(key.len() as int + 1) =~= value);
    }
}

/// The last line for a key counts, and what no line speaks of stays.
pub proof fn law_last_line_counts(
    map: Map<Seq<char>, bool>,
    lines: Seq<Seq<char>>,
    key: Seq<char>,
    i: int,
)
    ensures
        ({
            let now = with_lines(map, lines);
            let says = |l: Seq<char>| line_entry(l) is Some && (line_entry(l)->0).0 == key;
            &&& 0 <= i < lines.len() && says(lines[i]) && (forall|j: int|
                i < j < lines.len() ==> !says(#[trigger] lines[j])) ==> now.dom().contains(key)
                && now[key] == (line_entry(lines[i])->0).1
            &&& (forall|j: int| 0 <= j < lines.len() ==> !says(#[trigger] lines[j]))
                ==> now.dom().contains(key) == map.dom().contains(key) && (map.dom().contains(key)
                ==> now[key] == map[key])
        }),
    decreases lines.len(),
{
    if lines.len() > 0 {
        let says = |l: Seq<char>| line_entry(l) is Some && (line_entry(l)->0).0 == key;
        let rest = lines.drop_first();
        let next = with_line(map, lines[0]);
        law_last_line_counts(next, rest, key, i - 1);
        assert forall|j: int| 0 <= j < rest.len() implies rest[j] == lines[j + 1] by {}
        if forall|j: int| 0 <= j < lines.len() ==> !says(#[trigger] lines[j]) {
            assert forall|j: int| 0 <= j < rest.len() implies !says(#[trigger] rest[j]) by {
                assert(!says(lines[j + 1]));
            }
            assert(!says(lines[0]));
        }
        if 0 <= i < lines.len() && says(lines[i]) && (forall|j: int|
            i < j < lines.len() ==> !says(#[trigger] lines[j])) {
            assert forall|j: int| i - 1 < j < rest.len() && 0 <= j implies !says(
                #[trigger] rest[j],
            ) by {
                assert(!says(lines[j + 1]));
            }
            if i == 0 {
                assert(forall|j: int| 0 <= j < rest.len() ==> !says(#[trigger] rest[j]));
            }
        }
    }
}

/// An instance that is added gets a line for its menu, which is off, and one for its group
/// `cluster` where it has one, which is on. Lines that are there stay as they are.
pub proof fn law_instance_is_added(
    map: Map<Seq<char>, bool>,
    instance: Seq<char>,
    groups: Seq<Seq<char>>,
    key: Seq<char>,
)
    ensures
        ({
            let now = with_instance(map, instance, groups);
            let of_menu = instance + ".monitoring"@;
            let of_cluster = instance + ".monitoring."@ + "cluster"@;
            let leads = groups.contains("cluster"@);
            &&& now.dom().contains(key) <==> map.dom().contains(key) || key == of_menu || (leads
                && key == of_cluster)
            &&& map.dom().contains(key) ==> now[key] == map[key]
            &&& !map.dom().contains(of_menu) ==> !now[of_menu]
            &&& leads && !map.dom().contains(of_cluster) ==> now[of_cluster]
        }),
{
    lemma_keys(instance, "cluster"@);
    reveal_strlit(".monitoring");
    reveal_strlit(".monitoring.");
    reveal_strlit("cluster");
    let (a, b) = (instance + ".monitoring"@, instance + ".monitoring."@ + "cluster"@);
    assert(a.len() < b.len());
}

/// Instances are added one after the other.
pub proof fn law_instances_in_turn(
    map: Map<Seq<char>, bool>,
    instances: Seq<Seq<char>>,
    groups: Seq<Seq<Seq<char>>>,
    instance: Seq<char>,
    own: Seq<Seq<char>>,
)
    ensures
        with_instances(map, seq![], seq![]) == map,
        with_instances(map, instances.push(instance), groups.push(own)) == with_instance(
            with_instances(map, instances, groups),
            instance,
            own,
        ),
{
    assert(instances.push(instance).drop_last() =~= instances);
    assert(groups.push(own).drop_last() =~= groups);
}

// ---- fields that are streamed ----------------------------------------------------------

/// The fields that are streamed are those whose group is on, in their order; all of them
/// where there is no file.
pub proof fn law_streamed(recs: Seq<RecModel>, gate: Option<Map<Seq<char>, bool>>)
    ensures
        gate is None ==> streamed(recs, gate) == recs,
        gate matches Some(map) ==> streamed(recs, gate) == recs.filter(
            |r: RecModel| is_enabled(map, r.instance, "monitoring"@, r.group),
        ),
    decreases recs.len(),
{
    if recs.len() > 0 {
        law_streamed(recs.drop_last(), gate);
        assert(recs =~= recs.drop_last().push(recs.last()));
    }
    match gate {
        Some(map) => {
            let keep = |r: RecModel| is_enabled(map, r.instance, "monitoring"@, r.group);
            reveal(Seq::filter);
            if recs.len() > 0 {
                assert(passes(gate, recs.last()) == keep(recs.last()));
            } else {
                assert(recs =~= recs.filter(keep));
            }
        },
        None => {},
    }
}

/// What is subscribed to of a device are the numbers of its fields that are streamed, in
/// their order.
pub proof fn law_fields_of_a_device(recs: Seq<RecModel>, device: nat)
    ensures
        fields_of(recs, device) == recs.filter(|r: RecModel| r.device == device).map_values(
            |r: RecModel| r.index,
        ),
    decreases recs.len(),
{
    let keep = |r: RecModel| r.device == device;
    let number = |r: RecModel| r.index;
    reveal(Seq::filter);
    if recs.len() > 0 {
        law_fields_of_a_device(recs.drop_last(), device);
        let head = recs.drop_last().filter(keep);
        assert(head.push(recs.last()).map_values(number) =~= head.map_values(number).push(
            recs.last().index,
        ));
    } else {
        assert(fields_of(recs, device) =~= recs.filter(keep).map_values(number));
    }
}

/// A value belongs to the last field found with its device and its number.
pub proof fn law_value_belongs(recs: Seq<RecModel>, device: nat, index: nat, i: int)
    ensures
        0 <= i < recs.len() && recs[i].device == device && recs[i].index == index && (forall|
            j: int,
        |
            i < j < recs.len() ==> (#[trigger] recs[j]).device != device || recs[j].index != index)
            ==> rec_at(recs, device, index) == Some(i),
        (forall|j: int|
            0 <= j < recs.len() ==> (#[trigger] recs[j]).device != device || recs[j].index
                != index) ==> rec_at(recs, device, index) is None,
    decreases recs.len(),
{
    if recs.len() > 0 {
        let rest = recs.drop_last();
        let n = rest.len() as int;
        law_value_belongs(rest, device, index, i);
        assert(recs.last() == recs[n]);
        assert forall|j: int| 0 <= j < n implies rest[j] == recs[j] by {}
        if forall|j: int|
            0 <= j < recs.len() ==> (#[trigger] recs[j]).device != device || recs[j].index
                != index {
            assert forall|j: int| 0 <= j < n implies (#[trigger] rest[j]).device != device
                || rest[j].index != index by {
                assert(recs[j].device != device || recs[j].index != index);
            }
        }
        if 0 <= i < n && (forall|j: int|
            i < j < recs.len() ==> (#[trigger] recs[j]).device != device || recs[j].index
                != index) {
            assert(recs[n].device != device || recs[n].index != index);
            assert forall|j: int| i < j < n implies (#[trigger] rest[j]).device != device
                || rest[j].index != index by {
                assert(recs[j].device != device || recs[j].index != index);
            }
        }
    }
}

/// Where an update goes, and with which value, if it goes anywhere.
pub open spec fn lands(
    policy: Option<Seq<FieldModel>>,
    recs: Seq<RecModel>,
    u: Update,
) -> Option<(Seq<char>, PublishedModel)> {
    match rec_at(recs, u.device as nat, u.field as nat) {
        Some(i) => match policy {
            Some(fields) => publication(fields, recs[i], u.value),
            None => {
                let r = recs[i];
                mapped(r.class, r.instance, r.group, r.name, r.unit, u.value)
            },
        },
        None => None,
    }
}

/// Of each path the last value counts, and a path that no update goes to has none.
pub proof fn law_last_update_counts(
    policy: Option<Seq<FieldModel>>,
    recs: Seq<RecModel>,
    updates: Seq<Update>,
    path: Seq<char>,
    i: int,
)
    ensures
        ({
            let latest = latest_of(policy, recs, updates);
            let goes = |u: Update|
                lands(policy, recs, u) is Some && (lands(policy, recs, u)->0).0 == path;
            &&& 0 <= i < updates.len() && goes(updates[i]) && (forall|j: int|
                i < j < updates.len() ==> !goes(#[trigger] updates[j])) ==> latest.dom().contains(
                path,
            ) && latest[path] == (lands(policy, recs, updates[i])->0).1
            &&& (forall|j: int| 0 <= j < updates.len() ==> !goes(#[trigger] updates[j]))
                ==> !latest.dom().contains(path)
        }),
    decreases updates.len(),
{
    if updates.len() > 0 {
        let goes = |u: Update|
            lands(policy, recs, u) is Some && (lands(policy, recs, u)->0).0 == path;
        let rest = updates.drop_last();
        let n = rest.len() as int;
        law_last_update_counts(policy, recs, rest, path, i);
        assert(updates.last() == updates[n]);
        assert forall|j: int| 0 <= j < n implies rest[j] == updates[j] by {}
        if forall|j: int| 0 <= j < updates.len() ==> !goes(#[trigger] updates[j]) {
            assert forall|j: int| 0 <= j < n implies !goes(#[trigger] rest[j]) by {
                assert(!goes(updates[j]));
            }
            assert(!goes(updates[n]));
        }
        if 0 <= i < n && (forall|j: int| i < j < updates.len() ==> !goes(#[trigger] updates[j])) {
            assert(!goes(updates[n]));
            assert forall|j: int| i < j < n implies !goes(#[trigger] rest[j]) by {
                assert(!goes(updates[j]));
            }
        }
    }
}

/// With a field configuration, the value of an enabled field goes to the path of its entry.
pub proof fn law_enabled_fields_are_streamed(
    fields: Seq<FieldModel>,
    i: int,
    r: RecModel,
    value: BusValue,
    v: PublishedModel,
)
    requires
        entry_is_of(fields, i, r),
        fields[i].enabled,
        mapped(r.class, r.instance, r.group, r.name, r.unit, value) matches Some((_, w)) && w == v,
    ensures
        outcome(Some(fields), r, value) == Some((fields[i].path, v)),
        outcome(None, r, value) matches Some((_, w)) && w == v,
{
    law_published_value(fields, i, r, value);
}

// ---- units and devices -------------------------------------------------------------------

/// The unit of the values at a path goes by the last segment of the path.
pub proof fn law_units(path: Seq<char>)
    ensures
        ({
            let leaf = split(path, '.').last();
            leaf_unit(last_segment(path)) == if leaf == "stateOfCharge"@ || leaf
                == "currentLimitRatio"@ || leaf == "backlight"@ {
                Some("ratio"@)
            } else if leaf == "timeRemaining"@ || leaf == "remaining"@ || leaf == "standbyTime"@
                || leaf == "pageDuration"@ {
                Some("s"@)
            } else if leaf == "dischargeSinceFull"@ {
                Some("C"@)
            } else if leaf == "temperature"@ {
                Some("K"@)
            } else if leaf == "voltage"@ || leaf == "voltageSense"@ || leaf == "senseVoltage"@
                || leaf == "altVoltage"@ {
                Some("V"@)
            } else if leaf == "current"@ || leaf == "currentLimit"@ || leaf == "fieldCurrent"@
                || leaf == "mainsFuse"@ {
                Some("A"@)
            } else if leaf == "power"@ || leaf == "solarInput"@ {
                Some("W"@)
            } else if leaf == "frequency"@ || leaf == "revolutions"@ {
                Some("Hz"@)
            } else {
                None
            }
        }),
{
}

/// The nodes of a device are those of the categories of its class, under its instance.
pub proof fn law_nodes(class: Seq<char>, id: Seq<char>)
    ensures
        ({
            let own = "electrical.masterbus."@ + id;
            nodes(class, id) == if class == "BAT"@ || class == "MSH"@ {
                seq!["electrical.batteries."@ + id, own]
            } else if class == "CMR"@ || class == "MCU"@ {
                seq!["electrical.inverters."@ + id, "electrical.chargers."@ + id, own]
            } else if class == "MAC"@ || class == "INT"@ || class == "CHG"@ {
                seq!["electrical.chargers."@ + id, own]
            } else if class == "APR"@ {
                seq!["electrical.alternators."@ + id, own]
            } else if class == "DIS"@ {
                seq![own]
            } else {
                seq![]
            }
        }),
{
    let n = nodes(class, id);
    let own = "electrical.masterbus."@ + id;
    if class == "BAT"@ || class == "MSH"@ {
        assert(n =~= seq!["electrical.batteries."@ + id, own]);
    } else if class == "CMR"@ || class == "MCU"@ {
        assert(n =~= seq!["electrical.inverters."@ + id, "electrical.chargers."@ + id, own]);
    } else if class == "MAC"@ || class == "INT"@ || class == "CHG"@ {
        assert(n =~= seq!["electrical.chargers."@ + id, own]);
    } else if class == "APR"@ {
        assert(n =~= seq!["electrical.alternators."@ + id, own]);
    } else if class == "DIS"@ {
        assert(n =~= seq![own]);
    } else {
        assert(n =~= seq![]);
    }
}

/// The units that are told are those of the paths that have one and were not told before,
/// each with its path and in their order.
pub proof fn law_announcements(sent: Set<Seq<char>>, paths: Seq<Seq<char>>)
    ensures
        announcements(sent, paths) == paths.filter(
            |p: Seq<char>| !sent.contains(p) && leaf_unit(split(p, '.').last()) is Some,
        ).map_values(|p: Seq<char>| (p, leaf_unit(split(p, '.').last())->0)),
    decreases paths.len(),
{
    let keep = |p: Seq<char>| !sent.contains(p) && leaf_unit(split(p, '.').last()) is Some;
    let told = |p: Seq<char>| (p, leaf_unit(split(p, '.').last())->0);
    reveal(Seq::filter);
    if paths.len() > 0 {
        law_announcements(sent, paths.drop_last());
        let head = paths.drop_last().filter(keep);
        assert(head.push(paths.last()).map_values(told) =~= head.map_values(told).push(
            told(paths.last()),
        ));
    } else {
        assert(announcements(sent, paths) =~= paths.filter(keep).map_values(told));
    }
}

/// At a node a device is told by its name, its maker and its model, in this order: the name
/// and the model where there is one, the maker where it is asked for.
pub proof fn law_told_at_a_node(node: Seq<char>, name: Seq<char>, maker: bool, article: Seq<char>)
    ensures
        node_values(node, name, maker, article) == (if name.len() > 0 {
            seq![(node + ".name"@, name)]
        } else {
            seq![]
        }) + (if maker {
            seq![(node + ".manufacturer.name"@, "Mastervolt"@)]
        } else {
            seq![]
        }) + (if article.len() > 0 {
            seq![(node + ".manufacturer.model"@, article)]
        } else {
            seq![]
        }),
{
    let all = node_values(node, name, maker, article);
    let a = if name.len() > 0 {
        seq![(node + ".name"@, name)]
    } else {
        seq![]
    };
    let b = if maker {
        seq![(node + ".manufacturer.name"@, "Mastervolt"@)]
    } else {
        seq![]
    };
    let c = if article.len() > 0 {
        seq![(node + ".manufacturer.model"@, article)]
    } else {
        seq![]
    };
    assert(all =~= a + b + c);
}

/// A device is told of at one node after the other.
pub proof fn law_told_in_turn(
    at: Seq<Seq<char>>,
    node: Seq<char>,
    name: Seq<char>,
    maker: bool,
    article: Seq<char>,
)
    ensures
        all_values(seq![], name, maker, article).len() == 0,
        all_values(at.push(node), name, maker, article) == all_values(at, name, maker, article)
            + node_values(node, name, maker, article),
{
    assert(at.push(node).drop_last() =~= at);
}

/// The nodes of the enabled fields of a device: each node of one of them is there, nothing
/// else is, and none is there twice.
pub proof fn law_enabled_nodes(fields: Seq<FieldModel>, device: Seq<char>, node: Seq<char>)
    ensures
        enabled_nodes(fields, device).contains(node) <==> exists|i: int|
            0 <= i < fields.len() && (#[trigger] fields[i]).enabled && fields[i].device == device
                && path_node(fields[i].path) == Some(node),
        enabled_nodes(fields, device).no_duplicates(),
    decreases fields.len(),
{
    if fields.len() > 0 {
        let rest = fields.drop_last();
        let f = fields.last();
        let n = rest.len() as int;
        law_enabled_nodes(rest, device, node);
        assert(fields[n] == f);
        assert forall|i: int| 0 <= i < n implies rest[i] == fields[i] by {}
        let head = enabled_nodes(rest, device);
        let all = enabled_nodes(fields, device);
        let wanted = exists|i: int|
            0 <= i < fields.len() && (#[trigger] fields[i]).enabled && fields[i].device == device
                && path_node(fields[i].path) == Some(node);
        if wanted {
            let i = choose|i: int|
                0 <= i < fields.len() && (#[trigger] fields[i]).enabled && fields[i].device
                    == device && path_node(fields[i].path) == Some(node);
            if i < n {
                assert(rest[i].enabled);
                assert(head.contains(node));
                let k = head.index_of(node);
                assert(all[k] == node);
            } else if head.contains(node) {
                let k = head.index_of(node);
                assert(all[k] == node);
            } else {
                assert(all == head.push(node));
                assert(all[head.len() as int] == node);
            }
        }
        if all.contains(node) {
            let k = all.index_of(node);
            if k < head.len() {
                assert(head[k] == node);
                let i = choose|i: int|
                    0 <= i < rest.len() && (#[trigger] rest[i]).enabled && rest[i].device == device
                        && path_node(rest[i].path) == Some(node);
                assert(fields[i].enabled);
            } else {
                assert(fields[n].enabled);
            }
        }
    }
}

/// What is told of a device goes by its own entry: the name, the maker and the model are
/// told where the entry says so, at the nodes of its enabled fields.
pub proof fn law_chosen_values(cfg: ConfigModel, d: DeviceRecModel, i: int)
    requires
        0 <= i < cfg.devices.len(),
        cfg.devices[i].device == address(d.device),
        forall|j: int| 0 <= j < i ==> (#[trigger] cfg.devices[j]).device != address(d.device),
    ensures
        ({
            let e = cfg.devices[i];
            let at = enabled_nodes(cfg.fields, address(d.device));
            chosen_values(cfg, d) == all_values(
                at,
                if e.publish_name {
                    d.name
                } else {
                    seq![]
                },
                e.publish_manufacturer_name,
                if e.publish_model {
                    d.article
                } else {
                    seq![]
                },
            )
        }),
{
    law_device_place(cfg.devices, address(d.device), i);
}

/// Every line is followed by the end of a line.
pub proof fn law_lines_are_framed(lines: Seq<Seq<u8>>, l: Seq<u8>)
    ensures
        framed(seq![]).len() == 0,
        framed(lines.push(l)) == framed(lines) + l + seq![10u8],
{
    assert(lines.push(l).drop_last() =~= lines);
}

/// A device has a field that is streamed exactly where there is something to subscribe to.
pub proof fn law_streamed_devices(recs: Seq<RecModel>, device: nat)
    ensures
        is_streamed(recs, device) <==> fields_of(recs, device).len() > 0,
    decreases recs.len(),
{
    if recs.len() > 0 {
        let rest = recs.drop_last();
        let n = rest.len() as int;
        law_streamed_devices(rest, device);
        assert(recs[n] == recs.last());
        if is_streamed(rest, device) {
            let i = choose|i: int| 0 <= i < rest.len() && (#[trigger] rest[i]).device == device;
            assert(recs[i].device == device);
        }
        if is_streamed(recs, device) {
            let i = choose|i: int| 0 <= i < recs.len() && (#[trigger] recs[i]).device == device;
            if i < n {
                assert(rest[i].device == device);
            }
        }
    }
}

/// The file that turns groups on and off names the groups of an instance in a comment; then
/// come the line of its menu, those of its groups that are in the file, and an empty line.
pub proof fn law_lines_of_an_instance(
    map: Map<Seq<char>, bool>,
    instance: Seq<char>,
    groups: Seq<Seq<char>>,
    group: Seq<char>,
)
    ensures
        instance_lines(map, instance, groups) == "# "@ + instance + " — groups: "@ + join(
            groups,
            ", "@,
        ) + "\n"@ + (instance + ".monitoring"@ + " = "@ + (if map.dom().contains(
            instance + ".monitoring"@,
        ) && map[instance + ".monitoring"@] {
            "true"@
        } else {
            "false"@
        }) + "\n"@) + group_lines(map, instance, groups) + "\n"@,
        group_lines(map, instance, seq![]).len() == 0,
        ({
            let key = instance + ".monitoring."@ + group;
            group_lines(map, instance, groups.push(group)) == if map.dom().contains(key) {
                group_lines(map, instance, groups) + (key + " = "@ + (if map[key] {
                    "true"@
                } else {
                    "false"@
                }) + "\n"@)
            } else {
                group_lines(map, instance, groups)
            }
        }),
{
    lemma_keys(instance, group);
    assert(groups.push(group).drop_last() =~= groups);
}

/// The file is its preamble and the lines of the instances, one after the other.
pub proof fn law_file_of_instances(
    map: Map<Seq<char>, bool>,
    instances: Seq<Seq<char>>,
    groups: Seq<Seq<Seq<char>>>,
    instance: Seq<char>,
    own: Seq<Seq<char>>,
)
    ensures
        file_text(map, instances.push(instance), groups.push(own)) == file_text(
            map,
            instances,
            groups,
        ) + instance_lines(map, instance, own),
        file_text(map, seq![], seq![]) == preamble(),
{
    assert(instances.push(instance).drop_last() =~= instances);
    assert(groups.push(own).drop_last() =~= groups);
    let (a, b) = (all_lines(map, instances, groups), instance_lines(map, instance, own));
    assert(preamble() + (a + b) =~= preamble() + a + b);
    assert(preamble() + Seq::<char>::empty() =~= preamble());
}

// ---- what the functions themselves promise ------------------------------------------------

/// Devices have ten seconds to announce themselves, and a change of their number is seen.
pub proof fn law_waiting_for_devices(count: usize, last_count: usize, elapsed_ms: u64, w: Waiting)
    requires
        call_ensures(wait_step, (count, last_count, elapsed_ms), w),
    ensures
        w.done <==> elapsed_ms >= 10 * 1000,
        w.changed <==> count != last_count,
{
}

/// What is known of a device comes from its name, and what is known of its fields from the
/// device, with the group as a segment.
pub proof fn law_records(
    device: u32,
    name: String,
    article: String,
    d: DeviceMetaRec,
    group: &str,
    index: u16,
    field: String,
    unit: String,
    r: FieldRec,
)
    requires
        call_ensures(device_record, (device, name, article), d),
        call_ensures(field_record, (&d, group, index, field, unit), r),
    ensures
        d.device == device && d.name@ == name@ && d.article@ == article@,
        d.class@ == device_class(name@) && d.instance@ == device_instance(name@, device as nat),
        r.device == device && r.index == index && r.name@ == field@ && r.unit@ == unit@,
        r.class@ == d.class@ && r.instance@ == d.instance@ && r.group@ == sanitized(group@),
{
}

/// A cycle sends the line with units, if there is one, and then the lines with values. A
/// client that comes later gets the line with units.
pub proof fn law_cycle(units: Option<Vec<u8>>, values: &Vec<Vec<u8>>, out: Outgoing)
    requires
        call_ensures(finish_cycle, (units, values), out),
    ensures
        out.batch@ == out.replay@ + framed(values@.map_values(|l: Vec<u8>| l@)),
        units is None ==> out.replay@.len() == 0,
        units matches Some(u) ==> out.replay@ == u@.push(10u8),
{
    let lines = framed(values@.map_values(|l: Vec<u8>| l@));
    match units {
        Some(u) => {
            assert(u@ + seq![10u8] =~= u@.push(10u8));
        },
        None => {
            assert(Seq::<u8>::empty() + lines =~= lines);
        },
    }
}

/// While nobody listens nothing goes out.
pub proof fn law_nobody_listens(
    cfg: Option<&PublicationConfig>,
    recs: &Vec<FieldRec>,
    updates: &Vec<Update>,
    latest: StrMap<Published>,
    path: Seq<char>,
)
    requires
        call_ensures(coalesce, (false, cfg, recs, updates), latest),
    ensures
        !latest@.dom().contains(path),
{
}

/// Without a field configuration, a device with a field that is streamed is told of at the
/// nodes of its class, with its maker, and no other device is told of.
pub proof fn law_told_in_open_mode(
    d: &DeviceMetaRec,
    recs: &Vec<FieldRec>,
    out: Vec<(String, String)>,
)
    requires
        call_ensures(static_meta, (d, recs), out),
    ensures
        fields_of(rec_models(recs@), d.device as nat).len() == 0 ==> out@.len() == 0,
        fields_of(rec_models(recs@), d.device as nat).len() > 0 ==> {
            let told = out@.map_values(|p: (String, String)| (p.0@, p.1@));
            told == all_values(nodes(d.class@, d.instance@), d.name@, true, d.article@)
        },
{
    law_streamed_devices(rec_models(recs@), d.device as nat);
    let told = out@.map_values(|p: (String, String)| (p.0@, p.1@));
    assert(pair_models(out@) =~= told);
    assert(pair_models(out@).len() == out@.len());
}

/// Units are told once: telling those of the same paths again tells none.
pub proof fn law_units_are_not_told_again(
    latest: &StrMap<Published>,
    sent: &mut StrMap<()>,
    again: &mut StrMap<()>,
    first: Vec<(String, String)>,
    second: Vec<(String, String)>,
)
    requires
        call_ensures(announce, (latest, sent), first),
        call_ensures(announce, (latest, again), second),
        old(again)@ == final(sent)@,
        latest.well_formed(),
    ensures
        second@.len() == 0,
{
    let told = final(sent)@.dom();
    assert forall|p: Seq<char>| latest.keys().contains(p) implies !untold(told, p) by {
        let i = latest.keys().index_of(p);
        assert(latest@.dom().contains(latest.keys()[i]));
        assert(final(sent)@.dom().contains(p) || leaf_unit(last_segment(p)) is None);
    }
    lemma_nothing_to_tell(told, latest.keys());
    assert(pair_models(second@).len() == second@.len());
}

proof fn lemma_nothing_to_tell(sent: Set<Seq<char>>, paths: Seq<Seq<char>>)
    requires
        forall|p: Seq<char>| paths.contains(p) ==> !untold(sent, p),
    ensures
        announcements(sent, paths).len() == 0,
    decreases paths.len(),
{
    if paths.len() > 0 {
        let rest = paths.drop_last();
        assert forall|p: Seq<char>| rest.contains(p) implies !untold(sent, p) by {
            let i = rest.index_of(p);
            assert(paths[i] == p);
        }
        assert(paths[paths.len() - 1] == paths.last());
        lemma_nothing_to_tell(sent, rest);
    }
}

} // verus!
