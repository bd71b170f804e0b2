//! What the Signal K service decides: which fields it subscribes to, what it publishes
//! of the values that come in, and what it tells each client once.

use vstd::prelude::*;

use crate::discovery::{
    address, address_text, device_at, find_device, law_published_means_enabled, publication,
    publish, rec_models, DeviceMetaRec, DeviceRecModel, FieldRec, RecModel,
};
use crate::gate::{enabled, is_enabled, menu, Groups};
use crate::mapper::{last_segment, leaf_unit, map_field, mapped, nodes, sk_bases, sk_units};
use crate::publication::{ConfigModel, FieldModel, PublicationConfig};
use crate::signalk::{node_of, path_node};
use crate::slug::{class_of, device_class, device_instance, instance_of, sanitize, sanitized};
use crate::strmap::StrMap;
use crate::text::{cat, push_text, same, views};
use crate::value::{Published, PublishedModel, BusValue};

verus! {

// ---- what is found -----------------------------------------------------------------

/// How many milliseconds devices have to announce themselves.
pub const DISCOVERY_MS: u64 = 10_000;

/// What to do while devices announce themselves.
#[derive(Debug, Clone, Copy, PartialEq, Eq, Structural)]
pub struct Waiting {
    /// The number of devices has changed.
    pub changed: bool,
    /// The time is over.
    pub done: bool,
}

/// One look at the devices while they announce themselves.
pub fn wait_step(count: usize, last_count: usize, elapsed_ms: u64) -> (w: Waiting)
    ensures
        w.changed == (count != last_count),
        w.done == (elapsed_ms >= 10_000),
{
    Waiting { changed: count != last_count, done: elapsed_ms >= DISCOVERY_MS }
}

/// What is known of a device from its number, its name and its article number.
pub fn device_record(device: u32, name: String, article: String) -> (r: DeviceMetaRec)
    ensures
        r@ == (DeviceRecModel {
            device: device as nat,
            class: device_class(name@),
            instance: device_instance(name@, device as nat),
            name: name@,
            article: article@,
        }),
{
    DeviceMetaRec {
        device,
        class: class_of(name.as_str()),
        instance: instance_of(name.as_str(), device),
        name,
        article,
    }
}

/// What is known of a field of a device. The name of its group is sanitized.
pub fn field_record(
    device: &DeviceMetaRec,
    group: &str,
    index: u16,
    name: String,
    unit: String,
) -> (r: FieldRec)
    ensures
        r@ == (RecModel {
            device: device.device as nat,
            index: index as nat,
            class: device.class@,
            instance: device.instance@,
            group: sanitized(group@),
            name: name@,
            unit: unit@,
        }),
{
    FieldRec {
        device: device.device,
        index,
        class: device.class.clone(),
        instance: device.instance.clone(),
        group: sanitize(group),
        name,
        unit,
    }
}

/// The groups of each instance.
pub open spec fn group_sets(groups: Map<Seq<char>, StrMap<()>>) -> Map<Seq<char>, Set<Seq<char>>> {
    groups.map_values(|g: StrMap<()>| g@.dom())
}

/// Notes a group of an instance.
pub fn note_group(groups: &mut Groups, instance: &str, group: &str)
    ensures
        ({
            let (old_sets, new_sets) = (group_sets(old(groups)@), group_sets(final(groups)@));
            let had = if old_sets.dom().contains(instance@) {
                old_sets[instance@]
            } else {
                Set::empty()
            };
            new_sets == old_sets.insert(instance@, had.insert(sanitized(group@)))
        }),
{
    let ghost before = group_sets(groups@);
    let mut own: StrMap<()> = match groups.remove(instance) {
        Some(g) => g,
        None => StrMap::new(),
    };
    let ghost had = own@.dom();
    own.insert(sanitize(group), ());
    let ghost now = own@.dom();
    assert(now =~= had.insert(sanitized(group@)));
    groups.insert(instance.to_owned(), own);
    assert(group_sets(groups@) =~= before.insert(instance@, now));
    assert(before.dom().contains(instance@) ==> before[instance@] == had);
    assert(!before.dom().contains(instance@) ==> had =~= Set::empty());
}

// ---- which fields are streamed -------------------------------------------------------

/// Whether a field passes the file that turns menus and groups on and off. Without such
/// a file every field does.
pub open spec fn passes(gate: Option<Map<Seq<char>, bool>>, r: RecModel) -> bool {
    match gate {
        Some(m) => is_enabled(m, r.instance, menu(), r.group),
        None => true,
    }
}

/// What a file that turns menus and groups on and off holds.
pub open spec fn gate_of(gate: Option<&StrMap<bool>>) -> Option<Map<Seq<char>, bool>> {
    match gate {
        Some(m) => Some(m@),
        None => None,
    }
}

/// The fields that are streamed.
pub open spec fn streamed(recs: Seq<RecModel>, gate: Option<Map<Seq<char>, bool>>) -> Seq<RecModel>
    decreases recs.len(),
{
    if recs.len() == 0 {
        recs
    } else {
        let head = streamed(recs.drop_last(), gate);
        if passes(gate, recs.last()) {
            head.push(recs.last())
        } else {
            head
        }
    }
}

impl FieldRec {
    /// Another value that holds the same.
    pub fn copied(&self) -> (r: FieldRec)
        ensures
            r@ == self@,
    {
        FieldRec {
            device: self.device,
            index: self.index,
            class: self.class.clone(),
            instance: self.instance.clone(),
            group: self.group.clone(),
            name: self.name.clone(),
            unit: self.unit.clone(),
        }
    }
}

/// The fields that are streamed, in the order in which they were found.
pub fn select_fields(recs: &Vec<FieldRec>, gate: Option<&StrMap<bool>>) -> (out: Vec<FieldRec>)
    ensures
        rec_models(out@) == streamed(rec_models(recs@), gate_of(gate)),
{
    let ghost m = rec_models(recs@);
    let ghost g = gate_of(gate);
    let mut out: Vec<FieldRec> = Vec::new();
    let mut i: usize = 0;
    assert(rec_models(out@) =~= m.take(0));
    while i < recs.len()
        invariant
            i <= recs@.len(),
            m == rec_models(recs@),
            g == gate_of(gate),
            rec_models(out@) == streamed(m.take(i as int), g),
        decreases recs@.len() - i,
    {
        let r = &recs[i];
        let ghost before = rec_models(out@);
        let on: bool = match gate {
            Some(map) => enabled(map, r.instance.as_str(), "monitoring", r.group.as_str()),
            None => true,
        };
        proof {
            let next = m.take(i as int + 1);
            assert(next.drop_last() =~= m.take(i as int));
            assert(next.last() == r@);
        }
        if on {
            let c = r.copied();
            let ghost v = c@;
            out.push(c);
            assert(rec_models(out@) =~= before.push(v));
        }
        i += 1;
    }
    assert(m.take(i as int) =~= m);
    out
}

/// A field is streamed exactly when it was found and its group is turned on.
pub proof fn law_streamed_fields_pass(
    recs: Seq<RecModel>,
    gate: Option<Map<Seq<char>, bool>>,
    r: RecModel,
)
    ensures
        streamed(recs, gate).contains(r) <==> recs.contains(r) && passes(gate, r),
    decreases recs.len(),
{
    if recs.len() > 0 {
        let (rest, last) = (recs.drop_last(), recs.last());
        law_streamed_fields_pass(rest, gate, r);
        let head = streamed(rest, gate);
        assert(recs =~= rest.push(last));
        lemma_push_contains(rest, last, r);
        lemma_push_contains(head, last, r);
    }
}

proof fn lemma_push_contains(s: Seq<RecModel>, x: RecModel, r: RecModel)
    ensures
        s.push(x).contains(r) <==> s.contains(r) || x == r,
{
    if s.contains(r) {
        let i = choose|i: int| 0 <= i < s.len() && s[i] == r;
        assert(s.push(x)[i] == r);
    }
    if x == r {
        assert(s.push(x)[s.len() as int] == r);
    }
    if s.push(x).contains(r) {
        let i = choose|i: int| 0 <= i < s.push(x).len() && s.push(x)[i] == r;
        assert(i < s.len() ==> s[i] == r);
    }
}

/// The fields of a device among those that are streamed.
pub open spec fn fields_of(recs: Seq<RecModel>, device: nat) -> Seq<nat>
    decreases recs.len(),
{
    if recs.len() == 0 {
        Seq::empty()
    } else {
        let head = fields_of(recs.drop_last(), device);
        if recs.last().device == device {
            head.push(recs.last().index)
        } else {
            head
        }
    }
}

/// The numbers of fields.
pub open spec fn numbers(v: Seq<u16>) -> Seq<nat> {
    Seq::new(v.len(), |i: int| v[i] as nat)
}

/// What to subscribe to: for each device that has a field that is streamed, all such
/// fields.
pub open spec fn covers(subs: Seq<(u32, Vec<u16>)>, recs: Seq<RecModel>) -> bool {
    &&& forall|i: int, j: int|
        0 <= i < j < subs.len() ==> (#[trigger] subs[i]).0 != (#[trigger] subs[j]).0
    &&& forall|i: int|
        0 <= i < subs.len() ==> numbers((#[trigger] subs[i]).1@) == fields_of(
            recs,
            subs[i].0 as nat,
        )
    &&& forall|i: int| 0 <= i < subs.len() ==> (#[trigger] subs[i]).1@.len() > 0
    &&& forall|k: int|
        0 <= k < recs.len() ==> exists|i: int|
            0 <= i < subs.len() && (#[trigger] subs[i]).0 == (#[trigger] recs[k]).device
}

/// What to subscribe to.
pub fn subscriptions(recs: &Vec<FieldRec>) -> (subs: Vec<(u32, Vec<u16>)>)
    ensures
        covers(subs@, rec_models(recs@)),
{
    let ghost m = rec_models(recs@);
    let mut subs: Vec<(u32, Vec<u16>)> = Vec::new();
    let mut i: usize = 0;
    while i < recs.len()
        invariant
            i <= recs@.len(),
            m == rec_models(recs@),
            covers(subs@, m.take(i as int)),
        decreases recs@.len() - i,
    {
        let (device, index) = (recs[i].device, recs[i].index);
        let ghost done = m.take(i as int);
        let ghost next = m.take(i as int + 1);
        let ghost before = subs@;
        proof {
            assert(next.drop_last() =~= done);
            assert(next.last() == recs@[i as int]@);
        }
        let mut at: usize = 0;
        while at < subs.len() && subs[at].0 != device
            invariant
                at <= subs@.len(),
                subs@ == before,
                forall|k: int| 0 <= k < at ==> (#[trigger] subs@[k]).0 != device,
            decreases subs@.len() - at,
        {
            at += 1;
        }
        if at < subs.len() {
            let mut own: Vec<u16> = Vec::new();
            std::mem::swap(&mut own, &mut subs[at].1);
            let ghost list = own@;
            own.push(index);
            assert(numbers(own@) =~= numbers(list).push(index as nat));
            subs[at].1 = own;
            assert(subs@[at as int].1@ == list.push(index));
        } else {
            let mut own: Vec<u16> = Vec::new();
            own.push(index);
            proof {
                lemma_no_fields(done, device as nat);
                assert(numbers(own@) =~= Seq::<nat>::empty().push(index as nat));
            }
            subs.push((device, own));
        }
        proof {
            assert forall|k: int| 0 <= k < subs@.len() implies numbers((#[trigger] subs@[k]).1@)
                == fields_of(next, subs@[k].0 as nat) by {
                if k != at {
                    assert(subs@[k] == before[k]);
                }
            }
            assert forall|k: int| 0 <= k < next.len() implies exists|j: int|
                0 <= j < subs@.len() && (#[trigger] subs@[j]).0 == (
                #[trigger] next[k]).device by {
                if k < i {
                    assert(next[k] == done[k]);
                    let j = choose|j: int|
                        0 <= j < before.len() && (#[trigger] before[j]).0 == done[k].device;
                    assert(subs@[j].0 == before[j].0);
                } else {
                    assert(subs@[at as int].0 == device);
                }
            }
        }
        i += 1;
    }
    assert(m.take(i as int) =~= m);
    subs
}

proof fn lemma_no_fields(recs: Seq<RecModel>, device: nat)
    requires
        forall|k: int| 0 <= k < recs.len() ==> (#[trigger] recs[k]).device != device,
    ensures
        fields_of(recs, device) == Seq::<nat>::empty(),
    decreases recs.len(),
{
    if recs.len() > 0 {
        let rest = recs.drop_last();
        assert forall|k: int| 0 <= k < rest.len() implies (#[trigger] rest[k]).device
            != device by {
            assert(rest[k] == recs[k]);
        }
        lemma_no_fields(rest, device);
        assert(recs.last() == recs[recs.len() - 1]);
    }
}

// ---- what is published of incoming values ----------------------------------------------

/// A value that came in.
pub struct Update {
    pub device: u32,
    pub field: u16,
    pub value: BusValue,
}

/// Where a field stands among those that are streamed; the last of them counts, where
/// there are several.
pub open spec fn rec_at(recs: Seq<RecModel>, device: nat, index: nat) -> Option<int>
    decreases recs.len(),
{
    if recs.len() == 0 {
        None
    } else if recs.last().device == device && recs.last().index == index {
        Some(recs.len() - 1)
    } else {
        rec_at(recs.drop_last(), device, index)
    }
}

proof fn lemma_rec_at(recs: Seq<RecModel>, device: nat, index: nat)
    ensures
        rec_at(recs, device, index) matches Some(i) ==> 0 <= i < recs.len() && recs[i].device
            == device && recs[i].index == index,
    decreases recs.len(),
{
    if recs.len() > 0 {
        lemma_rec_at(recs.drop_last(), device, index);
    }
}

/// Finds a field among those that are streamed.
pub fn find_rec(recs: &Vec<FieldRec>, device: u32, index: u16) -> (r: Option<usize>)
    ensures
        match r {
            Some(i) => i < recs@.len() && rec_at(
                rec_models(recs@),
                device as nat,
                index as nat,
            ) == Some(i as int),
            None => rec_at(rec_models(recs@), device as nat, index as nat) is None,
        },
{
    let ghost m = rec_models(recs@);
    let mut i: usize = recs.len();
    assert(m.take(i as int) =~= m);
    while i > 0
        invariant
            i <= recs@.len(),
            m == rec_models(recs@),
            rec_at(m, device as nat, index as nat) == rec_at(
                m.take(i as int),
                device as nat,
                index as nat,
            ),
        decreases i,
    {
        proof {
            assert(m.take(i as int).last() == recs@[i - 1]@);
            assert(m.take(i as int).drop_last() =~= m.take(i - 1));
        }
        i -= 1;
        if recs[i].device == device && recs[i].index == index {
            return Some(i);
        }
    }
    None
}

/// What is published of a value of a field: with a field configuration as that says,
/// without one wherever the mapper knows the field.
pub open spec fn outcome(policy: Option<Seq<FieldModel>>, r: RecModel, value: BusValue) -> Option<
    (Seq<char>, PublishedModel),
> {
    match policy {
        Some(fields) => publication(fields, r, value),
        None => mapped(r.class, r.instance, r.group, r.name, r.unit, value),
    }
}

/// The entries of a field configuration.
pub open spec fn policy_of(cfg: Option<&PublicationConfig>) -> Option<Seq<FieldModel>> {
    match cfg {
        Some(c) => Some(c@.fields),
        None => None,
    }
}

/// What is known of the paths once a value came in.
pub open spec fn with_update(
    latest: Map<Seq<char>, PublishedModel>,
    policy: Option<Seq<FieldModel>>,
    recs: Seq<RecModel>,
    u: Update,
) -> Map<Seq<char>, PublishedModel> {
    match rec_at(recs, u.device as nat, u.field as nat) {
        Some(i) => match outcome(policy, recs[i], u.value) {
            Some((p, v)) => latest.insert(p, v),
            None => latest,
        },
        None => latest,
    }
}

/// The latest value of each path.
pub open spec fn latest_of(
    policy: Option<Seq<FieldModel>>,
    recs: Seq<RecModel>,
    updates: Seq<Update>,
) -> Map<Seq<char>, PublishedModel>
    decreases updates.len(),
{
    if updates.len() == 0 {
        Map::empty()
    } else {
        with_update(
            latest_of(policy, recs, updates.drop_last()),
            policy,
            recs,
            updates.last(),
        )
    }
}

/// What values hold.
pub open spec fn published_models(m: Map<Seq<char>, Published>) -> Map<Seq<char>, PublishedModel> {
    m.map_values(|v: Published| v@)
}

fn outcome_of(cfg: Option<&PublicationConfig>, r: &FieldRec, value: &BusValue) -> (out: Option<
    (String, Published),
>)
    ensures
        match out {
            Some((p, v)) => outcome(policy_of(cfg), r@, *value) == Some((p@, v@)),
            None => outcome(policy_of(cfg), r@, *value) is None,
        },
{
    match cfg {
        Some(c) => publish(c, r, value),
        None => map_field(
            r.class.as_str(),
            r.instance.as_str(),
            r.group.as_str(),
            r.name.as_str(),
            r.unit.as_str(),
            value,
        ),
    }
}

/// The latest value of each path, of the values that came in from a device since it was
/// last asked. Nothing is published while nobody listens.
///
/// With a field configuration only what is enabled there is published. Without one, every
/// field that the mapper knows is: this is the open mode, for an installation that keeps no
/// field configuration and chooses by groups alone.
pub fn coalesce(
    listening: bool,
    cfg: Option<&PublicationConfig>,
    recs: &Vec<FieldRec>,
    updates: &Vec<Update>,
) -> (latest: StrMap<Published>)
    ensures
        listening ==> published_models(latest@) == latest_of(
            policy_of(cfg),
            rec_models(recs@),
            updates@,
        ),
        !listening ==> latest@ == Map::<Seq<char>, Published>::empty(),
{
    let mut latest: StrMap<Published> = StrMap::new();
    if !listening {
        return latest;
    }
    let ghost m = rec_models(recs@);
    let ghost p = policy_of(cfg);
    let mut i: usize = 0;
    assert(published_models(latest@) =~= latest_of(p, m, updates@.take(0)));
    while i < updates.len()
        invariant
            i <= updates@.len(),
            m == rec_models(recs@),
            p == policy_of(cfg),
            published_models(latest@) == latest_of(p, m, updates@.take(i as int)),
        decreases updates@.len() - i,
    {
        let u = &updates[i];
        let ghost before = published_models(latest@);
        proof {
            let next = updates@.take(i as int + 1);
            assert(next.drop_last() =~= updates@.take(i as int));
            assert(next.last() == *u);
            lemma_rec_at(m, u.device as nat, u.field as nat);
        }
        match find_rec(recs, u.device, u.field) {
            Some(k) => {
                assert(m[k as int] == recs@[k as int]@);
                match outcome_of(cfg, &recs[k], &u.value) {
                    Some((path, value)) => {
                        let ghost (pm, vm) = (path@, value@);
                        latest.insert(path, value);
                        assert(published_models(latest@) =~= before.insert(pm, vm));
                    },
                    None => {},
                }
            },
            None => {},
        }
        i += 1;
    }
    assert(updates@.take(i as int) =~= updates@);
    latest
}

/// Whether the unit of a path is to be told.
pub open spec fn untold(sent: Set<Seq<char>>, path: Seq<char>) -> bool {
    !sent.contains(path) && leaf_unit(last_segment(path)) is Some
}

/// The paths whose units are to be told, with their units.
pub open spec fn announcements(sent: Set<Seq<char>>, paths: Seq<Seq<char>>) -> Seq<
    (Seq<char>, Seq<char>),
>
    decreases paths.len(),
{
    if paths.len() == 0 {
        Seq::empty()
    } else {
        let head = announcements(sent, paths.drop_last());
        let p = paths.last();
        if untold(sent, p) {
            head.push((p, leaf_unit(last_segment(p))->0))
        } else {
            head
        }
    }
}

/// What pairs of texts hold.
pub open spec fn pair_models(v: Seq<(String, String)>) -> Seq<(Seq<char>, Seq<char>)> {
    Seq::new(v.len(), |i: int| (v[i].0@, v[i].1@))
}

fn push_pair(v: &mut Vec<(String, String)>, a: String, b: String)
    ensures
        pair_models(final(v)@) == pair_models(old(v)@).push((a@, b@)),
{
    let ghost before = pair_models(v@);
    let ghost last = (a@, b@);
    v.push((a, b));
    assert(pair_models(v@) =~= before.push(last));
}

/// The units of the paths of values, each of which is told once: those that have not
/// been told are told now, and are noted.
pub fn announce(latest: &StrMap<Published>, sent: &mut StrMap<()>) -> (out: Vec<(String, String)>)
    ensures
        pair_models(out@) == announcements(old(sent)@.dom(), latest.keys()),
        forall|p: Seq<char>|
            #![trigger final(sent)@.dom().contains(p)]
            final(sent)@.dom().contains(p) <==> old(sent)@.dom().contains(p) || (
            latest@.dom().contains(p) && leaf_unit(last_segment(p)) is Some),
{
    let ghost start = sent@.dom();
    let ghost keys = latest.keys();
    let n: usize = latest.len();
    let mut out: Vec<(String, String)> = Vec::new();
    let mut i: usize = 0;
    assert(pair_models(out@) =~= announcements(start, keys.take(0)));
    while i < n
        invariant
            i <= n,
            n == keys.len(),
            keys == latest.keys(),
            latest.well_formed(),
            pair_models(out@) == announcements(start, keys.take(i as int)),
            forall|p: Seq<char>|
                #![trigger sent@.dom().contains(p)]
                sent@.dom().contains(p) <==> start.contains(p) || (keys.take(i as int).contains(p)
                    && leaf_unit(last_segment(p)) is Some),
        decreases n - i,
    {
        let path = latest.key_at(i);
        let ghost k = keys[i as int];
        let ghost done = keys.take(i as int);
        let ghost next = keys.take(i as int + 1);
        proof {
            assert(next.drop_last() =~= done);
            assert(next.last() == k);
            assert forall|p: Seq<char>| next.contains(p) implies done.contains(p) || p == k by {
                let j = next.index_of(p);
                if j < i {
                    assert(done[j] == p);
                }
            }
            assert forall|p: Seq<char>| done.contains(p) implies next.contains(p) by {
                let j = done.index_of(p);
                assert(next[j] == p);
            }
            assert(next[i as int] == k);
            assert(!done.contains(k)) by {
                if done.contains(k) {
                    let j = done.index_of(k);
                    assert(crate::strmap::before(keys[j], keys[i as int]));
                    crate::strmap::lemma_before_irreflexive(k);
                }
            }
        }
        if !sent.contains_key(path.as_str()) {
            if let Some(u) = sk_units(path.as_str()) {
                push_pair(&mut out, path.clone(), u.to_owned());
                sent.insert(path.clone(), ());
            }
        }
        i += 1;
    }
    proof {
        assert(keys.take(n as int) =~= keys);
        assert forall|p: Seq<char>| latest@.dom().contains(p) implies keys.contains(p) by {}
        assert forall|p: Seq<char>| keys.contains(p) implies latest@.dom().contains(p) by {
            let j = keys.index_of(p);
            assert(latest@.dom().contains(keys[j]));
        }
    }
    out
}

/// With a field configuration, a path is published only if an entry that is enabled has it.
pub proof fn law_only_enabled_paths_are_streamed(
    fields: Seq<FieldModel>,
    recs: Seq<RecModel>,
    updates: Seq<Update>,
    path: Seq<char>,
)
    requires
        latest_of(Some(fields), recs, updates).dom().contains(path),
    ensures
        exists|i: int|
            0 <= i < fields.len() && (#[trigger] fields[i]).enabled && fields[i].path == path,
    decreases updates.len(),
{
    if updates.len() > 0 {
        let before = latest_of(Some(fields), recs, updates.drop_last());
        let u = updates.last();
        if before.dom().contains(path) {
            law_only_enabled_paths_are_streamed(fields, recs, updates.drop_last(), path);
        } else {
            let at = rec_at(recs, u.device as nat, u.field as nat);
            law_published_means_enabled(fields, recs[at->0], u.value);
        }
    }
}

/// The unit of a path is told once: once it was told, it is not told again.
pub proof fn law_units_are_told_once(sent: Set<Seq<char>>, paths: Seq<Seq<char>>, path: Seq<char>)
    requires
        sent.contains(path),
    ensures
        forall|i: int|
            0 <= i < announcements(sent, paths).len() ==> (#[trigger] announcements(
                sent,
                paths,
            )[i]).0 != path,
    decreases paths.len(),
{
    if paths.len() > 0 {
        law_units_are_told_once(sent, paths.drop_last(), path);
        let (all, head) = (announcements(sent, paths), announcements(sent, paths.drop_last()));
        assert forall|i: int| 0 <= i < all.len() implies (#[trigger] all[i]).0 != path by {
            if i < head.len() {
                assert(all[i] == head[i]);
                assert(head[i].0 != path);
            }
        }
    }
}

// ---- what is told once of each device -----------------------------------------------------

/// What is told of a device at a node: its name, its maker and its model, as far as they
/// are known and meant.
pub open spec fn node_values(
    node: Seq<char>,
    name: Seq<char>,
    maker: bool,
    article: Seq<char>,
) -> Seq<(Seq<char>, Seq<char>)> {
    let a = if name.len() > 0 {
        seq![(node + ".name"@, name)]
    } else {
        seq![]
    };
    let b = if maker {
        a.push((node + ".manufacturer.name"@, "Mastervolt"@))
    } else {
        a
    };
    if article.len() > 0 {
        b.push((node + ".manufacturer.model"@, article))
    } else {
        b
    }
}

/// What is told of a device at nodes.
pub open spec fn all_values(
    at: Seq<Seq<char>>,
    name: Seq<char>,
    maker: bool,
    article: Seq<char>,
) -> Seq<(Seq<char>, Seq<char>)>
    decreases at.len(),
{
    if at.len() == 0 {
        Seq::empty()
    } else {
        all_values(at.drop_last(), name, maker, article) + node_values(
            at.last(),
            name,
            maker,
            article,
        )
    }
}

fn put_values(
    out: &mut Vec<(String, String)>,
    node: &str,
    name: &str,
    maker: bool,
    article: &str,
)
    ensures
        pair_models(final(out)@) == pair_models(old(out)@) + node_values(
            node@,
            name@,
            maker,
            article@,
        ),
{
    let ghost start = pair_models(out@);
    if !name.is_empty() {
        push_pair(out, cat(node, ".name"), name.to_owned());
    }
    if maker {
        push_pair(out, cat(node, ".manufacturer.name"), "Mastervolt".to_owned());
    }
    if !article.is_empty() {
        push_pair(out, cat(node, ".manufacturer.model"), article.to_owned());
    }
    assert(pair_models(out@) =~= start + node_values(node@, name@, maker, article@));
}

fn values_at(at: &Vec<String>, name: &str, maker: bool, article: &str) -> (out: Vec<
    (String, String),
>)
    ensures
        pair_models(out@) == all_values(views(at@), name@, maker, article@),
{
    let ghost all = views(at@);
    let mut out: Vec<(String, String)> = Vec::new();
    let mut i: usize = 0;
    assert(pair_models(out@) =~= all_values(all.take(0), name@, maker, article@));
    while i < at.len()
        invariant
            i <= at@.len(),
            all == views(at@),
            pair_models(out@) == all_values(all.take(i as int), name@, maker, article@),
        decreases at@.len() - i,
    {
        proof {
            let next = all.take(i as int + 1);
            assert(next.drop_last() =~= all.take(i as int));
            assert(next.last() == at@[i as int]@);
        }
        put_values(&mut out, at[i].as_str(), name, maker, article);
        i += 1;
    }
    assert(all.take(i as int) =~= all);
    out
}

/// Whether a field of a device is streamed.
pub open spec fn is_streamed(recs: Seq<RecModel>, device: nat) -> bool {
    exists|i: int| 0 <= i < recs.len() && (#[trigger] recs[i]).device == device
}

fn has_stream(recs: &Vec<FieldRec>, device: u32) -> (r: bool)
    ensures
        r == is_streamed(rec_models(recs@), device as nat),
{
    let ghost m = rec_models(recs@);
    let mut i: usize = 0;
    while i < recs.len()
        invariant
            i <= recs@.len(),
            m == rec_models(recs@),
            forall|k: int| 0 <= k < i ==> (#[trigger] m[k]).device != device,
        decreases recs@.len() - i,
    {
        assert(m[i as int] == recs@[i as int]@);
        if recs[i].device == device {
            return true;
        }
        i += 1;
    }
    false
}

/// What is told once of a device of which a field is streamed: at each node of its
/// class its name, its maker, and its model. Nothing is told of any other device.
///
/// This is for the open mode, in which there is no field configuration; where there is
/// one, [`chosen_meta`] tells only what is chosen there.
pub fn static_meta(d: &DeviceMetaRec, recs: &Vec<FieldRec>) -> (out: Vec<(String, String)>)
    ensures
        pair_models(out@) == if is_streamed(rec_models(recs@), d.device as nat) {
            all_values(nodes(d.class@, d.instance@), d.name@, true, d.article@)
        } else {
            Seq::empty()
        },
{
    if !has_stream(recs, d.device) {
        let out: Vec<(String, String)> = Vec::new();
        assert(pair_models(out@) =~= Seq::empty());
        return out;
    }
    let at = sk_bases(d.class.as_str(), d.instance.as_str());
    values_at(&at, d.name.as_str(), true, d.article.as_str())
}

/// Nodes with one more, unless it is there.
pub open spec fn with_node(at: Seq<Seq<char>>, node: Option<Seq<char>>) -> Seq<Seq<char>> {
    match node {
        Some(n) => if at.contains(n) {
            at
        } else {
            at.push(n)
        },
        None => at,
    }
}

/// The nodes of the enabled fields of a device.
pub open spec fn enabled_nodes(fields: Seq<FieldModel>, device: Seq<char>) -> Seq<Seq<char>>
    decreases fields.len(),
{
    if fields.len() == 0 {
        Seq::empty()
    } else {
        let head = enabled_nodes(fields.drop_last(), device);
        let f = fields.last();
        if f.enabled && f.device == device {
            with_node(head, path_node(f.path))
        } else {
            head
        }
    }
}

/// What is told once of a device as the field configuration says: at the nodes of its
/// enabled fields, and only what is enabled of the device itself.
pub open spec fn chosen_values(cfg: ConfigModel, d: DeviceRecModel) -> Seq<
    (Seq<char>, Seq<char>),
> {
    let at = device_at(cfg.devices, address(d.device));
    if at < cfg.devices.len() {
        let e = cfg.devices[at];
        all_values(
            enabled_nodes(cfg.fields, address(d.device)),
            if e.publish_name {
                d.name
            } else {
                Seq::empty()
            },
            e.publish_manufacturer_name,
            if e.publish_model {
                d.article
            } else {
                Seq::empty()
            },
        )
    } else {
        Seq::empty()
    }
}

fn holds(v: &Vec<String>, s: &str) -> (r: bool)
    ensures
        r == views(v@).contains(s@),
{
    let ghost m = views(v@);
    let mut i: usize = 0;
    while i < v.len()
        invariant
            i <= v@.len(),
            m == views(v@),
            forall|k: int| 0 <= k < i ==> #[trigger] m[k] != s@,
        decreases v@.len() - i,
    {
        assert(m[i as int] == v@[i as int]@);
        if same(v[i].as_str(), s) {
            return true;
        }
        i += 1;
    }
    false
}

fn nodes_of_enabled(cfg: &PublicationConfig, device: &str) -> (at: Vec<String>)
    ensures
        views(at@) == enabled_nodes(cfg@.fields, device@),
{
    let ghost m = cfg@.fields;
    let mut at: Vec<String> = Vec::new();
    let mut i: usize = 0;
    assert(views(at@) =~= enabled_nodes(m.take(0), device@));
    while i < cfg.fields.len()
        invariant
            i <= cfg.fields@.len(),
            m == cfg@.fields,
            views(at@) == enabled_nodes(m.take(i as int), device@),
        decreases cfg.fields@.len() - i,
    {
        let f = &cfg.fields[i];
        proof {
            let next = m.take(i as int + 1);
            assert(next.drop_last() =~= m.take(i as int));
            assert(next.last() == f@);
        }
        if f.enabled && same(f.device.as_str(), device) {
            match node_of(f.path.as_str()) {
                Some(n) => {
                    if !holds(&at, n.as_str()) {
                        push_text(&mut at, n);
                    }
                },
                None => {},
            }
        }
        i += 1;
    }
    assert(m.take(i as int) =~= m);
    at
}

/// What is told once of a device as the field configuration says.
pub fn chosen_meta(cfg: &PublicationConfig, d: &DeviceMetaRec) -> (out: Vec<(String, String)>)
    ensures
        pair_models(out@) == chosen_values(cfg@, d@),
{
    let device = address_text(d.device);
    let i = find_device(&cfg.devices, device.as_str());
    if i >= cfg.devices.len() {
        let out: Vec<(String, String)> = Vec::new();
        assert(pair_models(out@) =~= Seq::empty());
        return out;
    }
    let e = &cfg.devices[i];
    assert(cfg@.devices[i as int] == e@);
    proof {
        reveal_strlit("");
        assert(""@ =~= Seq::empty());
    }
    let at = nodes_of_enabled(cfg, device.as_str());
    values_at(
        &at,
        if e.publish_name { d.name.as_str() } else { "" },
        e.publish_manufacturer_name,
        if e.publish_model { d.article.as_str() } else { "" },
    )
}

/// Nothing is told of a device where nothing is enabled: neither where the entry of the
/// device enables nothing, nor where no field of it is enabled.
pub proof fn law_nothing_enabled_nothing_told(cfg: ConfigModel, d: DeviceRecModel)
    requires
        ({
            let at = device_at(cfg.devices, address(d.device));
            ||| at >= cfg.devices.len()
            ||| !cfg.devices[at].publish_name && !cfg.devices[at].publish_manufacturer_name
                && !cfg.devices[at].publish_model
            ||| forall|i: int|
                0 <= i < cfg.fields.len() ==> !((#[trigger] cfg.fields[i]).enabled
                    && cfg.fields[i].device == address(d.device))
        }),
    ensures
        chosen_values(cfg, d) == Seq::<(Seq<char>, Seq<char>)>::empty(),
{
    let at = enabled_nodes(cfg.fields, address(d.device));
    lemma_told_nothing(at);
    if forall|i: int|
        0 <= i < cfg.fields.len() ==> !((#[trigger] cfg.fields[i]).enabled && cfg.fields[i].device
            == address(d.device)) {
        lemma_no_nodes(cfg.fields, address(d.device));
    }
}

proof fn lemma_told_nothing(at: Seq<Seq<char>>)
    ensures
        all_values(at, Seq::empty(), false, Seq::empty()) == Seq::<
            (Seq<char>, Seq<char>),
        >::empty(),
    decreases at.len(),
{
    if at.len() > 0 {
        lemma_told_nothing(at.drop_last());
        assert(node_values(at.last(), Seq::empty(), false, Seq::empty()) =~= Seq::empty());
    }
}

proof fn lemma_no_nodes(fields: Seq<FieldModel>, device: Seq<char>)
    requires
        forall|i: int|
            0 <= i < fields.len() ==> !((#[trigger] fields[i]).enabled && fields[i].device
                == device),
    ensures
        enabled_nodes(fields, device) == Seq::<Seq<char>>::empty(),
    decreases fields.len(),
{
    if fields.len() > 0 {
        let rest = fields.drop_last();
        assert forall|i: int| 0 <= i < rest.len() implies !((#[trigger] rest[i]).enabled
            && rest[i].device == device) by {
            assert(rest[i] == fields[i]);
        }
        lemma_no_nodes(rest, device);
        assert(fields.last() == fields[fields.len() - 1]);
    }
}

// ---- lines to clients ----------------------------------------------------------------------

/// Lines, each with its end.
pub open spec fn framed(lines: Seq<Seq<u8>>) -> Seq<u8>
    decreases lines.len(),
{
    if lines.len() == 0 {
        Seq::empty()
    } else {
        framed(lines.drop_last()) + lines.last() + seq![10u8]
    }
}

/// The bytes of lines.
pub open spec fn line_bytes(lines: Seq<Vec<u8>>) -> Seq<Seq<u8>> {
    lines.map_values(|l: Vec<u8>| l@)
}

fn put_bytes(out: &mut Vec<u8>, line: &Vec<u8>)
    ensures
        final(out)@ == old(out)@ + line@ + seq![10u8],
{
    let ghost start = out@;
    let mut i: usize = 0;
    while i < line.len()
        invariant
            i <= line@.len(),
            out@ =~= start + line@.take(i as int),
        decreases line@.len() - i,
    {
        out.push(line[i]);
        i += 1;
    }
    out.push(10);
    assert(out@ =~= start + line@ + seq![10u8]);
}

/// The lines that go to clients, each with its end.
pub fn frame(lines: &Vec<Vec<u8>>) -> (out: Vec<u8>)
    ensures
        out@ == framed(line_bytes(lines@)),
{
    let ghost all = line_bytes(lines@);
    let mut out: Vec<u8> = Vec::new();
    let mut i: usize = 0;
    assert(out@ =~= framed(all.take(0)));
    while i < lines.len()
        invariant
            i <= lines@.len(),
            all == line_bytes(lines@),
            out@ == framed(all.take(i as int)),
        decreases lines@.len() - i,
    {
        proof {
            let next = all.take(i as int + 1);
            assert(next.drop_last() =~= all.take(i as int));
            assert(next.last() == lines@[i as int]@);
        }
        put_bytes(&mut out, &lines[i]);
        i += 1;
    }
    assert(all.take(i as int) =~= all);
    out
}

/// What goes out in a cycle.
pub struct Outgoing {
    /// What every client gets.
    pub batch: Vec<u8>,
    /// What a client that comes later gets as well.
    pub replay: Vec<u8>,
}

/// What goes out in a cycle: the line that tells units, where there is one, before the
/// lines with values. That line is kept for clients that come later.
pub fn finish_cycle(units: Option<Vec<u8>>, values: &Vec<Vec<u8>>) -> (out: Outgoing)
    ensures
        match units {
            Some(u) => {
                &&& out.replay@ == u@ + seq![10u8]
                &&& out.batch@ == u@ + seq![10u8] + framed(line_bytes(values@))
            },
            None => {
                &&& out.replay@ == Seq::<u8>::empty()
                &&& out.batch@ == framed(line_bytes(values@))
            },
        },
{
    let mut body = frame(values);
    match units {
        Some(u) => {
            let mut replay: Vec<u8> = Vec::new();
            put_bytes(&mut replay, &u);
            assert(replay@ =~= u@ + seq![10u8]);
            let mut batch: Vec<u8> = Vec::new();
            put_bytes(&mut batch, &u);
            assert(batch@ =~= u@ + seq![10u8]);
            batch.append(&mut body);
            Outgoing { batch, replay }
        },
        None => Outgoing { batch: body, replay: Vec::new() },
    }
}

} // verus!
