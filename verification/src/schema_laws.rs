//! What is read from the schema: members, units, which names are fields, and which fields a
//! value can go to.

use vstd::prelude::*;

use crate::schema_tree::{
    any_refers, entry_outlines, find_entry, is_part, is_part_of_any, is_part_of_member,
    member_refers, outline, outlines, pointed_at, refers, resolved, Node, Outline,
};
use crate::signalk_schema::{
    collected, collected_parts, collected_patterns, collected_properties, contains_fields,
    entry_names, field_unit, has_fields, is_identity, leaf_field, member_path, type_fields, Fields,
    SchemaField,
};
use crate::signalk::{Plan, Refusal};
use crate::text::starts;
use crate::web::{
    candidates_of, compatibility, is_device, is_field, is_group, stand_in, CandidateModel,
    CompatibilityResponse, DumpDevice, DumpField, DumpGroup, WebDevice, WebField, WebGroup,
};

verus! {

// ---- members -------------------------------------------------------------------------

/// The first member of a name counts.
pub proof fn law_first_member(es: Seq<(Seq<char>, Outline)>, key: Seq<char>, i: int)
    ensures
        0 <= i < es.len() && es[i].0 == key && (forall|j: int|
            0 <= j < i ==> (#[trigger] es[j]).0 != key) ==> Outline::Object(es).member(key)
            == Some(es[i].1),
        (forall|j: int| 0 <= j < es.len() ==> (#[trigger] es[j]).0 != key)
            ==> Outline::Object(es).member(key) is None,
    decreases es.len(),
{
    if es.len() > 0 {
        let rest = es.drop_first();
        law_first_member(rest, key, i - 1);
        assert(Outline::Object(rest).member(key) == find_entry(rest, key));
        assert forall|j: int| 0 <= j < rest.len() implies rest[j] == es[j + 1] by {}
        if forall|j: int| 0 <= j < es.len() ==> (#[trigger] es[j]).0 != key {
            assert forall|j: int| 0 <= j < rest.len() implies (#[trigger] rest[j]).0 != key by {
                assert(es[j + 1].0 != key);
            }
            assert(es[0].0 != key);
        }
        if 0 < i < es.len() && (forall|j: int| 0 <= j < i ==> (#[trigger] es[j]).0 != key) {
            assert(es[0].0 != key);
            assert forall|j: int| 0 <= j < i - 1 implies (#[trigger] rest[j]).0 != key by {
                assert(es[j + 1].0 != key);
            }
        }
    }
}

/// A member is read only as what it is: a text, a list, or an object.
pub proof fn law_members_by_kind(o: Outline, key: Seq<char>)
    ensures
        o.member(key) matches Some(Outline::Text(s)) ==> o.text_member(key) == Some(s),
        !(o.member(key) matches Some(Outline::Text(s))) ==> o.text_member(key) is None,
        o.member(key) matches Some(Outline::Array(v)) ==> o.list_member(key) == v,
        !(o.member(key) matches Some(Outline::Array(v))) ==> o.list_member(key).len() == 0,
        o.member(key) matches Some(Outline::Object(es)) ==> o.object_member(key) == es
            && o.has_object(key),
        !(o.member(key) matches Some(Outline::Object(es))) ==> o.object_member(key).len() == 0
            && !o.has_object(key),
        !(o is Object) ==> o.member(key) is None,
{
}

// ---- fields ----------------------------------------------------------------------------

/// The unit of a field is its `units`; without them its `unit`. What is no text is no unit,
/// and `units` that are no text leave no room for `unit`.
pub proof fn law_field_unit(o: Outline)
    ensures
        o.text_member("units"@) is Some ==> field_unit(o) == o.text_member("units"@),
        o.member("units"@) is None ==> field_unit(o) == o.text_member("unit"@),
        o.member("units"@) is Some && o.text_member("units"@) is None ==> field_unit(o) is None,
{
}

/// A field has its path, its unit and its description, and is not one of a pattern.
pub proof fn law_leaf_field(o: Outline, path: Seq<char>)
    ensures
        leaf_field(o, path).path == path,
        leaf_field(o, path).unit == field_unit(o),
        leaf_field(o, path).description == o.text_member("description"@),
        leaf_field(o, path).pattern is None,
{
}

/// The name, the place, the date of installation and the maker of a device are no fields.
pub proof fn law_identity(name: Seq<char>)
    ensures
        is_identity(name) <==> name == "name"@ || name == "location"@ || name == "dateInstalled"@
            || name == "manufacturer"@,
{
}

/// A member stands under its parent, with a dot between them.
pub proof fn law_member_path(prefix: Seq<char>, name: Seq<char>)
    ensures
        prefix.len() == 0 ==> member_path(prefix, name) == name,
        prefix.len() > 0 ==> member_path(prefix, name) == prefix + "."@ + name,
{
}

/// A value has fields of its own where it has properties, or patterns, or refers within the
/// document to what has.
pub proof fn law_contains_fields(refs: Map<Seq<char>, Outline>, o: Outline, r: Seq<char>)
    ensures
        o.has_object("properties"@) ==> contains_fields(refs, o),
        o.has_object("patternProperties"@) ==> contains_fields(refs, o),
        !has_fields(o) && o.text_member("$ref"@) is None ==> !contains_fields(refs, o),
        !has_fields(o) && o.text_member("$ref"@) == Some(r) ==> contains_fields(refs, o) == (starts(
            r,
            "#/"@,
        ) && refs.dom().contains(r) && (refs[r].has_object("properties"@) || refs[r].has_object(
            "patternProperties"@,
        ))),
{
}

/// Properties are taken one after the other: one that says which device it is is left out,
/// one without fields of its own is a field, and one with fields is gone into.
pub proof fn law_properties_in_turn(
    refs: Map<Seq<char>, Outline>,
    es: Seq<(Seq<char>, Outline)>,
    name: Seq<char>,
    o: Outline,
    prefix: Seq<char>,
    acc: Fields,
    depth: nat,
    m: Fields,
)
    requires
        collected_properties(refs, es, prefix, acc, depth) == Some(m),
    ensures
        ({
            let now = collected_properties(refs, es.push((name, o)), prefix, acc, depth);
            let path = member_path(prefix, name);
            &&& is_identity(name) ==> now == Some(m)
            &&& !is_identity(name) && !contains_fields(refs, o) ==> now == Some(
                m.insert(path, leaf_field(o, path)),
            )
            &&& !is_identity(name) && contains_fields(refs, o) ==> now == collected(
                refs,
                o,
                path,
                m,
                depth,
            )
        }),
        collected_properties(refs, seq![], prefix, acc, depth) == Some(acc),
{
    let all = es.push((name, o));
    assert(all.drop_last() =~= es);
    assert(all.last() == (name, o));
}

/// The fields of a pattern stand under `{key}` and say what the key has to match; they take
/// the place of fields that were there under the same path.
pub proof fn law_patterns_in_turn(
    refs: Map<Seq<char>, Outline>,
    es: Seq<(Seq<char>, Outline)>,
    pattern: Seq<char>,
    o: Outline,
    prefix: Seq<char>,
    acc: Fields,
    depth: nat,
    m: Fields,
    d: Fields,
    path: Seq<char>,
)
    requires
        collected_patterns(refs, es, prefix, acc, depth) == Some(m),
        collected(refs, o, member_path(prefix, "{key}"@), Map::empty(), depth) == Some(d),
    ensures
        collected_patterns(refs, es.push((pattern, o)), prefix, acc, depth) matches Some(now) && {
            &&& now.dom().contains(path) <==> m.dom().contains(path) || d.dom().contains(path)
            &&& d.dom().contains(path) ==> now[path] == (SchemaField {
                path: d[path].path,
                unit: d[path].unit,
                description: d[path].description,
                pattern: Some(pattern),
            })
            &&& !d.dom().contains(path) && m.dom().contains(path) ==> now[path] == m[path]
        },
        collected_patterns(refs, seq![], prefix, acc, depth) == Some(acc),
{
    let all = es.push((pattern, o));
    assert(all.drop_last() =~= es);
    assert(all.last() == (pattern, o));
}

/// Parts are taken one after the other, under the same prefix.
pub proof fn law_parts_in_turn(
    refs: Map<Seq<char>, Outline>,
    parts: Seq<Outline>,
    o: Outline,
    prefix: Seq<char>,
    acc: Fields,
    depth: nat,
    m: Fields,
)
    requires
        collected_parts(refs, parts, prefix, acc, depth) == Some(m),
    ensures
        collected_parts(refs, parts.push(o), prefix, acc, depth) == collected(
            refs,
            o,
            prefix,
            m,
            depth,
        ),
        collected_parts(refs, seq![], prefix, acc, depth) == Some(acc),
{
    assert(parts.push(o).drop_last() =~= parts);
}

/// A value that has only one of them has the fields of what it refers to, of its parts, of
/// its properties, or of its patterns; one that has none adds nothing.
pub proof fn law_fields_of_a_value(
    refs: Map<Seq<char>, Outline>,
    o: Outline,
    prefix: Seq<char>,
    acc: Fields,
    depth: nat,
)
    requires
        depth > 0,
    ensures
        ({
            let now = collected(refs, o, prefix, acc, depth);
            let reference = o.text_member("$ref"@);
            let parts = o.list_member("allOf"@);
            let properties = o.object_member("properties"@);
            let patterns = o.object_member("patternProperties"@);
            let goes = reference is Some && refs.dom().contains(reference->0);
            &&& !goes && parts.len() == 0 && properties.len() == 0 && patterns.len() == 0 ==> now
                == Some(acc)
            &&& goes && parts.len() == 0 && properties.len() == 0 && patterns.len() == 0 ==> now
                == collected(refs, refs[reference->0], prefix, acc, (depth - 1) as nat)
            &&& !goes && parts.len() > 0 && properties.len() == 0 && patterns.len() == 0 ==> now
                == collected_parts(refs, parts, prefix, acc, depth)
            &&& !goes && parts.len() == 0 && properties.len() > 0 && patterns.len() == 0 ==> now
                == collected_properties(refs, properties, prefix, acc, depth)
            &&& !goes && parts.len() == 0 && properties.len() == 0 && patterns.len() > 0 ==> now
                == collected_patterns(refs, patterns, prefix, acc, depth)
        }),
{
}

/// What a value refers to comes first, then its parts, then its properties and last its
/// patterns: each adds to what the ones before it left.
pub proof fn law_order_of_fields(
    refs: Map<Seq<char>, Outline>,
    o: Outline,
    prefix: Seq<char>,
    acc: Fields,
    depth: nat,
    a: Fields,
    b: Fields,
    c: Fields,
)
    requires
        depth > 0,
        o.text_member("$ref"@) matches Some(r) && refs.dom().contains(r) && collected(
            refs,
            refs[r],
            prefix,
            acc,
            (depth - 1) as nat,
        ) == Some(a),
        o.list_member("allOf"@).len() > 0,
        collected_parts(refs, o.list_member("allOf"@), prefix, a, depth) == Some(b),
        o.object_member("properties"@).len() > 0,
        collected_properties(refs, o.object_member("properties"@), prefix, b, depth) == Some(c),
        o.object_member("patternProperties"@).len() > 0,
    ensures
        collected(refs, o, prefix, acc, depth) == collected_patterns(
            refs,
            o.object_member("patternProperties"@),
            prefix,
            c,
            depth,
        ),
{
}

/// The fields of a type are those of the first pattern of the type in the schema; a type
/// that the schema does not know has none.
pub proof fn law_fields_of_a_type(
    refs: Map<Seq<char>, Outline>,
    root: Outline,
    types: Outline,
    t: Outline,
    device_type: Seq<char>,
    depth: nat,
)
    ensures
        root.member("properties"@) is None ==> type_fields(root, refs, device_type, depth) == Some(
            Map::<Seq<char>, SchemaField>::empty(),
        ),
        root.member("properties"@) == Some(types) && types.member(device_type) is None
            ==> type_fields(root, refs, device_type, depth) == Some(
            Map::<Seq<char>, SchemaField>::empty(),
        ),
        root.member("properties"@) == Some(types) && types.member(device_type) == Some(t) ==> {
            let patterns = t.object_member("patternProperties"@);
            &&& patterns.len() == 0 ==> type_fields(root, refs, device_type, depth) == Some(
                Map::<Seq<char>, SchemaField>::empty(),
            )
            &&& patterns.len() > 0 ==> type_fields(root, refs, device_type, depth) == collected(
                refs,
                patterns[0].1,
                Seq::empty(),
                Map::empty(),
                depth,
            )
        },
{
}

/// A reference within the document is a pointer behind a `#`; any other leads nowhere.
pub proof fn law_references(root: Outline, r: Seq<char>)
    ensures
        resolved(root, seq!['#'] + r) == pointed_at(root, r),
        r.len() == 0 || r[0] != '#' ==> resolved(root, r) is None,
{
    assert((seq!['#'] + r).skip(1) =~= r);
}

// ---- candidates --------------------------------------------------------------------------

/// A field is offered for a value where it can be published there and the unit of the field
/// is the SI unit of the value, or neither has one. It is offered with the unit under which
/// the value would be published.
pub proof fn law_candidates(
    fields: Seq<SchemaField>,
    source: Option<Seq<char>>,
    planned: Seq<Option<Option<String>>>,
    f: SchemaField,
    p: Option<Option<String>>,
)
    ensures
        candidates_of(seq![], source, seq![]).len() == 0,
        ({
            let was = candidates_of(fields, source, planned);
            let now = candidates_of(fields.push(f), source, planned.push(p));
            &&& p is None || f.unit != source ==> now == was
            &&& p is Some && f.unit == source ==> now == was.push(
                CandidateModel {
                    path: f.path,
                    unit: match p->0 {
                        Some(u) => Some(u@),
                        None => None,
                    },
                    description: f.description,
                },
            )
        }),
{
    assert(fields.push(f).drop_last() =~= fields);
    assert(planned.push(p).drop_last() =~= planned);
}

/// A field of a type is tried under a device that stands for all of the type.
pub proof fn law_stand_in(device_type: Seq<char>, path: Seq<char>)
    ensures
        stand_in(device_type, path) == "electrical."@ + device_type + ".candidate."@ + path,
{
}

/// A field is shown with everything that the dump says of it.
pub proof fn law_dump_fields(w: WebField, d: DumpField)
    requires
        is_field(w, d),
    ensures
        w.id == d.id && w.channel == d.channel && w.index == d.index && w.name == d.name,
        w.unit == d.unit && w.value_text == d.value_text && w.options == d.options,
        w.writeable == d.writeable && w.eventable == d.eventable,
{
}

/// The types of devices are the names of the members of the schema, in their order.
pub proof fn law_entry_names(es: Seq<(Seq<char>, Outline)>, i: int)
    requires
        0 <= i < es.len(),
    ensures
        entry_names(es).len() == es.len(),
        entry_names(es)[i] == es[i].0,
{
}

/// What is read of a value: texts by their characters, lists and objects in their order.
pub proof fn law_outlines(s: String, v: Seq<Node>, n: Node, es: Seq<(String, Node)>, key: String)
    ensures
        outline(Node::Text(s)) == Outline::Text(s@),
        outline(Node::Other) == Outline::Other,
        outlines(seq![]).len() == 0,
        outlines(v.push(n)) == outlines(v).push(outline(n)),
        entry_outlines(seq![]).len() == 0,
        entry_outlines(es.push((key, n))) == entry_outlines(es).push((key@, outline(n))),
{
    assert(v.push(n).drop_last() =~= v);
    assert(es.push((key, n)).drop_last() =~= es);
}

/// A reference occurs where `$ref` says it, in a value or in what it holds.
pub proof fn law_occurrences(
    es: Seq<(Seq<char>, Outline)>,
    v: Seq<Outline>,
    r: Seq<char>,
    i: int,
    s: Seq<char>,
)
    ensures
        Outline::Object(es).text_member("$ref"@) == Some(r) ==> refers(Outline::Object(es), r),
        0 <= i < es.len() && refers(es[i].1, r) ==> refers(Outline::Object(es), r),
        0 <= i < v.len() && refers(v[i], r) ==> refers(Outline::Array(v), r),
        !refers(Outline::Text(s), r) && !refers(Outline::Other, r),
        refers(Outline::Array(v), r) ==> exists|j: int| 0 <= j < v.len() && refers(
            #[trigger] v[j],
            r,
        ),
        refers(Outline::Object(es), r) && Outline::Object(es).text_member("$ref"@) != Some(r)
            ==> exists|j: int| 0 <= j < es.len() && refers((#[trigger] es[j]).1, r),
{
    lemma_any_refers(v, r, i);
    lemma_member_refers(es, r, i);
}

proof fn lemma_any_refers(v: Seq<Outline>, r: Seq<char>, i: int)
    ensures
        0 <= i < v.len() && refers(v[i], r) ==> any_refers(v, r),
        any_refers(v, r) ==> exists|j: int| 0 <= j < v.len() && refers(#[trigger] v[j], r),
    decreases v.len(),
{
    if v.len() > 0 {
        let rest = v.drop_last();
        lemma_any_refers(rest, r, i);
        assert(v[v.len() - 1] == v.last());
        if any_refers(rest, r) {
            let j = choose|j: int| 0 <= j < rest.len() && refers(#[trigger] rest[j], r);
            assert(refers(v[j], r));
        }
    }
}

proof fn lemma_member_refers(es: Seq<(Seq<char>, Outline)>, r: Seq<char>, i: int)
    ensures
        0 <= i < es.len() && refers(es[i].1, r) ==> member_refers(es, r),
        member_refers(es, r) ==> exists|j: int| 0 <= j < es.len() && refers((#[trigger] es[j]).1, r),
    decreases es.len(),
{
    if es.len() > 0 {
        let rest = es.drop_last();
        lemma_member_refers(rest, r, i);
        assert(es[es.len() - 1] == es.last());
        if member_refers(rest, r) {
            let j = choose|j: int| 0 <= j < rest.len() && refers((#[trigger] rest[j]).1, r);
            assert(refers(es[j].1, r));
        }
    }
}

/// Groups and devices are shown with everything that the dump says of them, and with all that
/// they hold, in the same order.
pub proof fn law_dump_devices(
    g: WebGroup,
    of_group: DumpGroup,
    d: WebDevice,
    of_device: DumpDevice,
    i: int,
)
    requires
        is_group(g, of_group),
        is_device(d, of_device),
    ensures
        g.id == of_group.id && g.name == of_group.name && g.menu == of_group.menu,
        g.fields@.len() == of_group.fields@.len(),
        0 <= i < g.fields@.len() ==> is_field(g.fields@[i], of_group.fields@[i]),
        d.id == of_device.id && d.address == of_device.address && d.article == of_device.article,
        d.serial == of_device.serial && d.revision == of_device.revision,
        d.name == of_device.name && d.firmware == of_device.firmware,
        d.status == of_device.status,
        d.groups@.len() == of_device.groups@.len(),
        0 <= i < d.groups@.len() ==> is_group(d.groups@[i], of_device.groups@[i]),
{
}

/// A value is a part of itself, of every list that holds it and of every object with it as a
/// member, and so is each part of it. A text has no other part.
pub proof fn law_parts(
    t: Outline,
    o: Outline,
    es: Seq<(Seq<char>, Outline)>,
    v: Seq<Outline>,
    i: int,
    s: Seq<char>,
)
    ensures
        is_part(o, o),
        0 <= i < v.len() && is_part(t, v[i]) ==> is_part(t, Outline::Array(v)),
        0 <= i < es.len() && is_part(t, es[i].1) ==> is_part(t, Outline::Object(es)),
        is_part(t, Outline::Text(s)) ==> t == Outline::Text(s),
{
    lemma_part_of_any(t, v, i);
    lemma_part_of_member(t, es, i);
}

proof fn lemma_part_of_any(t: Outline, v: Seq<Outline>, i: int)
    ensures
        0 <= i < v.len() && is_part(t, v[i]) ==> is_part_of_any(t, v),
    decreases v.len(),
{
    if v.len() > 0 {
        lemma_part_of_any(t, v.drop_last(), i);
        assert(v[v.len() - 1] == v.last());
    }
}

proof fn lemma_part_of_member(t: Outline, es: Seq<(Seq<char>, Outline)>, i: int)
    ensures
        0 <= i < es.len() && is_part(t, es[i].1) ==> is_part_of_member(t, es),
    decreases es.len(),
{
    if es.len() > 0 {
        lemma_part_of_member(t, es.drop_last(), i);
        assert(es[es.len() - 1] == es.last());
    }
}

/// A field can be published under a path where nothing speaks against it, with the unit and
/// the warning of the plan; otherwise it is said why not.
pub proof fn law_compatibility(plan: Result<Plan, Refusal>, r: CompatibilityResponse)
    requires
        call_ensures(compatibility, (plan,), r),
    ensures
        r.compatible <==> plan is Ok,
        plan matches Ok(p) ==> r.unit == p.unit && r.warning == p.warning && r.refusal is None,
        plan matches Err(e) ==> r.unit is None && r.warning is None && r.refusal is Some
            && r.refusal->0@ == match e {
            Refusal::Truth { message, .. } => message@,
            Refusal::Other { message } => message@,
        },
{
}

} // verus!
