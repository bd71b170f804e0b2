//! The fields that the Signal K schema has for devices.
//!
//! The schema comes from the Signal K specification. It is read here as it is: nothing
//! of any device is put into it.

use vstd::prelude::*;

use crate::schema_tree::{
    entry_outlines, leads, lemma_entry_outlines, lemma_member_is_smaller, lemma_outlines, outlines,
    parsed_json, read_document, Node, Outline,
};
use crate::strmap::{ordered, StrMap};
use crate::text::{cat3, push_text, same, starts, starts_with, views};

verus! {

/// A field of the schema.
#[derive(Debug, PartialEq, Eq)]
pub struct SignalKField {
    /// The path under the instance of a device.
    pub path: String,
    pub unit: Option<String>,
    pub description: Option<String>,
    /// What the name of a part of the path has to match, where it is free.
    pub pattern: Option<String>,
}

/// What a field of the schema holds.
#[verifier::ext_equal]
pub struct SchemaField {
    pub path: Seq<char>,
    pub unit: Option<Seq<char>>,
    pub description: Option<Seq<char>>,
    pub pattern: Option<Seq<char>>,
}

/// The characters of an optional text.
pub open spec fn chars(s: Option<String>) -> Option<Seq<char>> {
    match s {
        Some(t) => Some(t@),
        None => None,
    }
}

impl View for SignalKField {
    type V = SchemaField;

    open spec fn view(&self) -> SchemaField {
        SchemaField {
            path: self.path@,
            unit: chars(self.unit),
            description: chars(self.description),
            pattern: chars(self.pattern),
        }
    }
}

/// Fields by their paths.
pub type Fields = Map<Seq<char>, SchemaField>;

/// What fields hold.
pub open spec fn field_models(m: Map<Seq<char>, SignalKField>) -> Fields {
    m.map_values(|f: SignalKField| f@)
}

/// A schema with what its references lead to.
pub struct SchemaDoc {
    pub root: Node,
    /// The values that references lead to, by the references.
    pub refs: StrMap<Node>,
}

impl SchemaDoc {
    /// Reads a schema, if the text is a document.
    pub fn parse(text: &str) -> (r: Option<SchemaDoc>)
        ensures
            match r {
                Some(d) => parsed_json(text@) == Some(d.root@) && leads(d.root@, d.refs@),
                None => parsed_json(text@) is None,
            },
    {
        match read_document(text) {
            Some((root, refs)) => Some(SchemaDoc { root, refs }),
            None => None,
        }
    }
}

/// What references lead to.
pub open spec fn ref_models(m: Map<Seq<char>, Node>) -> Map<Seq<char>, Outline> {
    m.map_values(|n: Node| n@)
}

// ---- which fields there are ---------------------------------------------------------------

/// Whether a field only says which device it is.
pub open spec fn is_identity(name: Seq<char>) -> bool {
    name == "name"@ || name == "location"@ || name == "dateInstalled"@ || name == "manufacturer"@
}

/// Whether a field only says which device it is.
pub fn is_identity_field(name: &str) -> (r: bool)
    ensures
        r == is_identity(name@),
{
    same(name, "name") || same(name, "location") || same(name, "dateInstalled") || same(
        name,
        "manufacturer",
    )
}

/// Whether a value has fields of its own.
pub open spec fn has_fields(o: Outline) -> bool {
    o.has_object("properties"@) || o.has_object("patternProperties"@)
}

/// Whether a value, or what it refers to, has fields of its own.
pub open spec fn contains_fields(refs: Map<Seq<char>, Outline>, o: Outline) -> bool {
    has_fields(o) || (o.text_member("$ref"@) matches Some(r) && starts(r, "#/"@)
        && refs.dom().contains(r) && has_fields(refs[r]))
}

/// The path of a member.
pub open spec fn member_path(prefix: Seq<char>, name: Seq<char>) -> Seq<char> {
    if prefix.len() == 0 {
        name
    } else {
        prefix + "."@ + name
    }
}

/// The unit of a field.
pub open spec fn field_unit(o: Outline) -> Option<Seq<char>> {
    match o.member("units"@) {
        Some(Outline::Text(s)) => Some(s),
        Some(_) => None,
        None => o.text_member("unit"@),
    }
}

/// A field at a path.
pub open spec fn leaf_field(o: Outline, path: Seq<char>) -> SchemaField {
    SchemaField {
        path,
        unit: field_unit(o),
        description: o.text_member("description"@),
        pattern: None,
    }
}

/// Fields, with what the name of a part of their paths has to match.
pub open spec fn with_pattern(fields: Fields, pattern: Seq<char>) -> Fields {
    fields.map_values(|f: SchemaField| SchemaField { pattern: Some(pattern), ..f })
}

/// The fields of a value under a prefix, on top of others: those of what it refers to,
/// of its parts, of its properties and of its patterns. References are followed up to
/// `depth` times in a row; there is no answer where that is not enough.
pub open spec fn collected(
    refs: Map<Seq<char>, Outline>,
    o: Outline,
    prefix: Seq<char>,
    acc: Fields,
    depth: nat,
) -> Option<Fields>
    decreases depth, o, 0int,
    via collected_decreases
{
    let a = match o.text_member("$ref"@) {
        Some(r) => if refs.dom().contains(r) {
            if depth == 0 {
                None
            } else {
                collected(refs, refs[r], prefix, acc, (depth - 1) as nat)
            }
        } else {
            Some(acc)
        },
        None => Some(acc),
    };
    let b = match a {
        Some(m) => if o.list_member("allOf"@).len() > 0 {
            collected_parts(refs, o.list_member("allOf"@), prefix, m, depth)
        } else {
            Some(m)
        },
        None => None,
    };
    let c = match b {
        Some(m) => if o.object_member("properties"@).len() > 0 {
            collected_properties(refs, o.object_member("properties"@), prefix, m, depth)
        } else {
            Some(m)
        },
        None => None,
    };
    match c {
        Some(m) => if o.object_member("patternProperties"@).len() > 0 {
            collected_patterns(refs, o.object_member("patternProperties"@), prefix, m, depth)
        } else {
            Some(m)
        },
        None => None,
    }
}

#[via_fn]
proof fn collected_decreases(
    refs: Map<Seq<char>, Outline>,
    o: Outline,
    prefix: Seq<char>,
    acc: Fields,
    depth: nat,
) {
    lemma_member_is_smaller(o, "allOf"@);
    lemma_member_is_smaller(o, "properties"@);
    lemma_member_is_smaller(o, "patternProperties"@);
}

/// The fields of parts.
pub open spec fn collected_parts(
    refs: Map<Seq<char>, Outline>,
    parts: Seq<Outline>,
    prefix: Seq<char>,
    acc: Fields,
    depth: nat,
) -> Option<Fields>
    decreases depth, parts, 1int,
{
    if parts.len() == 0 {
        Some(acc)
    } else {
        match collected_parts(refs, parts.drop_last(), prefix, acc, depth) {
            Some(m) => collected(refs, parts.last(), prefix, m, depth),
            None => None,
        }
    }
}

/// The fields of properties: those that only say which device it is are left out.
pub open spec fn collected_properties(
    refs: Map<Seq<char>, Outline>,
    es: Seq<(Seq<char>, Outline)>,
    prefix: Seq<char>,
    acc: Fields,
    depth: nat,
) -> Option<Fields>
    decreases depth, es, 1int,
{
    if es.len() == 0 {
        Some(acc)
    } else {
        match collected_properties(refs, es.drop_last(), prefix, acc, depth) {
            Some(m) => {
                let (name, o) = (es.last().0, es.last().1);
                let path = member_path(prefix, name);
                if is_identity(name) {
                    Some(m)
                } else if contains_fields(refs, o) {
                    collected(refs, es.last().1, path, m, depth)
                } else {
                    Some(m.insert(path, leaf_field(o, path)))
                }
            },
            None => None,
        }
    }
}

/// The fields of patterns: a part of their paths is free.
pub open spec fn collected_patterns(
    refs: Map<Seq<char>, Outline>,
    es: Seq<(Seq<char>, Outline)>,
    prefix: Seq<char>,
    acc: Fields,
    depth: nat,
) -> Option<Fields>
    decreases depth, es, 1int,
{
    if es.len() == 0 {
        Some(acc)
    } else {
        match collected_patterns(refs, es.drop_last(), prefix, acc, depth) {
            Some(m) => match collected(
                refs,
                es.last().1,
                member_path(prefix, "{key}"@),
                Map::empty(),
                depth,
            ) {
                Some(d) => Some(m.union_prefer_right(with_pattern(d, es.last().0))),
                None => None,
            },
            None => None,
        }
    }
}

/// What a device of a type is like: the value of the first pattern of the type.
pub open spec fn instance_outline(root: Outline, device_type: Seq<char>) -> Option<Outline> {
    match root.member("properties"@) {
        Some(p) => match p.member(device_type) {
            Some(d) => if d.object_member("patternProperties"@).len() > 0 {
                Some(d.object_member("patternProperties"@)[0].1)
            } else {
                None
            },
            None => None,
        },
        None => None,
    }
}

/// The fields of a type of devices.
pub open spec fn type_fields(
    root: Outline,
    refs: Map<Seq<char>, Outline>,
    device_type: Seq<char>,
    depth: nat,
) -> Option<Fields> {
    match instance_outline(root, device_type) {
        Some(o) => collected(refs, o, Seq::empty(), Map::empty(), depth),
        None => Some(Map::empty()),
    }
}

/// The names of members.
pub open spec fn entry_names(es: Seq<(Seq<char>, Outline)>) -> Seq<Seq<char>> {
    Seq::new(es.len(), |i: int| es[i].0)
}

/// The types of devices of the schema.
pub fn electrical_types(doc: &SchemaDoc) -> (out: Vec<String>)
    ensures
        views(out@) == entry_names(doc.root@.object_member("properties"@)),
{
    let mut out: Vec<String> = Vec::new();
    match doc.root.object_member("properties") {
        Some(es) => {
            let ghost all = entry_names(entry_outlines(es@));
            proof {
                lemma_entry_outlines(es@);
            }
            let mut i: usize = 0;
            assert(views(out@) =~= all.take(0));
            while i < es.len()
                invariant
                    i <= es@.len(),
                    all.len() == es@.len(),
                    forall|k: int| 0 <= k < es@.len() ==> #[trigger] all[k] == es@[k].0@,
                    views(out@) == all.take(i as int),
                decreases es@.len() - i,
            {
                push_text(&mut out, es[i].0.clone());
                assert(all.take(i as int + 1) =~= all.take(i as int).push(all[i as int]));
                i += 1;
            }
            assert(all.take(i as int) =~= all);
        },
        None => {
            assert(views(out@) =~= entry_names(Seq::empty()));
        },
    }
    out
}

fn path_under(prefix: &str, name: &str) -> (s: String)
    ensures
        s@ == member_path(prefix@, name@),
{
    if prefix.is_empty() {
        name.to_owned()
    } else {
        cat3(prefix, ".", name)
    }
}

fn node_has_fields(n: &Node) -> (r: bool)
    ensures
        r == has_fields(n@),
{
    n.object_member("properties").is_some() || n.object_member("patternProperties").is_some()
}

/// Whether a value, or what it refers to, has fields of its own.
pub fn is_container(refs: &StrMap<Node>, n: &Node) -> (r: bool)
    ensures
        r == contains_fields(ref_models(refs@), n@),
{
    if node_has_fields(n) {
        return true;
    }
    match n.text_member("$ref") {
        Some(reference) => {
            if starts_with(reference.as_str(), "#/") {
                match refs.get(reference.as_str()) {
                    Some(target) => node_has_fields(target),
                    None => false,
                }
            } else {
                false
            }
        },
        None => false,
    }
}

fn leaf(n: &Node, path: &str) -> (f: SignalKField)
    ensures
        f@ == leaf_field(n@, path@),
{
    let unit: Option<String> = match n.member("units") {
        Some(Node::Text(s)) => Some(s.clone()),
        Some(_) => None,
        None => n.text_member("unit"),
    };
    SignalKField {
        path: path.to_owned(),
        unit,
        description: n.text_member("description"),
        pattern: None,
    }
}

/// Whether fields were collected as they should be.
spec fn collects(ok: bool, fields: Map<Seq<char>, SignalKField>, wanted: Option<Fields>) -> bool {
    match wanted {
        Some(m) => ok && field_models(fields) == m,
        None => !ok,
    }
}

fn put_field(fields: &mut StrMap<SignalKField>, path: String, f: SignalKField)
    ensures
        field_models(final(fields)@) == field_models(old(fields)@).insert(path@, f@),
{
    let ghost start = field_models(fields@);
    let ghost (p, v) = (path@, f@);
    fields.insert(path, f);
    assert(field_models(fields@) =~= start.insert(p, v));
}

/// Collects the fields of a value under a prefix. Says whether `depth` was enough to
/// follow its references.
pub fn collect_object_fields(
    refs: &StrMap<Node>,
    n: &Node,
    prefix: &str,
    fields: &mut StrMap<SignalKField>,
    depth: usize,
) -> (ok: bool)
    ensures
        match collected(
            ref_models(refs@),
            n@,
            prefix@,
            field_models(old(fields)@),
            depth as nat,
        ) {
            Some(m) => ok && field_models(final(fields)@) == m,
            None => !ok,
        },
    decreases depth, n@, 0int,
{
    let ghost rm = ref_models(refs@);
    proof {
        lemma_member_is_smaller(n@, "allOf"@);
        lemma_member_is_smaller(n@, "properties"@);
        lemma_member_is_smaller(n@, "patternProperties"@);
    }
    match n.text_member("$ref") {
        Some(reference) => match refs.get(reference.as_str()) {
            Some(target) => {
                if depth == 0 {
                    return false;
                }
                if !collect_object_fields(refs, target, prefix, fields, depth - 1) {
                    return false;
                }
            },
            None => {},
        },
        None => {},
    }
    match n.list_member("allOf") {
        Some(parts) => {
            proof {
                lemma_outlines(parts@);
            }
            if parts.len() > 0 {
                if !collect_parts(refs, parts, prefix, fields, depth) {
                    return false;
                }
            }
        },
        None => {},
    }
    match n.object_member("properties") {
        Some(es) => {
            proof {
                lemma_entry_outlines(es@);
            }
            if es.len() > 0 {
                if !collect_properties(refs, es, prefix, fields, depth) {
                    return false;
                }
            }
        },
        None => {},
    }
    match n.object_member("patternProperties") {
        Some(es) => {
            proof {
                lemma_entry_outlines(es@);
            }
            if es.len() > 0 {
                collect_patterns(refs, es, prefix, fields, depth)
            } else {
                true
            }
        },
        None => true,
    }
}

fn collect_parts(
    refs: &StrMap<Node>,
    parts: &Vec<Node>,
    prefix: &str,
    fields: &mut StrMap<SignalKField>,
    depth: usize,
) -> (ok: bool)
    ensures
        collects(
            ok,
            final(fields)@,
            collected_parts(
                ref_models(refs@),
                outlines(parts@),
                prefix@,
                field_models(old(fields)@),
                depth as nat,
            ),
        ),
    decreases depth, outlines(parts@), 1int,
{
    let ghost rm = ref_models(refs@);
    let ghost start = field_models(fields@);
    let ghost all = outlines(parts@);
    proof {
        lemma_outlines(parts@);
    }
    let mut i: usize = 0;
    while i < parts.len()
        invariant
            i <= parts@.len(),
            all == outlines(parts@),
            all.len() == parts@.len(),
            forall|k: int| 0 <= k < parts@.len() ==> #[trigger] all[k] == parts@[k]@,
            rm == ref_models(refs@),
            start == field_models(old(fields)@),
            collected_parts(rm, all.take(i as int), prefix@, start, depth as nat) == Some(
                field_models(fields@),
            ),
        decreases parts@.len() - i,
    {
        proof {
            let next = all.take(i as int + 1);
            assert(next.drop_last() =~= all.take(i as int));
            assert(next.last() == all[i as int]);
            assert(decreases_to!(all => all[i as int]));
        }
        if !collect_object_fields(refs, &parts[i], prefix, fields, depth) {
            proof {
                lemma_parts_fail(rm, all, prefix@, start, depth as nat, i as int + 1);
            }
            return false;
        }
        i += 1;
    }
    assert(all.take(i as int) =~= all);
    true
}

proof fn lemma_parts_fail(
    refs: Map<Seq<char>, Outline>,
    parts: Seq<Outline>,
    prefix: Seq<char>,
    acc: Fields,
    depth: nat,
    i: int,
)
    requires
        0 <= i <= parts.len(),
        collected_parts(refs, parts.take(i), prefix, acc, depth) is None,
    ensures
        collected_parts(refs, parts, prefix, acc, depth) is None,
    decreases parts.len() - i,
{
    if i == parts.len() {
        assert(parts.take(i) =~= parts);
    } else {
        assert(parts.take(i + 1).drop_last() =~= parts.take(i));
        lemma_parts_fail(refs, parts, prefix, acc, depth, i + 1);
    }
}

/// Collects a property. Says whether `depth` was enough to follow its references.
fn collect_property(
    refs: &StrMap<Node>,
    name: &str,
    n: &Node,
    prefix: &str,
    fields: &mut StrMap<SignalKField>,
    depth: usize,
) -> (ok: bool)
    ensures
        ({
            let rm = ref_models(refs@);
            let start = field_models(old(fields)@);
            let path = member_path(prefix@, name@);
            collects(
                ok,
                final(fields)@,
                if is_identity(name@) {
                    Some(start)
                } else if contains_fields(rm, n@) {
                    collected(rm, n@, path, start, depth as nat)
                } else {
                    Some(start.insert(path, leaf_field(n@, path)))
                },
            )
        }),
    decreases depth, n@, 1int,
{
    if is_identity_field(name) {
        return true;
    }
    let path = path_under(prefix, name);
    if is_container(refs, n) {
        collect_object_fields(refs, n, path.as_str(), fields, depth)
    } else {
        let f = leaf(n, path.as_str());
        put_field(fields, path, f);
        true
    }
}

fn collect_properties(
    refs: &StrMap<Node>,
    es: &Vec<(String, Node)>,
    prefix: &str,
    fields: &mut StrMap<SignalKField>,
    depth: usize,
) -> (ok: bool)
    ensures
        collects(
            ok,
            final(fields)@,
            collected_properties(
                ref_models(refs@),
                entry_outlines(es@),
                prefix@,
                field_models(old(fields)@),
                depth as nat,
            ),
        ),
    decreases depth, entry_outlines(es@), 1int,
{
    let ghost rm = ref_models(refs@);
    let ghost start = field_models(fields@);
    let ghost all = entry_outlines(es@);
    proof {
        lemma_entry_outlines(es@);
    }
    let mut i: usize = 0;
    while i < es.len()
        invariant
            i <= es@.len(),
            all == entry_outlines(es@),
            all.len() == es@.len(),
            forall|k: int| 0 <= k < es@.len() ==> #[trigger] all[k] == (es@[k].0@, es@[k].1@),
            rm == ref_models(refs@),
            start == field_models(old(fields)@),
            collected_properties(rm, all.take(i as int), prefix@, start, depth as nat) == Some(
                field_models(fields@),
            ),
        decreases es@.len() - i,
    {
        proof {
            let next = all.take(i as int + 1);
            assert(next.drop_last() =~= all.take(i as int));
            assert(next.last() == all[i as int]);
            assert(decreases_to!(all => all[i as int]));
            assert(decreases_to!(all[i as int] => all[i as int].1));
        }
        if !collect_property(refs, es[i].0.as_str(), &es[i].1, prefix, fields, depth) {
            proof {
                lemma_properties_fail(rm, all, prefix@, start, depth as nat, i as int + 1);
            }
            return false;
        }
        i += 1;
    }
    assert(all.take(i as int) =~= all);
    true
}

proof fn lemma_properties_fail(
    refs: Map<Seq<char>, Outline>,
    es: Seq<(Seq<char>, Outline)>,
    prefix: Seq<char>,
    acc: Fields,
    depth: nat,
    i: int,
)
    requires
        0 <= i <= es.len(),
        collected_properties(refs, es.take(i), prefix, acc, depth) is None,
    ensures
        collected_properties(refs, es, prefix, acc, depth) is None,
    decreases es.len() - i,
{
    if i == es.len() {
        assert(es.take(i) =~= es);
    } else {
        assert(es.take(i + 1).drop_last() =~= es.take(i));
        lemma_properties_fail(refs, es, prefix, acc, depth, i + 1);
    }
}

/// Takes over fields, with what the name of a part of their paths has to match.
fn take_over(fields: &mut StrMap<SignalKField>, found: &StrMap<SignalKField>, pattern: &str)
    ensures
        field_models(final(fields)@) == field_models(old(fields)@).union_prefer_right(
            with_pattern(field_models(found@), pattern@),
        ),
{
    let ghost start = field_models(fields@);
    let ghost keys = found.keys();
    let ghost new = with_pattern(field_models(found@), pattern@);
    let n: usize = found.len();
    let mut i: usize = 0;
    assert(field_models(fields@) =~= start.union_prefer_right(
        new.restrict(keys.take(0).to_set()),
    ));
    while i < n
        invariant
            i <= n,
            n == keys.len(),
            keys == found.keys(),
            found.well_formed(),
            new == with_pattern(field_models(found@), pattern@),
            field_models(fields@) == start.union_prefer_right(
                new.restrict(keys.take(i as int).to_set()),
            ),
        decreases n - i,
    {
        let f = found.value_at(i);
        let g = SignalKField {
            path: f.path.clone(),
            unit: f.unit.clone(),
            description: f.description.clone(),
            pattern: Some(pattern.to_owned()),
        };
        let ghost k = keys[i as int];
        let ghost before_put = field_models(fields@);
        assert(g@ == new[k]);
        put_field(fields, found.key_at(i).clone(), g);
        proof {
            let now = keys.take(i as int + 1);
            assert(now =~= keys.take(i as int).push(k));
            assert(now[i as int] == k);
            assert forall|x: Seq<char>| keys.take(i as int).contains(x) implies now.contains(x) by {
                let j = keys.take(i as int).index_of(x);
                assert(now[j] == x);
            }
            assert(now.to_set() =~= keys.take(i as int).to_set().insert(k));
            assert(field_models(fields@) =~= start.union_prefer_right(
                new.restrict(now.to_set()),
            ));
        }
        i += 1;
    }
    proof {
        assert(keys.take(n as int) =~= keys);
        assert(new.restrict(keys.to_set()) =~= new);
    }
}

fn collect_patterns(
    refs: &StrMap<Node>,
    es: &Vec<(String, Node)>,
    prefix: &str,
    fields: &mut StrMap<SignalKField>,
    depth: usize,
) -> (ok: bool)
    ensures
        collects(
            ok,
            final(fields)@,
            collected_patterns(
                ref_models(refs@),
                entry_outlines(es@),
                prefix@,
                field_models(old(fields)@),
                depth as nat,
            ),
        ),
    decreases depth, entry_outlines(es@), 1int,
{
    let ghost rm = ref_models(refs@);
    let ghost start = field_models(fields@);
    let ghost all = entry_outlines(es@);
    proof {
        lemma_entry_outlines(es@);
    }
    let mut i: usize = 0;
    while i < es.len()
        invariant
            i <= es@.len(),
            all == entry_outlines(es@),
            all.len() == es@.len(),
            forall|k: int| 0 <= k < es@.len() ==> #[trigger] all[k] == (es@[k].0@, es@[k].1@),
            rm == ref_models(refs@),
            start == field_models(old(fields)@),
            collected_patterns(rm, all.take(i as int), prefix@, start, depth as nat) == Some(
                field_models(fields@),
            ),
        decreases es@.len() - i,
    {
        proof {
            let next = all.take(i as int + 1);
            assert(next.drop_last() =~= all.take(i as int));
            assert(next.last() == all[i as int]);
            assert(decreases_to!(all => all[i as int]));
            assert(decreases_to!(all[i as int] => all[i as int].1));
        }
        if !collect_pattern_property(refs, es[i].0.as_str(), &es[i].1, prefix, fields, depth) {
            proof {
                lemma_patterns_fail(rm, all, prefix@, start, depth as nat, i as int + 1);
            }
            return false;
        }
        i += 1;
    }
    assert(all.take(i as int) =~= all);
    true
}

/// Collects a pattern. Says whether `depth` was enough to follow its references.
fn collect_pattern_property(
    refs: &StrMap<Node>,
    pattern: &str,
    n: &Node,
    prefix: &str,
    fields: &mut StrMap<SignalKField>,
    depth: usize,
) -> (ok: bool)
    ensures
        ({
            let rm = ref_models(refs@);
            let start = field_models(old(fields)@);
            let path = member_path(prefix@, "{key}"@);
            collects(
                ok,
                final(fields)@,
                match collected(rm, n@, path, Map::empty(), depth as nat) {
                    Some(d) => Some(start.union_prefer_right(with_pattern(d, pattern@))),
                    None => None,
                },
            )
        }),
    decreases depth, n@, 1int,
{
    let path = path_under(prefix, "{key}");
    let mut found: StrMap<SignalKField> = StrMap::new();
    assert(field_models(found@) =~= Map::empty());
    if !collect_object_fields(refs, n, path.as_str(), &mut found, depth) {
        return false;
    }
    take_over(fields, &found, pattern);
    true
}

proof fn lemma_patterns_fail(
    refs: Map<Seq<char>, Outline>,
    es: Seq<(Seq<char>, Outline)>,
    prefix: Seq<char>,
    acc: Fields,
    depth: nat,
    i: int,
)
    requires
        0 <= i <= es.len(),
        collected_patterns(refs, es.take(i), prefix, acc, depth) is None,
    ensures
        collected_patterns(refs, es, prefix, acc, depth) is None,
    decreases es.len() - i,
{
    if i == es.len() {
        assert(es.take(i) =~= es);
    } else {
        assert(es.take(i + 1).drop_last() =~= es.take(i));
        lemma_patterns_fail(refs, es, prefix, acc, depth, i + 1);
    }
}

// ---- the fields of a type -------------------------------------------------------------------

/// Whether every field stands under its own path.
spec fn keyed(m: Fields) -> bool {
    forall|k: Seq<char>| #[trigger] m.dom().contains(k) ==> m[k].path == k
}

proof fn lemma_collected_keyed(
    refs: Map<Seq<char>, Outline>,
    o: Outline,
    prefix: Seq<char>,
    acc: Fields,
    depth: nat,
)
    requires
        keyed(acc),
    ensures
        collected(refs, o, prefix, acc, depth) matches Some(m) ==> keyed(m),
    decreases depth, o, 0int,
{
    lemma_member_is_smaller(o, "allOf"@);
    lemma_member_is_smaller(o, "properties"@);
    lemma_member_is_smaller(o, "patternProperties"@);
    let a = match o.text_member("$ref"@) {
        Some(r) => if refs.dom().contains(r) {
            if depth == 0 {
                None
            } else {
                collected(refs, refs[r], prefix, acc, (depth - 1) as nat)
            }
        } else {
            Some(acc)
        },
        None => Some(acc),
    };
    if o.text_member("$ref"@) is Some && refs.dom().contains(o.text_member("$ref"@)->0) && depth
        > 0 {
        lemma_collected_keyed(
            refs,
            refs[o.text_member("$ref"@)->0],
            prefix,
            acc,
            (depth - 1) as nat,
        );
    }
    if a is Some {
        let m = a->0;
        let parts = o.list_member("allOf"@);
        if parts.len() > 0 {
            lemma_parts_keyed(refs, parts, prefix, m, depth);
        }
        let b = if parts.len() > 0 {
            collected_parts(refs, parts, prefix, m, depth)
        } else {
            Some(m)
        };
        if b is Some {
            let es = o.object_member("properties"@);
            if es.len() > 0 {
                lemma_properties_keyed(refs, es, prefix, b->0, depth);
            }
            let c = if es.len() > 0 {
                collected_properties(refs, es, prefix, b->0, depth)
            } else {
                b
            };
            let ps = o.object_member("patternProperties"@);
            if c is Some && ps.len() > 0 {
                lemma_patterns_keyed(refs, ps, prefix, c->0, depth);
            }
        }
    }
}

proof fn lemma_parts_keyed(
    refs: Map<Seq<char>, Outline>,
    parts: Seq<Outline>,
    prefix: Seq<char>,
    acc: Fields,
    depth: nat,
)
    requires
        keyed(acc),
    ensures
        collected_parts(refs, parts, prefix, acc, depth) matches Some(m) ==> keyed(m),
    decreases depth, parts, 1int,
{
    if parts.len() > 0 {
        lemma_parts_keyed(refs, parts.drop_last(), prefix, acc, depth);
        if let Some(m) = collected_parts(refs, parts.drop_last(), prefix, acc, depth) {
            lemma_collected_keyed(refs, parts.last(), prefix, m, depth);
        }
    }
}

proof fn lemma_properties_keyed(
    refs: Map<Seq<char>, Outline>,
    es: Seq<(Seq<char>, Outline)>,
    prefix: Seq<char>,
    acc: Fields,
    depth: nat,
)
    requires
        keyed(acc),
    ensures
        collected_properties(refs, es, prefix, acc, depth) matches Some(m) ==> keyed(m),
    decreases depth, es, 1int,
{
    if es.len() > 0 {
        lemma_properties_keyed(refs, es.drop_last(), prefix, acc, depth);
        if let Some(m) = collected_properties(refs, es.drop_last(), prefix, acc, depth) {
            let path = member_path(prefix, es.last().0);
            lemma_collected_keyed(refs, es.last().1, path, m, depth);
        }
    }
}

proof fn lemma_patterns_keyed(
    refs: Map<Seq<char>, Outline>,
    es: Seq<(Seq<char>, Outline)>,
    prefix: Seq<char>,
    acc: Fields,
    depth: nat,
)
    requires
        keyed(acc),
    ensures
        collected_patterns(refs, es, prefix, acc, depth) matches Some(m) ==> keyed(m),
    decreases depth, es, 1int,
{
    if es.len() > 0 {
        lemma_patterns_keyed(refs, es.drop_last(), prefix, acc, depth);
        let path = member_path(prefix, "{key}"@);
        lemma_collected_keyed(refs, es.last().1, path, Map::empty(), depth);
    }
}

/// What a list of fields holds.
pub open spec fn list_models(v: Seq<SignalKField>) -> Seq<SchemaField> {
    v.map_values(|f: SignalKField| f@)
}

/// The paths of fields.
pub open spec fn paths_of(v: Seq<SchemaField>) -> Seq<Seq<char>> {
    Seq::new(v.len(), |i: int| v[i].path)
}

/// Whether a list has the fields that it should have, in the order of their paths.
pub open spec fn lists(v: Seq<SchemaField>, m: Fields) -> bool {
    &&& ordered(paths_of(v))
    &&& forall|i: int|
        0 <= i < v.len() ==> m.dom().contains((#[trigger] v[i]).path) && m[v[i].path] == v[i]
    &&& forall|k: Seq<char>| #[trigger] m.dom().contains(k) ==> paths_of(v).contains(k)
}

fn list_fields(fields: &StrMap<SignalKField>) -> (out: Vec<SignalKField>)
    requires
        keyed(field_models(fields@)),
    ensures
        lists(list_models(out@), field_models(fields@)),
{
    let ghost m = field_models(fields@);
    let ghost keys = fields.keys();
    let n: usize = fields.len();
    let mut out: Vec<SignalKField> = Vec::new();
    let mut i: usize = 0;
    while i < n
        invariant
            i <= n,
            n == keys.len(),
            keys == fields.keys(),
            fields.well_formed(),
            m == field_models(fields@),
            keyed(m),
            out@.len() == i,
            forall|k: int| 0 <= k < i ==> (#[trigger] out@[k])@ == m[keys[k]],
        decreases n - i,
    {
        let f = fields.value_at(i);
        assert(m[keys[i as int]] == f@);
        out.push(
            SignalKField {
                path: f.path.clone(),
                unit: f.unit.clone(),
                description: f.description.clone(),
                pattern: f.pattern.clone(),
            },
        );
        i += 1;
    }
    proof {
        let v = list_models(out@);
        assert forall|k: int| 0 <= k < n implies #[trigger] paths_of(v)[k] == keys[k] by {
            assert(out@[k]@ == m[keys[k]]);
            assert(m.dom().contains(keys[k]));
        }
        assert(paths_of(v) =~= keys);
        assert forall|k: Seq<char>| #[trigger] m.dom().contains(k) implies paths_of(v).contains(
            k,
        ) by {
            assert(fields@.dom().contains(k));
        }
        assert forall|k: int| 0 <= k < v.len() implies m.dom().contains((#[trigger] v[k]).path)
            && m[v[k].path] == v[k] by {
            assert(paths_of(v)[k] == keys[k]);
            assert(m.dom().contains(keys[k]));
            assert(out@[k]@ == m[keys[k]]);
        }
    }
    out
}

/// The fields of a type of devices, in the order of their paths. There is no answer where
/// references lead on more often than they can be counted.
pub fn electrical_fields(doc: &SchemaDoc, device_type: &str) -> (r: Option<Vec<SignalKField>>)
    ensures
        match type_fields(doc.root@, ref_models(doc.refs@), device_type@, usize::MAX as nat) {
            Some(m) => r matches Some(v) && lists(list_models(v@), m),
            None => r is None,
        },
{
    let mut fields: StrMap<SignalKField> = StrMap::new();
    assert(field_models(fields@) =~= Map::empty());
    let none: Option<Vec<SignalKField>> = Some(Vec::new());
    proof {
        assert(list_models(none->0@) =~= Seq::empty());
        assert(paths_of(Seq::empty()) =~= Seq::empty());
    }
    let device = match doc.root.member("properties") {
        Some(p) => match p.member(device_type) {
            Some(d) => d,
            None => {
                return none;
            },
        },
        None => {
            return none;
        },
    };
    let es = match device.object_member("patternProperties") {
        Some(es) => es,
        None => {
            return none;
        },
    };
    proof {
        lemma_entry_outlines(es@);
    }
    if es.len() == 0 {
        return none;
    }
    let instance = &es[0].1;
    proof {
        reveal_strlit("");
        assert(""@ =~= Seq::empty());
        lemma_collected_keyed(
            ref_models(doc.refs@),
            instance@,
            Seq::empty(),
            Map::empty(),
            usize::MAX as nat,
        );
    }
    if collect_object_fields(&doc.refs, instance, "", &mut fields, usize::MAX) {
        Some(list_fields(&fields))
    } else {
        None
    }
}

/// More room to follow references changes no answer that there is.
pub proof fn law_depth_changes_no_answer(
    refs: Map<Seq<char>, Outline>,
    o: Outline,
    prefix: Seq<char>,
    acc: Fields,
    depth: nat,
)
    requires
        collected(refs, o, prefix, acc, depth) is Some,
    ensures
        collected(refs, o, prefix, acc, depth + 1) == collected(refs, o, prefix, acc, depth),
    decreases depth, o, 0int,
{
    lemma_member_is_smaller(o, "allOf"@);
    lemma_member_is_smaller(o, "properties"@);
    lemma_member_is_smaller(o, "patternProperties"@);
    let r = o.text_member("$ref"@);
    let follows = r is Some && refs.dom().contains(r->0);
    if follows {
        law_depth_changes_no_answer(refs, refs[r->0], prefix, acc, (depth - 1) as nat);
    }
    let a = if follows {
        collected(refs, refs[r->0], prefix, acc, (depth - 1) as nat)
    } else {
        Some(acc)
    };
    let parts = o.list_member("allOf"@);
    if parts.len() > 0 {
        lemma_parts_depth(refs, parts, prefix, a->0, depth);
    }
    let b = if parts.len() > 0 {
        collected_parts(refs, parts, prefix, a->0, depth)
    } else {
        a
    };
    let es = o.object_member("properties"@);
    if es.len() > 0 {
        lemma_properties_depth(refs, es, prefix, b->0, depth);
    }
    let c = if es.len() > 0 {
        collected_properties(refs, es, prefix, b->0, depth)
    } else {
        b
    };
    let ps = o.object_member("patternProperties"@);
    if ps.len() > 0 {
        lemma_patterns_depth(refs, ps, prefix, c->0, depth);
    }
}

proof fn lemma_parts_depth(
    refs: Map<Seq<char>, Outline>,
    parts: Seq<Outline>,
    prefix: Seq<char>,
    acc: Fields,
    depth: nat,
)
    requires
        collected_parts(refs, parts, prefix, acc, depth) is Some,
    ensures
        collected_parts(refs, parts, prefix, acc, depth + 1) == collected_parts(
            refs,
            parts,
            prefix,
            acc,
            depth,
        ),
    decreases depth, parts, 1int,
{
    if parts.len() > 0 {
        lemma_parts_depth(refs, parts.drop_last(), prefix, acc, depth);
        let m = collected_parts(refs, parts.drop_last(), prefix, acc, depth)->0;
        law_depth_changes_no_answer(refs, parts.last(), prefix, m, depth);
    }
}

proof fn lemma_properties_depth(
    refs: Map<Seq<char>, Outline>,
    es: Seq<(Seq<char>, Outline)>,
    prefix: Seq<char>,
    acc: Fields,
    depth: nat,
)
    requires
        collected_properties(refs, es, prefix, acc, depth) is Some,
    ensures
        collected_properties(refs, es, prefix, acc, depth + 1) == collected_properties(
            refs,
            es,
            prefix,
            acc,
            depth,
        ),
    decreases depth, es, 1int,
{
    if es.len() > 0 {
        lemma_properties_depth(refs, es.drop_last(), prefix, acc, depth);
        let m = collected_properties(refs, es.drop_last(), prefix, acc, depth)->0;
        let (name, o) = (es.last().0, es.last().1);
        if !is_identity(name) && contains_fields(refs, o) {
            law_depth_changes_no_answer(refs, es.last().1, member_path(prefix, name), m, depth);
        }
    }
}

proof fn lemma_patterns_depth(
    refs: Map<Seq<char>, Outline>,
    es: Seq<(Seq<char>, Outline)>,
    prefix: Seq<char>,
    acc: Fields,
    depth: nat,
)
    requires
        collected_patterns(refs, es, prefix, acc, depth) is Some,
    ensures
        collected_patterns(refs, es, prefix, acc, depth + 1) == collected_patterns(
            refs,
            es,
            prefix,
            acc,
            depth,
        ),
    decreases depth, es, 1int,
{
    if es.len() > 0 {
        lemma_patterns_depth(refs, es.drop_last(), prefix, acc, depth);
        let path = member_path(prefix, "{key}"@);
        law_depth_changes_no_answer(refs, es.last().1, path, Map::empty(), depth);
    }
}

} // verus!
