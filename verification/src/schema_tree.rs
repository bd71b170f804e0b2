//! The part of a JSON document that a schema is read from.

use vstd::prelude::*;

use crate::strmap::StrMap;
use crate::text::{chars_of, same, text_of};

verus! {

/// A value of a document: its texts, lists and objects. What it holds else is of no
/// account here.
pub enum Node {
    Other,
    Text(String),
    Array(Vec<Node>),
    /// The members, in the order in which they are held.
    Object(Vec<(String, Node)>),
}

/// What a value of a document holds.
pub enum Outline {
    Other,
    Text(Seq<char>),
    Array(Seq<Outline>),
    Object(Seq<(Seq<char>, Outline)>),
}

/// What a value holds.
pub open spec fn outline(n: Node) -> Outline
    decreases n,
{
    match n {
        Node::Other => Outline::Other,
        Node::Text(s) => Outline::Text(s@),
        Node::Array(v) => Outline::Array(outlines(v@)),
        Node::Object(es) => Outline::Object(entry_outlines(es@)),
    }
}

/// What values hold.
pub open spec fn outlines(v: Seq<Node>) -> Seq<Outline>
    decreases v,
{
    if v.len() == 0 {
        Seq::empty()
    } else {
        outlines(v.drop_last()).push(outline(v.last()))
    }
}

/// What members hold.
pub open spec fn entry_outlines(es: Seq<(String, Node)>) -> Seq<(Seq<char>, Outline)>
    decreases es,
{
    if es.len() == 0 {
        Seq::empty()
    } else {
        entry_outlines(es.drop_last()).push((es.last().0@, outline(es.last().1)))
    }
}

impl View for Node {
    type V = Outline;

    open spec fn view(&self) -> Outline {
        outline(*self)
    }
}

/// What is held by values is held by each of them.
pub proof fn lemma_outlines(v: Seq<Node>)
    ensures
        outlines(v).len() == v.len(),
        forall|i: int| 0 <= i < v.len() ==> #[trigger] outlines(v)[i] == outline(v[i]),
    decreases v.len(),
{
    if v.len() > 0 {
        lemma_outlines(v.drop_last());
        assert forall|i: int| 0 <= i < v.len() implies #[trigger] outlines(v)[i] == outline(
            v[i],
        ) by {
            if i < v.len() - 1 {
                assert(outlines(v.drop_last())[i] == outline(v.drop_last()[i]));
            }
        }
    }
}

/// What is held by members is held by each of them.
pub proof fn lemma_entry_outlines(es: Seq<(String, Node)>)
    ensures
        entry_outlines(es).len() == es.len(),
        forall|i: int|
            0 <= i < es.len() ==> #[trigger] entry_outlines(es)[i] == (
                es[i].0@,
                outline(es[i].1),
            ),
    decreases es.len(),
{
    if es.len() > 0 {
        lemma_entry_outlines(es.drop_last());
        assert forall|i: int| 0 <= i < es.len() implies #[trigger] entry_outlines(es)[i] == (
            es[i].0@,
            outline(es[i].1),
        ) by {
            if i < es.len() - 1 {
                let d = es.drop_last();
                assert(entry_outlines(d)[i] == (d[i].0@, outline(d[i].1)));
            }
        }
    }
}

/// The first member of a name.
pub open spec fn find_entry(es: Seq<(Seq<char>, Outline)>, key: Seq<char>) -> Option<Outline>
    decreases es.len(),
{
    if es.len() == 0 {
        None
    } else if es[0].0 == key {
        Some(es[0].1)
    } else {
        find_entry(es.drop_first(), key)
    }
}

impl Outline {
    /// A member of an object.
    pub open spec fn member(self, key: Seq<char>) -> Option<Outline> {
        match self {
            Outline::Object(es) => find_entry(es, key),
            _ => None,
        }
    }

    /// A member that is a text.
    pub open spec fn text_member(self, key: Seq<char>) -> Option<Seq<char>> {
        match self.member(key) {
            Some(Outline::Text(s)) => Some(s),
            _ => None,
        }
    }

    /// The values of a member that is a list.
    pub open spec fn list_member(self, key: Seq<char>) -> Seq<Outline> {
        match self.member(key) {
            Some(Outline::Array(v)) => v,
            _ => Seq::empty(),
        }
    }

    /// The members of a member that is an object.
    pub open spec fn object_member(self, key: Seq<char>) -> Seq<(Seq<char>, Outline)> {
        match self.member(key) {
            Some(Outline::Object(es)) => es,
            _ => Seq::empty(),
        }
    }

    /// Whether a member is an object.
    pub open spec fn has_object(self, key: Seq<char>) -> bool {
        self.member(key) matches Some(Outline::Object(_))
    }
}

proof fn lemma_find_entry(es: Seq<(Seq<char>, Outline)>, key: Seq<char>)
    ensures
        find_entry(es, key) matches Some(o) ==> exists|i: int|
            0 <= i < es.len() && o == (#[trigger] es[i]).1,
    decreases es.len(),
{
    if es.len() > 0 && es[0].0 != key {
        let rest = es.drop_first();
        lemma_find_entry(rest, key);
        if let Some(o) = find_entry(es, key) {
            let i = choose|i: int| 0 <= i < rest.len() && o == (#[trigger] rest[i]).1;
            assert(es[i + 1].1 == o);
        }
    }
}

/// A member is smaller than what it is a member of.
pub proof fn lemma_member_is_smaller(j: Outline, key: Seq<char>)
    ensures
        j.member(key) matches Some(o) ==> decreases_to!(j => o),
        j.member(key) matches Some(Outline::Array(v)) ==> decreases_to!(j => v),
        j.member(key) matches Some(Outline::Object(es)) ==> decreases_to!(j => es),
{
    if j.member(key) is Some {
        let o = j.member(key)->0;
        let es = j->Object_0;
        lemma_find_entry(es, key);
        let i = choose|i: int| 0 <= i < es.len() && o == (#[trigger] es[i]).1;
        assert(decreases_to!(j => es));
        assert(decreases_to!(es => es[i]));
        assert(decreases_to!(es[i] => es[i].1));
        if o is Array {
            assert(decreases_to!(o => o->Array_0));
        }
        if o is Object {
            assert(decreases_to!(o => o->Object_0));
        }
    }
}

/// A member stands where it is found.
pub proof fn lemma_find_entry_skip(es: Seq<(Seq<char>, Outline)>, key: Seq<char>, i: int)
    requires
        0 <= i <= es.len(),
        forall|k: int| 0 <= k < i ==> (#[trigger] es[k]).0 != key,
    ensures
        find_entry(es, key) == find_entry(es.skip(i), key),
    decreases i,
{
    if i == 0 {
        assert(es.skip(0) =~= es);
    } else {
        lemma_find_entry_skip(es, key, i - 1);
        assert(es.skip(i - 1)[0] == es[i - 1]);
        assert(es.skip(i - 1).drop_first() =~= es.skip(i));
    }
}

impl Node {
    /// A member of an object.
    pub fn member(&self, key: &str) -> (r: Option<&Node>)
        ensures
            match r {
                Some(n) => self@.member(key@) == Some(n@),
                None => self@.member(key@) is None,
            },
    {
        match self {
            Node::Object(es) => {
                let ghost all = entry_outlines(es@);
                proof {
                    lemma_entry_outlines(es@);
                }
                let mut i: usize = 0;
                while i < es.len()
                    invariant
                        i <= es@.len(),
                        all == entry_outlines(es@),
                        all.len() == es@.len(),
                        forall|k: int|
                            0 <= k < es@.len() ==> #[trigger] all[k] == (
                                es@[k].0@,
                                outline(es@[k].1),
                            ),
                        self@ == Outline::Object(all),
                        forall|k: int| 0 <= k < i ==> (#[trigger] all[k]).0 != key@,
                    decreases es@.len() - i,
                {
                    assert(all[i as int].0 == es@[i as int].0@);
                    if same(es[i].0.as_str(), key) {
                        proof {
                            lemma_find_entry_skip(all, key@, i as int);
                            assert(all.skip(i as int)[0] == all[i as int]);
                        }
                        return Some(&es[i].1);
                    }
                    i += 1;
                }
                proof {
                    lemma_find_entry_skip(all, key@, i as int);
                    assert(all.skip(i as int).len() == 0);
                }
                None
            },
            _ => None,
        }
    }

    /// A member that is a text.
    pub fn text_member(&self, key: &str) -> (r: Option<String>)
        ensures
            match r {
                Some(s) => self@.text_member(key@) == Some(s@),
                None => self@.text_member(key@) is None,
            },
    {
        match self.member(key) {
            Some(Node::Text(s)) => Some(s.clone()),
            _ => None,
        }
    }

    /// The values of a member that is a list.
    pub fn list_member(&self, key: &str) -> (r: Option<&Vec<Node>>)
        ensures
            match r {
                Some(v) => self@.list_member(key@) == outlines(v@) && self@.member(key@) == Some(
                    Outline::Array(outlines(v@)),
                ),
                None => self@.list_member(key@) == Seq::<Outline>::empty(),
            },
    {
        match self.member(key) {
            Some(Node::Array(v)) => Some(v),
            _ => None,
        }
    }

    /// The members of a member that is an object.
    pub fn object_member(&self, key: &str) -> (r: Option<&Vec<(String, Node)>>)
        ensures
            match r {
                Some(es) => self@.object_member(key@) == entry_outlines(es@) && self@.member(
                    key@,
                ) == Some(Outline::Object(entry_outlines(es@))),
                None => self@.object_member(key@) == Seq::<(Seq<char>, Outline)>::empty()
                    && !self@.has_object(key@),
            },
    {
        match self.member(key) {
            Some(Node::Object(es)) => Some(es),
            _ => None,
        }
    }
}

// ---- documents ----------------------------------------------------------------------------

/// `serde_json::Value`: a value of a document.
#[verifier::external_type_specification]
#[verifier::external_body]
pub struct ExValue(serde_json::Value);

/// What a `serde_json::Value` holds of texts, lists and objects.
pub uninterp spec fn outline_of(v: serde_json::Value) -> Outline;

/// What `serde_json::from_str` reads from a text, if it is a document.
pub uninterp spec fn parsed_json(text: Seq<char>) -> Option<Outline>;

/// What `serde_json::Value::pointer` finds in a value at a pointer.
pub uninterp spec fn pointed_at(value: Outline, pointer: Seq<char>) -> Option<Outline>;

/// What `serde_json` values hold.
pub open spec fn values_of(v: Seq<serde_json::Value>) -> Seq<Outline> {
    Seq::new(v.len(), |i: int| outline_of(v[i]))
}

/// What members of `serde_json` values hold.
pub open spec fn members_of(es: Seq<(String, serde_json::Value)>) -> Seq<(Seq<char>, Outline)> {
    Seq::new(es.len(), |i: int| (es[i].0@, outline_of(es[i].1)))
}

/// `serde_json::from_str`: reads a document, or refuses the text. What it reads is a
/// matter of the text alone.
#[verifier::external_body]
fn parse_json(text: &str) -> (r: Option<serde_json::Value>)
    ensures
        match r {
            Some(v) => parsed_json(text@) == Some(outline_of(v)),
            None => parsed_json(text@) is None,
        },
{
    match serde_json::from_str::<serde_json::Value>(text) {
        Ok(v) => Some(v),
        Err(_) => None,
    }
}

/// `serde_json::Value::pointer`: the value at a pointer, if there is one. Where it leads
/// is a matter of the pointer and of the lists and objects on the way, and what it finds
/// is the value itself or a part of it.
#[verifier::external_body]
fn value_at(v: &serde_json::Value, pointer: &str) -> (r: Option<serde_json::Value>)
    ensures
        match r {
            Some(t) => pointed_at(outline_of(*v), pointer@) == Some(outline_of(t)) && is_part(
                outline_of(t),
                outline_of(*v),
            ),
            None => pointed_at(outline_of(*v), pointer@) is None,
        },
{
    v.pointer(pointer).cloned()
}

/// `serde_json::Value::clone`: a value that holds the same.
#[verifier::external_body]
fn same_value(v: &serde_json::Value) -> (r: serde_json::Value)
    ensures
        outline_of(r) == outline_of(*v),
{
    v.clone()
}

/// A `serde_json::Value` with its outermost layer taken off.
enum Layer {
    Other,
    Text(String),
    Array(Vec<serde_json::Value>),
    Object(Vec<(String, serde_json::Value)>),
}

/// The variants of `serde_json::Value`: a text, a list of values, an object with its
/// members in the order in which it holds them, or something else.
#[verifier::external_body]
fn layer_of(v: serde_json::Value) -> (r: Layer)
    ensures
        match r {
            Layer::Other => outline_of(v) == Outline::Other,
            Layer::Text(s) => outline_of(v) == Outline::Text(s@),
            Layer::Array(items) => outline_of(v) == Outline::Array(values_of(items@)),
            Layer::Object(es) => outline_of(v) == Outline::Object(members_of(es@)),
        },
{
    match v {
        serde_json::Value::String(s) => Layer::Text(s),
        serde_json::Value::Array(items) => Layer::Array(items),
        serde_json::Value::Object(members) => Layer::Object(members.into_iter().collect()),
        _ => Layer::Other,
    }
}

fn read_value(v: serde_json::Value) -> (n: Node)
    ensures
        n@ == outline_of(v),
    decreases outline_of(v), 0int,
{
    match layer_of(v) {
        Layer::Other => Node::Other,
        Layer::Text(s) => Node::Text(s),
        Layer::Array(items) => {
            proof {
                assert(decreases_to!(outline_of(v) => outline_of(v)->Array_0));
            }
            let out = read_values(items);
            Node::Array(out)
        },
        Layer::Object(es) => {
            proof {
                assert(decreases_to!(outline_of(v) => outline_of(v)->Object_0));
            }
            let out = read_members(es);
            Node::Object(out)
        },
    }
}

fn read_values(items: Vec<serde_json::Value>) -> (out: Vec<Node>)
    ensures
        outlines(out@) == values_of(items@),
    decreases values_of(items@), 1int,
{
    let ghost all = values_of(items@);
    let ghost orig = items@;
    let mut rest = items;
    let mut out: Vec<Node> = Vec::new();
    let ghost mut done: int = 0;
    assert(orig.skip(0) =~= orig);
    while rest.len() > 0
        invariant
            0 <= done <= orig.len(),
            all == values_of(orig),
            orig == items@,
            rest@ == orig.skip(done),
            outlines(out@) == all.take(done),
        decreases rest@.len(),
    {
        let v = rest.remove(0);
        proof {
            assert(v == orig[done]);
            assert(all[done] == outline_of(v));
            assert(decreases_to!(all => all[done]));
            assert(orig.skip(done).remove(0) =~= orig.skip(done + 1));
        }
        let n = read_value(v);
        let ghost before = out@;
        let ghost last = n;
        out.push(n);
        proof {
            assert(out@.drop_last() =~= before);
            assert(out@.last() == last);
            assert(all.take(done + 1) =~= all.take(done).push(all[done]));
            done = done + 1;
        }
    }
    assert(all.take(done) =~= all);
    out
}

fn read_members(es: Vec<(String, serde_json::Value)>) -> (out: Vec<(String, Node)>)
    ensures
        entry_outlines(out@) == members_of(es@),
    decreases members_of(es@), 1int,
{
    let ghost all = members_of(es@);
    let ghost orig = es@;
    let mut rest = es;
    let mut out: Vec<(String, Node)> = Vec::new();
    let ghost mut done: int = 0;
    assert(orig.skip(0) =~= orig);
    while rest.len() > 0
        invariant
            0 <= done <= orig.len(),
            all == members_of(orig),
            orig == es@,
            rest@ == orig.skip(done),
            entry_outlines(out@) == all.take(done),
        decreases rest@.len(),
    {
        let (k, v) = rest.remove(0);
        proof {
            assert((k, v) == orig[done]);
            assert(all[done] == (k@, outline_of(v)));
            assert(decreases_to!(all => all[done]));
            assert(decreases_to!(all[done] => all[done].1));
            assert(orig.skip(done).remove(0) =~= orig.skip(done + 1));
        }
        let n = read_value(v);
        let ghost before = out@;
        let ghost last = (k, n);
        out.push((k, n));
        proof {
            assert(out@.drop_last() =~= before);
            assert(out@.last() == last);
            assert(all.take(done + 1) =~= all.take(done).push(all[done]));
            done = done + 1;
        }
    }
    assert(all.take(done) =~= all);
    out
}

// ---- references -----------------------------------------------------------------------------

/// Whether a value is another one or a part of it.
pub open spec fn is_part(t: Outline, o: Outline) -> bool
    decreases o, 0int,
{
    t == o || match o {
        Outline::Array(v) => is_part_of_any(t, v),
        Outline::Object(es) => is_part_of_member(t, es),
        _ => false,
    }
}

/// Whether a value is one of others or a part of one.
pub open spec fn is_part_of_any(t: Outline, v: Seq<Outline>) -> bool
    decreases v, 1int,
{
    v.len() > 0 && (is_part(t, v.last()) || is_part_of_any(t, v.drop_last()))
}

/// Whether a value is one of members or a part of one.
pub open spec fn is_part_of_member(t: Outline, es: Seq<(Seq<char>, Outline)>) -> bool
    decreases es, 1int,
{
    es.len() > 0 && (is_part(t, es.last().1) || is_part_of_member(t, es.drop_last()))
}

/// Whether a reference occurs in a value.
pub open spec fn refers(o: Outline, r: Seq<char>) -> bool
    decreases o, 0int,
{
    o.text_member("$ref"@) == Some(r) || match o {
        Outline::Array(v) => any_refers(v, r),
        Outline::Object(es) => member_refers(es, r),
        _ => false,
    }
}

/// Whether a reference occurs in one of some values.
pub open spec fn any_refers(v: Seq<Outline>, r: Seq<char>) -> bool
    decreases v, 1int,
{
    v.len() > 0 && (refers(v.last(), r) || any_refers(v.drop_last(), r))
}

/// Whether a reference occurs in one of some members.
pub open spec fn member_refers(es: Seq<(Seq<char>, Outline)>, r: Seq<char>) -> bool
    decreases es, 1int,
{
    es.len() > 0 && (refers(es.last().1, r) || member_refers(es.drop_last(), r))
}

proof fn lemma_part_refers(t: Outline, o: Outline, r: Seq<char>)
    requires
        is_part(t, o),
        refers(t, r),
    ensures
        refers(o, r),
    decreases o, 0int,
{
    if t != o {
        match o {
            Outline::Array(v) => lemma_part_of_any_refers(t, v, r),
            Outline::Object(es) => lemma_part_of_member_refers(t, es, r),
            _ => {},
        }
    }
}

proof fn lemma_part_of_any_refers(t: Outline, v: Seq<Outline>, r: Seq<char>)
    requires
        is_part_of_any(t, v),
        refers(t, r),
    ensures
        any_refers(v, r),
    decreases v, 1int,
{
    if is_part(t, v.last()) {
        lemma_part_refers(t, v.last(), r);
    } else {
        lemma_part_of_any_refers(t, v.drop_last(), r);
    }
}

proof fn lemma_part_of_member_refers(t: Outline, es: Seq<(Seq<char>, Outline)>, r: Seq<char>)
    requires
        is_part_of_member(t, es),
        refers(t, r),
    ensures
        member_refers(es, r),
    decreases es, 1int,
{
    if is_part(t, es.last().1) {
        lemma_part_refers(t, es.last().1, r);
    } else {
        lemma_part_of_member_refers(t, es.drop_last(), r);
    }
}

/// Notes the references that occur in a value.
fn note_refs(n: &Node, out: &mut StrMap<()>)
    ensures
        forall|r: Seq<char>|
            #![trigger final(out)@.dom().contains(r)]
            final(out)@.dom().contains(r) <==> old(out)@.dom().contains(r) || refers(n@, r),
    decreases n@, 0int,
{
    match n.text_member("$ref") {
        Some(r) => {
            out.insert(r, ());
        },
        None => {},
    }
    match n {
        Node::Array(v) => {
            assert(decreases_to!(n@ => n@->Array_0));
            note_refs_of_all(v, out);
        },
        Node::Object(es) => {
            assert(decreases_to!(n@ => n@->Object_0));
            note_refs_of_members(es, out);
        },
        _ => {},
    }
}

fn note_refs_of_all(v: &Vec<Node>, out: &mut StrMap<()>)
    ensures
        forall|r: Seq<char>|
            #![trigger final(out)@.dom().contains(r)]
            final(out)@.dom().contains(r) <==> old(out)@.dom().contains(r) || any_refers(
                outlines(v@),
                r,
            ),
    decreases outlines(v@), 1int,
{
    let ghost start = out@.dom();
    let ghost all = outlines(v@);
    proof {
        lemma_outlines(v@);
    }
    let mut i: usize = 0;
    while i < v.len()
        invariant
            i <= v@.len(),
            all == outlines(v@),
            all.len() == v@.len(),
            forall|k: int| 0 <= k < v@.len() ==> #[trigger] all[k] == v@[k]@,
            forall|r: Seq<char>|
                #![trigger out@.dom().contains(r)]
                out@.dom().contains(r) <==> start.contains(r) || any_refers(
                    all.take(i as int),
                    r,
                ),
        decreases v@.len() - i,
    {
        proof {
            let next = all.take(i as int + 1);
            assert(next.drop_last() =~= all.take(i as int));
            assert(next.last() == all[i as int]);
            assert(decreases_to!(all => all[i as int]));
        }
        note_refs(&v[i], out);
        i += 1;
    }
    assert(all.take(i as int) =~= all);
}

fn note_refs_of_members(es: &Vec<(String, Node)>, out: &mut StrMap<()>)
    ensures
        forall|r: Seq<char>|
            #![trigger final(out)@.dom().contains(r)]
            final(out)@.dom().contains(r) <==> old(out)@.dom().contains(r) || member_refers(
                entry_outlines(es@),
                r,
            ),
    decreases entry_outlines(es@), 1int,
{
    let ghost start = out@.dom();
    let ghost all = entry_outlines(es@);
    proof {
        lemma_entry_outlines(es@);
    }
    let mut i: usize = 0;
    while i < es.len()
        invariant
            i <= es@.len(),
            all == entry_outlines(es@),
            all.len() == es@.len(),
            forall|k: int| 0 <= k < es@.len() ==> #[trigger] all[k] == (es@[k].0@, es@[k].1@),
            forall|r: Seq<char>|
                #![trigger out@.dom().contains(r)]
                out@.dom().contains(r) <==> start.contains(r) || member_refers(
                    all.take(i as int),
                    r,
                ),
        decreases es@.len() - i,
    {
        proof {
            let next = all.take(i as int + 1);
            assert(next.drop_last() =~= all.take(i as int));
            assert(next.last() == all[i as int]);
            assert(decreases_to!(all => all[i as int]));
            assert(decreases_to!(all[i as int] => all[i as int].1));
        }
        note_refs(&es[i].1, out);
        i += 1;
    }
    assert(all.take(i as int) =~= all);
}

/// What a reference within a document leads to: what follows its `#` is a pointer.
pub open spec fn resolved(root: Outline, r: Seq<char>) -> Option<Outline> {
    if r.len() > 0 && r[0] == '#' {
        pointed_at(root, r.skip(1))
    } else {
        None
    }
}

fn resolve_local_ref(root: &serde_json::Value, reference: &str) -> (r: Option<Node>)
    ensures
        match r {
            Some(n) => resolved(outline_of(*root), reference@) == Some(n@) && is_part(
                n@,
                outline_of(*root),
            ),
            None => resolved(outline_of(*root), reference@) is None,
        },
{
    let v = chars_of(reference);
    if v.len() == 0 || v[0] != '#' {
        return None;
    }
    let pointer = text_of(&v, 1, v.len());
    assert(pointer@ =~= reference@.skip(1));
    match value_at(root, pointer.as_str()) {
        Some(t) => Some(read_value(t)),
        None => None,
    }
}

/// What the references of a document lead to, by the references.
pub open spec fn leads(root: Outline, table: Map<Seq<char>, Node>) -> bool {
    &&& forall|r: Seq<char>|
        #![trigger table.dom().contains(r)]
        table.dom().contains(r) <==> refers(root, r) && resolved(root, r) is Some
    &&& forall|r: Seq<char>|
        #![trigger table[r]]
        table.dom().contains(r) ==> resolved(root, r) == Some(table[r]@) && is_part(
            table[r]@,
            root,
        )
}

/// Reads a document and finds out what its references lead to.
pub fn read_document(text: &str) -> (r: Option<(Node, StrMap<Node>)>)
    ensures
        match r {
            Some((root, refs)) => parsed_json(text@) == Some(root@) && leads(root@, refs@),
            None => parsed_json(text@) is None,
        },
{
    let v = match parse_json(text) {
        Some(v) => v,
        None => {
            return None;
        },
    };
    let root = read_value(same_value(&v));
    let mut names: StrMap<()> = StrMap::new();
    note_refs(&root, &mut names);
    let mut refs: StrMap<Node> = StrMap::new();
    let n: usize = names.len();
    let ghost keys = names.keys();
    let ghost o = root@;
    let mut i: usize = 0;
    while i < n
        invariant
            i <= n,
            n == keys.len(),
            keys == names.keys(),
            names.well_formed(),
            o == outline_of(v),
            forall|r: Seq<char>|
                #![trigger refs@.dom().contains(r)]
                refs@.dom().contains(r) <==> keys.take(i as int).contains(r) && resolved(o, r) is Some,
            forall|r: Seq<char>|
                #![trigger refs@[r]]
                refs@.dom().contains(r) ==> resolved(o, r) == Some(refs@[r]@) && is_part(
                    refs@[r]@,
                    o,
                ),
        decreases n - i,
    {
        let name = names.key_at(i);
        proof {
            let (done, next) = (keys.take(i as int), keys.take(i as int + 1));
            let k = keys[i as int];
            assert(next[i as int] == k);
            assert forall|r: Seq<char>| next.contains(r) implies done.contains(r) || r == k by {
                let j = next.index_of(r);
                if j < i {
                    assert(done[j] == r);
                }
            }
            assert forall|r: Seq<char>| done.contains(r) implies next.contains(r) by {
                let j = done.index_of(r);
                assert(next[j] == r);
            }
        }
        match resolve_local_ref(&v, name.as_str()) {
            Some(t) => {
                refs.insert(name.clone(), t);
            },
            None => {},
        }
        i += 1;
    }
    proof {
        assert(keys.take(n as int) =~= keys);
        assert forall|r: Seq<char>|
            #![trigger refs@.dom().contains(r)]
            refs@.dom().contains(r) <==> refers(o, r) && resolved(o, r) is Some by {
            assert(names@.dom().contains(r) <==> refers(o, r));
            if keys.contains(r) {
                let j = keys.index_of(r);
                assert(names@.dom().contains(keys[j]));
            }
        }
    }
    Some((root, refs))
}

/// What references lead to is looked up completely: a reference that occurs in what
/// another one leads to is looked up as well, if it leads anywhere.
pub proof fn law_references_are_complete(
    root: Outline,
    table: Map<Seq<char>, Node>,
    r: Seq<char>,
    inner: Seq<char>,
)
    requires
        leads(root, table),
        table.dom().contains(r),
        refers(table[r]@, inner),
        resolved(root, inner) is Some,
    ensures
        table.dom().contains(inner),
        resolved(root, inner) == Some(table[inner]@),
{
    lemma_part_refers(table[r]@, root, inner);
}

} // verus!
