//! The file that turns whole menus and groups of a device on and off.
//!
//! Each line is `<instance>.<menu>[.<group>] = true|false`. The line of a group counts
//! before the line of its menu.

use vstd::prelude::*;

use crate::publication::{line, truth};
use crate::slug::{safe, segment};
use crate::strmap::StrMap;
use crate::text::{
    cat3, chars_of, find, find_from, is_white, join, join_with, lacks, lemma_find,
    lemma_find_unique, lemma_split_cat, lemma_split_one, lemma_trimmed_head, lemma_trimmed_id,
    lowercase, lowered, push_text, same, split, split_on, text_of, trim, trim_end, trim_start,
    trimmed, views,
};

verus! {

/// The groups of each instance.
pub type Groups = StrMap<StrMap<()>>;

/// The menu that is published.
pub open spec fn menu() -> Seq<char> {
    "monitoring"@
}

/// The key of a menu of an instance.
pub open spec fn menu_key(instance: Seq<char>, menu: Seq<char>) -> Seq<char> {
    instance + "."@ + menu
}

/// The key of a group in a menu of an instance.
pub open spec fn group_key(instance: Seq<char>, menu: Seq<char>, group: Seq<char>) -> Seq<char> {
    instance + "."@ + menu + "."@ + group
}

fn menu_key_text(instance: &str, menu: &str) -> (s: String)
    ensures
        s@ == menu_key(instance@, menu@),
{
    cat3(instance, ".", menu)
}

fn group_key_text(instance: &str, menu: &str, group: &str) -> (s: String)
    ensures
        s@ == group_key(instance@, menu@, group@),
{
    let mut s = cat3(instance, ".", menu);
    s.append(".");
    s.append(group);
    s
}

// ---- reading -------------------------------------------------------------------

/// Whether a word stands for on.
pub open spec fn says_on(v: Seq<char>) -> bool {
    let w = lowered(trimmed(v));
    w == "true"@ || w == "1"@ || w == "yes"@ || w == "on"@
}

/// What a line says: nothing, where it is blank, a comment, or has no `=`.
pub open spec fn line_entry(l: Seq<char>) -> Option<(Seq<char>, bool)> {
    let t = trimmed(l);
    let at = find(t, '=');
    if t.len() == 0 || t[0] == '#' || at >= t.len() {
        None
    } else {
        Some((trimmed(t.take(at)), says_on(t.skip(at + 1))))
    }
}

/// What is known once a line is read.
pub open spec fn with_line(map: Map<Seq<char>, bool>, l: Seq<char>) -> Map<Seq<char>, bool> {
    match line_entry(l) {
        Some((k, on)) => map.insert(k, on),
        None => map,
    }
}

/// What is known once lines are read. A later line counts before an earlier one.
pub open spec fn with_lines(
    map: Map<Seq<char>, bool>,
    lines: Seq<Seq<char>>,
) -> Map<Seq<char>, bool>
    decreases lines.len(),
{
    if lines.len() == 0 {
        map
    } else {
        with_lines(with_line(map, lines[0]), lines.drop_first())
    }
}

/// What a file says.
pub open spec fn file_entries(text: Seq<char>) -> Map<Seq<char>, bool> {
    with_lines(Map::empty(), split(text, '\n'))
}

fn is_on(v: &str) -> (r: bool)
    ensures
        r == says_on(v@),
{
    let w = lowercase(trim(v));
    let s = w.as_str();
    same(s, "true") || same(s, "1") || same(s, "yes") || same(s, "on")
}

fn read_line(l: &str) -> (r: Option<(String, bool)>)
    ensures
        match r {
            Some((k, on)) => line_entry(l@) == Some((k@, on)),
            None => line_entry(l@) is None,
        },
{
    let t = chars_of(trim(l));
    if t.len() == 0 || t[0] == '#' {
        return None;
    }
    proof {
        lemma_find(t@, '=');
        assert(t@.skip(0) =~= t@);
    }
    let at: usize = find_from(&t, '=', 0);
    if at >= t.len() {
        return None;
    }
    let k = text_of(&t, 0, at);
    let v = text_of(&t, at + 1, t.len());
    assert(k@ =~= t@.take(at as int));
    assert(v@ =~= t@.skip(at as int + 1));
    Some((trim(k.as_str()).to_owned(), is_on(v.as_str())))
}

/// Reads a file.
pub fn load_mapping(text: &str) -> (map: StrMap<bool>)
    ensures
        map@ == file_entries(text@),
{
    let lines = split_on(text, '\n');
    let ghost all = split(text@, '\n');
    let mut map: StrMap<bool> = StrMap::new();
    let mut i: usize = 0;
    assert(all.skip(0) =~= all);
    while i < lines.len()
        invariant
            i <= lines@.len(),
            views(lines@) == all,
            all.len() == lines@.len(),
            with_lines(map@, all.skip(i as int)) == with_lines(Map::empty(), all),
        decreases lines@.len() - i,
    {
        assert(all[i as int] == lines@[i as int]@);
        assert(all.skip(i as int)[0] == all[i as int]);
        assert(all.skip(i as int).drop_first() =~= all.skip(i as int + 1));
        match read_line(lines[i].as_str()) {
            Some((k, on)) => {
                map.insert(k, on);
            },
            None => {},
        }
        i += 1;
    }
    map
}

// ---- writing -------------------------------------------------------------------

/// What a file starts with.
pub open spec fn preamble() -> Seq<char> {
    "# masterbus-signalk Signal K mapping.\n"@
        + "# Edit the true/false flags below while the service is STOPPED, then restart.\n"@
        + "# Keys: <instance>.<menu>[.<group>] = true|false  (a group line overrides the\n"@
        + "# menu line). New devices are added automatically: the menu-level toggle\n"@
        + "# defaults to false and the battery `cluster` group to true.\n\n"@
}

/// The lines of those groups of an instance that have an entry.
pub open spec fn group_lines(
    map: Map<Seq<char>, bool>,
    instance: Seq<char>,
    groups: Seq<Seq<char>>,
) -> Seq<char>
    decreases groups.len(),
{
    if groups.len() == 0 {
        Seq::empty()
    } else {
        let k = group_key(instance, menu(), groups.last());
        let head = group_lines(map, instance, groups.drop_last());
        if map.dom().contains(k) {
            head + line(k, truth(map[k]))
        } else {
            head
        }
    }
}

/// Whether a menu is on; it is off without an entry.
pub open spec fn menu_on(map: Map<Seq<char>, bool>, instance: Seq<char>) -> bool {
    let k = menu_key(instance, menu());
    map.dom().contains(k) && map[k]
}

/// The lines of an instance: its groups in a comment, its menu, and its groups that
/// have an entry.
pub open spec fn instance_lines(
    map: Map<Seq<char>, bool>,
    instance: Seq<char>,
    groups: Seq<Seq<char>>,
) -> Seq<char> {
    "# "@ + instance + " — groups: "@ + join(groups, ", "@) + "\n"@ + line(
        menu_key(instance, menu()),
        truth(menu_on(map, instance)),
    ) + group_lines(map, instance, groups) + "\n"@
}

/// The groups of each instance, in order.
pub open spec fn group_names(groups: Seq<StrMap<()>>) -> Seq<Seq<Seq<char>>> {
    Seq::new(groups.len(), |i: int| groups[i].keys())
}

/// The lines of instances.
pub open spec fn all_lines(
    map: Map<Seq<char>, bool>,
    instances: Seq<Seq<char>>,
    groups: Seq<Seq<Seq<char>>>,
) -> Seq<char>
    decreases instances.len(),
{
    if instances.len() == 0 {
        Seq::empty()
    } else {
        all_lines(map, instances.drop_last(), groups.drop_last()) + instance_lines(
            map,
            instances.last(),
            groups.last(),
        )
    }
}

/// The text of a file.
pub open spec fn file_text(
    map: Map<Seq<char>, bool>,
    instances: Seq<Seq<char>>,
    groups: Seq<Seq<Seq<char>>>,
) -> Seq<char> {
    preamble() + all_lines(map, instances, groups)
}

fn put_entry(out: &mut String, key: &str, on: bool)
    ensures
        final(out)@ == old(out)@ + line(key@, truth(on)),
{
    let ghost start = out@;
    out.append(key);
    out.append(" = ");
    out.append(if on { "true" } else { "false" });
    out.append("\n");
    assert(out@ =~= start + line(key@, truth(on)));
}

fn copied_keys(m: &StrMap<()>) -> (r: Vec<String>)
    ensures
        views(r@) == m.keys(),
{
    let n: usize = m.len();
    let mut r: Vec<String> = Vec::new();
    let mut i: usize = 0;
    while i < n
        invariant
            i <= n,
            n == m.keys().len(),
            views(r@) =~= m.keys().take(i as int),
        decreases n - i,
    {
        push_text(&mut r, m.key_at(i).clone());
        assert(m.keys().take(i as int + 1) =~= m.keys().take(i as int).push(m.keys()[i as int]));
        i += 1;
    }
    assert(m.keys().take(n as int) =~= m.keys());
    r
}

fn put_instance(out: &mut String, map: &StrMap<bool>, instance: &str, groups: &StrMap<()>)
    ensures
        final(out)@ == old(out)@ + instance_lines(map@, instance@, groups.keys()),
{
    let ghost start = out@;
    let names = copied_keys(groups);
    let list = join_with(&names, ", ");
    out.append("# ");
    out.append(instance);
    out.append(" — groups: ");
    out.append(list.as_str());
    out.append("\n");
    let mk = menu_key_text(instance, "monitoring");
    let on: bool = match map.get(mk.as_str()) {
        Some(b) => *b,
        None => false,
    };
    put_entry(out, mk.as_str(), on);
    let ghost head = "# "@ + instance@ + " — groups: "@ + join(groups.keys(), ", "@) + "\n"@ + line(
        menu_key(instance@, menu()),
        truth(menu_on(map@, instance@)),
    );
    assert(out@ =~= start + head);
    let n: usize = groups.len();
    let mut i: usize = 0;
    assert(out@ =~= start + head + group_lines(map@, instance@, groups.keys().take(0)));
    while i < n
        invariant
            i <= n,
            n == groups.keys().len(),
            out@ == start + head + group_lines(map@, instance@, groups.keys().take(i as int)),
        decreases n - i,
    {
        let gk = group_key_text(instance, "monitoring", groups.key_at(i).as_str());
        proof {
            let next = groups.keys().take(i as int + 1);
            assert(next.drop_last() =~= groups.keys().take(i as int));
            assert(next.last() == groups.keys()[i as int]);
        }
        match map.get(gk.as_str()) {
            Some(b) => {
                put_entry(out, gk.as_str(), *b);
            },
            None => {},
        }
        assert(out@ =~= start + head + group_lines(
            map@,
            instance@,
            groups.keys().take(i as int + 1),
        ));
        i += 1;
    }
    assert(groups.keys().take(n as int) =~= groups.keys());
    out.append("\n");
    assert(out@ =~= start + instance_lines(map@, instance@, groups.keys()));
}

/// The text of a file.
pub fn save_mapping(map: &StrMap<bool>, groups: &Groups) -> (out: String)
    ensures
        out@ == file_text(map@, groups.keys(), group_names(groups.values())),
{
    let mut out = "# masterbus-signalk Signal K mapping.\n".to_owned();
    out.append(
        "# Edit the true/false flags below while the service is STOPPED, then restart.\n",
    );
    out.append(
        "# Keys: <instance>.<menu>[.<group>] = true|false  (a group line overrides the\n",
    );
    out.append("# menu line). New devices are added automatically: the menu-level toggle\n");
    out.append("# defaults to false and the battery `cluster` group to true.\n\n");
    assert(out@ == preamble());
    let ghost names = group_names(groups.values());
    let n: usize = groups.len();
    let mut i: usize = 0;
    assert(out@ =~= preamble() + all_lines(map@, groups.keys().take(0), names.take(0)));
    while i < n
        invariant
            i <= n,
            n == groups.keys().len(),
            n == names.len(),
            names == group_names(groups.values()),
            groups.well_formed(),
            out@ == preamble() + all_lines(
                map@,
                groups.keys().take(i as int),
                names.take(i as int),
            ),
        decreases n - i,
    {
        let ghost start = out@;
        put_instance(&mut out, map, groups.key_at(i).as_str(), groups.value_at(i));
        proof {
            let a = groups.keys().take(i as int + 1);
            let b = names.take(i as int + 1);
            assert(a.drop_last() =~= groups.keys().take(i as int));
            assert(b.drop_last() =~= names.take(i as int));
            assert(out@ =~= preamble() + all_lines(map@, a, b));
        }
        i += 1;
    }
    assert(groups.keys().take(n as int) =~= groups.keys());
    assert(names.take(n as int) =~= names);
    out
}

// ---- deciding ------------------------------------------------------------------

/// Whether a group is published: as its own entry says, else as that of its menu, and
/// without either only the group `cluster` is.
pub open spec fn is_enabled(
    map: Map<Seq<char>, bool>,
    instance: Seq<char>,
    menu: Seq<char>,
    group: Seq<char>,
) -> bool {
    let (g, m) = (group_key(instance, menu, group), menu_key(instance, menu));
    if map.dom().contains(g) {
        map[g]
    } else if map.dom().contains(m) {
        map[m]
    } else {
        group == "cluster"@
    }
}

/// Whether a group is published.
pub fn enabled(map: &StrMap<bool>, instance: &str, menu: &str, group: &str) -> (r: bool)
    ensures
        r == is_enabled(map@, instance@, menu@, group@),
{
    let g = group_key_text(instance, menu, group);
    if let Some(v) = map.get(g.as_str()) {
        return *v;
    }
    let m = menu_key_text(instance, menu);
    if let Some(v) = map.get(m.as_str()) {
        return *v;
    }
    same(group, "cluster")
}

/// Entries with one for a key that has none.
pub open spec fn with_default(map: Map<Seq<char>, bool>, k: Seq<char>, on: bool) -> Map<
    Seq<char>,
    bool,
> {
    if map.dom().contains(k) {
        map
    } else {
        map.insert(k, on)
    }
}

/// Entries with those of an instance: its menu is off, its group `cluster` is on.
pub open spec fn with_instance(
    map: Map<Seq<char>, bool>,
    instance: Seq<char>,
    groups: Seq<Seq<char>>,
) -> Map<Seq<char>, bool> {
    let m = with_default(map, menu_key(instance, menu()), false);
    if groups.contains("cluster"@) {
        with_default(m, group_key(instance, menu(), "cluster"@), true)
    } else {
        m
    }
}

/// Entries with those of instances.
pub open spec fn with_instances(
    map: Map<Seq<char>, bool>,
    instances: Seq<Seq<char>>,
    groups: Seq<Seq<Seq<char>>>,
) -> Map<Seq<char>, bool>
    decreases instances.len(),
{
    if instances.len() == 0 {
        map
    } else {
        with_instance(
            with_instances(map, instances.drop_last(), groups.drop_last()),
            instances.last(),
            groups.last(),
        )
    }
}

fn fill_key(map: &mut StrMap<bool>, key: String, on: bool) -> (added: bool)
    ensures
        final(map)@ == with_default(old(map)@, key@, on),
        added == !old(map)@.dom().contains(key@),
{
    if map.contains_key(key.as_str()) {
        false
    } else {
        map.insert(key, on);
        true
    }
}

/// Adds entries for instances that have none. Says whether any was added.
pub fn autofill(map: &mut StrMap<bool>, groups: &Groups) -> (added: bool)
    ensures
        final(map)@ == with_instances(old(map)@, groups.keys(), group_names(groups.values())),
        added == (final(map)@ != old(map)@),
{
    let ghost start = map@;
    let ghost names = group_names(groups.values());
    let n: usize = groups.len();
    let mut added: bool = false;
    let mut i: usize = 0;
    assert(groups.keys().take(0) =~= seq![]);
    while i < n
        invariant
            i <= n,
            n == groups.keys().len(),
            n == names.len(),
            names == group_names(groups.values()),
            groups.well_formed(),
            map@ == with_instances(start, groups.keys().take(i as int), names.take(i as int)),
            start.dom().subset_of(map@.dom()),
            added == (map@ != start),
            added == (map@.dom() != start.dom()),
        decreases n - i,
    {
        let instance = groups.key_at(i).as_str();
        let own = groups.value_at(i);
        proof {
            let a = groups.keys().take(i as int + 1);
            let b = names.take(i as int + 1);
            assert(a.drop_last() =~= groups.keys().take(i as int));
            assert(b.drop_last() =~= names.take(i as int));
            assert(b.last() == own.keys());
        }
        let ghost m0 = map@;
        let ghost mk = menu_key(instance@, menu());
        if fill_key(map, menu_key_text(instance, "monitoring"), false) {
            added = true;
            assert(map@.dom().contains(mk) && !m0.dom().contains(mk));
        }
        let ghost m1 = map@;
        let ghost gk = group_key(instance@, menu(), "cluster"@);
        let clustered: bool = own.contains_key("cluster");
        let count: usize = own.len();
        assert(clustered == own.keys().contains("cluster"@)) by {
            if own.keys().contains("cluster"@) {
                let j = own.keys().index_of("cluster"@);
                assert(own@.dom().contains(own.keys()[j]));
            }
        }
        if clustered {
            if fill_key(map, group_key_text(instance, "monitoring", "cluster"), true) {
                added = true;
                assert(map@.dom().contains(gk) && !m1.dom().contains(gk));
            }
        }
        i += 1;
    }
    assert(groups.keys().take(n as int) =~= groups.keys());
    assert(names.take(n as int) =~= names);
    added
}

/// Adding entries changes none that is there.
pub proof fn law_autofill_keeps_entries(
    map: Map<Seq<char>, bool>,
    instances: Seq<Seq<char>>,
    groups: Seq<Seq<Seq<char>>>,
    key: Seq<char>,
)
    requires
        map.dom().contains(key),
    ensures
        with_instances(map, instances, groups).dom().contains(key),
        with_instances(map, instances, groups)[key] == map[key],
    decreases instances.len(),
{
    if instances.len() > 0 {
        law_autofill_keeps_entries(map, instances.drop_last(), groups.drop_last(), key);
    }
}

/// Once entries are added, an instance of which the file said nothing before publishes
/// nothing of the menu but its group `cluster`.
pub proof fn law_new_instance_is_off(
    map: Map<Seq<char>, bool>,
    instance: Seq<char>,
    groups: Seq<Seq<char>>,
    group: Seq<char>,
)
    requires
        !map.dom().contains(menu_key(instance, menu())),
        forall|g: Seq<char>| !map.dom().contains(#[trigger] group_key(instance, menu(), g)),
        groups.contains(group),
    ensures
        is_enabled(with_instance(map, instance, groups), instance, menu(), group) <==> group
            == "cluster"@,
{
    let (m, k) = (menu_key(instance, menu()), group_key(instance, menu(), group));
    let c = group_key(instance, menu(), "cluster"@);
    assert(m.len() == instance.len() + 1 + menu().len()) by {
        reveal_strlit(".");
    }
    reveal_strlit(".");
    assert(k.len() > m.len() && c.len() > m.len());
    if k == c {
        assert(k.skip(m.len() as int + 1) =~= group);
        assert(c.skip(m.len() as int + 1) =~= "cluster"@);
    }
}

// ---- what is written can be read back --------------------------------------------

/// Whether a piece of text made of whole lines turns one set of entries into another.
spec fn reads(a: Map<Seq<char>, bool>, text: Seq<char>, b: Map<Seq<char>, bool>) -> bool {
    forall|rest: Seq<char>|
        with_lines(a, #[trigger] split(text + rest, '\n')) == with_lines(b, split(rest, '\n'))
}

proof fn lemma_reads_both(
    a: Map<Seq<char>, bool>,
    s: Seq<char>,
    b: Map<Seq<char>, bool>,
    t: Seq<char>,
    c: Map<Seq<char>, bool>,
)
    requires
        reads(a, s, b),
        reads(b, t, c),
    ensures
        reads(a, s + t, c),
{
    assert forall|rest: Seq<char>| with_lines(a, #[trigger] split((s + t) + rest, '\n'))
        == with_lines(c, split(rest, '\n')) by {
        assert((s + t) + rest =~= s + (t + rest));
        assert(with_lines(a, split(s + (t + rest), '\n')) == with_lines(b, split(t + rest, '\n')));
    }
}

proof fn lemma_reads_nothing(a: Map<Seq<char>, bool>)
    ensures
        reads(a, Seq::empty(), a),
{
    assert forall|rest: Seq<char>| with_lines(a, #[trigger] split(
        Seq::<char>::empty() + rest,
        '\n',
    )) == with_lines(a, split(rest, '\n')) by {
        assert(Seq::<char>::empty() + rest =~= rest);
    }
}

proof fn lemma_reads_line(a: Map<Seq<char>, bool>, l: Seq<char>)
    requires
        lacks(l, '\n'),
    ensures
        reads(a, l + seq!['\n'], with_line(a, l)),
{
    assert forall|rest: Seq<char>| with_lines(a, #[trigger] split(
        (l + seq!['\n']) + rest,
        '\n',
    )) == with_lines(with_line(a, l), split(rest, '\n')) by {
        lemma_split_cat(l, rest, '\n');
        lemma_split_one(l, '\n');
        let parts = split((l + seq!['\n']) + rest, '\n');
        assert(parts == seq![l] + split(rest, '\n'));
        assert(parts[0] == l);
        assert(parts.drop_first() =~= split(rest, '\n'));
    }
}

proof fn lemma_reads_comment(a: Map<Seq<char>, bool>, l: Seq<char>)
    requires
        lacks(l, '\n'),
        l.len() > 0,
        l[0] == '#',
    ensures
        reads(a, l + seq!['\n'], a),
{
    lemma_trimmed_head(l);
    lemma_reads_line(a, l);
}

proof fn lemma_reads_blank(a: Map<Seq<char>, bool>)
    ensures
        reads(a, "\n"@, a),
{
    reveal_strlit("\n");
    lemma_reads_line(a, Seq::empty());
    assert(Seq::<char>::empty() + seq!['\n'] =~= "\n"@);
    assert(trimmed(Seq::<char>::empty()).len() == 0);
}

/// The keys that files hold.
spec fn plain_key(k: Seq<char>) -> bool {
    &&& k.len() > 0
    &&& forall|i: int| 0 <= i < k.len() ==> safe(#[trigger] k[i]) || k[i] == '.'
}

proof fn lemma_says_truth(b: bool)
    ensures
        says_on(" "@ + truth(b)) == b,
        lacks(truth(b), '\n'),
        truth(b).len() > 0,
        !is_white(truth(b).last()),
        lacks(truth(b), '='),
{
    reveal_strlit(" ");
    reveal_strlit("true");
    reveal_strlit("false");
    reveal_strlit("1");
    reveal_strlit("yes");
    reveal_strlit("on");
    let s = " "@ + truth(b);
    assert(s.drop_first() =~= truth(b));
    assert(trim_start(truth(b)) == truth(b));
    assert(trim_start(s) == truth(b));
    assert(trimmed(s) == truth(b));
    assert(lowered(truth(b)) =~= truth(b));
    if !b {
        assert("false"@.len() == 5 && "true"@.len() == 4 && "1"@.len() == 1);
        assert("yes"@.len() == 3 && "on"@.len() == 2);
    }
}

proof fn lemma_line_entry(k: Seq<char>, b: bool)
    requires
        plain_key(k),
    ensures
        line_entry(k + " = "@ + truth(b)) == Some((k, b)),
        lacks(k + " = "@ + truth(b), '\n'),
{
    lemma_says_truth(b);
    reveal_strlit(" = ");
    reveal_strlit(" ");
    let l = k + " = "@ + truth(b);
    assert(safe(k[0]) || k[0] == '.');
    assert(safe(k.last()) || k.last() == '.');
    assert(l[0] == k[0]);
    assert(l.last() == truth(b).last());
    lemma_trimmed_id(l);
    let at = k.len() as int + 1;
    assert forall|i: int| 0 <= i < at implies l[i] != '=' by {
        if i < k.len() {
            assert(l[i] == k[i]);
            assert(safe(k[i]) || k[i] == '.');
        }
    }
    lemma_find_unique(l, '=', at);
    let key = l.take(at);
    assert(key =~= k + seq![' ']);
    assert(key.drop_last() =~= k);
    assert(trim_start(key) == key);
    lemma_trimmed_id(k);
    assert(trim_start(k) == k);
    assert(trim_end(key) == trim_end(k));
    assert(trimmed(key) == k);
    assert(l.skip(at + 1) =~= " "@ + truth(b));
    assert forall|i: int| 0 <= i < l.len() implies l[i] != '\n' by {
        if i < k.len() {
            assert(l[i] == k[i]);
            assert(safe(k[i]) || k[i] == '.');
        } else if i >= k.len() + 3 {
            assert(l[i] == truth(b)[i - k.len() - 3]);
        }
    }
}

proof fn lemma_reads_entry(a: Map<Seq<char>, bool>, k: Seq<char>, b: bool)
    requires
        plain_key(k),
    ensures
        reads(a, line(k, truth(b)), a.insert(k, b)),
{
    lemma_line_entry(k, b);
    let l = k + " = "@ + truth(b);
    lemma_reads_line(a, l);
    reveal_strlit("\n");
    assert("\n"@ =~= seq!['\n']);
}

proof fn lemma_plain_keys(instance: Seq<char>, group: Seq<char>)
    requires
        segment(instance),
        segment(group),
    ensures
        plain_key(menu_key(instance, menu())),
        plain_key(group_key(instance, menu(), group)),
{
    reveal_strlit(".");
    reveal_strlit("monitoring");
    let (m, g) = (menu_key(instance, menu()), group_key(instance, menu(), group));
    let n = instance.len() as int;
    assert forall|i: int| 0 <= i < m.len() implies safe(#[trigger] m[i]) || m[i] == '.' by {
        if i < n {
            assert(m[i] == instance[i]);
        } else if i > n {
            assert(m[i] == menu()[i - n - 1]);
        }
    }
    assert forall|i: int| 0 <= i < g.len() implies safe(#[trigger] g[i]) || g[i] == '.' by {
        if i < m.len() {
            assert(g[i] == m[i]);
            assert(safe(m[i]) || m[i] == '.');
        } else if i > m.len() {
            assert(g[i] == group[i - m.len() - 1]);
        }
    }
}

/// Entries with those of the groups of an instance that are written.
spec fn after_groups(
    a: Map<Seq<char>, bool>,
    map: Map<Seq<char>, bool>,
    instance: Seq<char>,
    groups: Seq<Seq<char>>,
) -> Map<Seq<char>, bool>
    decreases groups.len(),
{
    if groups.len() == 0 {
        a
    } else {
        let k = group_key(instance, menu(), groups.last());
        let head = after_groups(a, map, instance, groups.drop_last());
        if map.dom().contains(k) {
            head.insert(k, map[k])
        } else {
            head
        }
    }
}

/// Entries with those of an instance that are written.
spec fn after_instance(
    a: Map<Seq<char>, bool>,
    map: Map<Seq<char>, bool>,
    instance: Seq<char>,
    groups: Seq<Seq<char>>,
) -> Map<Seq<char>, bool> {
    after_groups(
        a.insert(menu_key(instance, menu()), menu_on(map, instance)),
        map,
        instance,
        groups,
    )
}

/// Entries with those of instances that are written.
spec fn after_all(
    a: Map<Seq<char>, bool>,
    map: Map<Seq<char>, bool>,
    instances: Seq<Seq<char>>,
    groups: Seq<Seq<Seq<char>>>,
) -> Map<Seq<char>, bool>
    decreases instances.len(),
{
    if instances.len() == 0 {
        a
    } else {
        after_instance(
            after_all(a, map, instances.drop_last(), groups.drop_last()),
            map,
            instances.last(),
            groups.last(),
        )
    }
}

/// Whether all of the names are segments.
pub open spec fn segments(names: Seq<Seq<char>>) -> bool {
    forall|i: int| 0 <= i < names.len() ==> segment(#[trigger] names[i])
}

proof fn lemma_reads_groups(
    a: Map<Seq<char>, bool>,
    map: Map<Seq<char>, bool>,
    instance: Seq<char>,
    groups: Seq<Seq<char>>,
)
    requires
        segment(instance),
        segments(groups),
    ensures
        reads(a, group_lines(map, instance, groups), after_groups(a, map, instance, groups)),
    decreases groups.len(),
{
    if groups.len() == 0 {
        lemma_reads_nothing(a);
    } else {
        let rest = groups.drop_last();
        assert forall|i: int| 0 <= i < rest.len() implies segment(#[trigger] rest[i]) by {
            assert(rest[i] == groups[i]);
        }
        lemma_reads_groups(a, map, instance, rest);
        let k = group_key(instance, menu(), groups.last());
        if map.dom().contains(k) {
            let b = after_groups(a, map, instance, rest);
            assert(segment(groups[groups.len() - 1]));
            lemma_plain_keys(instance, groups.last());
            lemma_reads_entry(b, k, map[k]);
            lemma_reads_both(
                a,
                group_lines(map, instance, rest),
                b,
                line(k, truth(map[k])),
                b.insert(k, map[k]),
            );
        }
    }
}

proof fn lemma_joined_lacks(names: Seq<Seq<char>>)
    requires
        segments(names),
    ensures
        lacks(join(names, ", "@), '\n'),
    decreases names.len(),
{
    reveal_strlit(", ");
    if names.len() == 0 {
    } else if names.len() == 1 {
        assert forall|i: int| 0 <= i < names[0].len() implies names[0][i] != '\n' by {
            assert(segment(names[0]) && safe(names[0][i]));
        }
    } else {
        let rest = names.drop_first();
        assert forall|i: int| 0 <= i < rest.len() implies segment(#[trigger] rest[i]) by {
            assert(rest[i] == names[i + 1]);
        }
        lemma_joined_lacks(rest);
        let s = join(names, ", "@);
        let (n, t) = (names[0].len() as int, join(rest, ", "@));
        assert forall|i: int| 0 <= i < s.len() implies s[i] != '\n' by {
            if i < n {
                assert(segment(names[0]) && safe(names[0][i]));
                assert(s[i] == names[0][i]);
            } else if i >= n + 2 {
                assert(s[i] == t[i - n - 2]);
            }
        }
    }
}

proof fn lemma_reads_instance(
    a: Map<Seq<char>, bool>,
    map: Map<Seq<char>, bool>,
    instance: Seq<char>,
    groups: Seq<Seq<char>>,
)
    requires
        segment(instance),
        segments(groups),
    ensures
        reads(a, instance_lines(map, instance, groups), after_instance(a, map, instance, groups)),
{
    let list = join(groups, ", "@);
    let note = "# "@ + instance + " — groups: "@ + list;
    reveal_strlit("# ");
    reveal_strlit(" — groups: ");
    reveal_strlit("\n");
    assert("\n"@ =~= seq!['\n']);
    lemma_joined_lacks(groups);
    let (n, m) = (instance.len() as int, " — groups: "@.len() as int);
    assert forall|i: int| 0 <= i < note.len() implies note[i] != '\n' by {
        if i < 2 {
            assert(note[i] == "# "@[i]);
        } else if i < 2 + n {
            assert(note[i] == instance[i - 2]);
            assert(safe(instance[i - 2]));
        } else if i < 2 + n + m {
            assert(note[i] == " — groups: "@[i - 2 - n]);
        } else {
            assert(note[i] == list[i - 2 - n - m]);
        }
    }
    lemma_reads_comment(a, note);
    let (k, on) = (menu_key(instance, menu()), menu_on(map, instance));
    lemma_plain_keys(instance, instance);
    lemma_reads_entry(a, k, on);
    let b = a.insert(k, on);
    lemma_reads_both(a, note + "\n"@, a, line(k, truth(on)), b);
    lemma_reads_groups(b, map, instance, groups);
    let c = after_groups(b, map, instance, groups);
    lemma_reads_both(a, note + "\n"@ + line(k, truth(on)), b, group_lines(map, instance, groups), c);
    lemma_reads_blank(c);
    lemma_reads_both(
        a,
        note + "\n"@ + line(k, truth(on)) + group_lines(map, instance, groups),
        c,
        "\n"@,
        c,
    );
}

proof fn lemma_reads_all(
    a: Map<Seq<char>, bool>,
    map: Map<Seq<char>, bool>,
    instances: Seq<Seq<char>>,
    groups: Seq<Seq<Seq<char>>>,
)
    requires
        segments(instances),
        instances.len() == groups.len(),
        forall|i: int| 0 <= i < groups.len() ==> segments(#[trigger] groups[i]),
    ensures
        reads(a, all_lines(map, instances, groups), after_all(a, map, instances, groups)),
    decreases instances.len(),
{
    if instances.len() == 0 {
        lemma_reads_nothing(a);
    } else {
        let (p, q) = (instances.drop_last(), groups.drop_last());
        assert forall|i: int| 0 <= i < p.len() implies segment(#[trigger] p[i]) by {
            assert(p[i] == instances[i]);
        }
        assert forall|i: int| 0 <= i < q.len() implies segments(#[trigger] q[i]) by {
            assert(q[i] == groups[i]);
        }
        lemma_reads_all(a, map, p, q);
        let b = after_all(a, map, p, q);
        assert(segment(instances[instances.len() - 1]));
        assert(segments(groups[groups.len() - 1]));
        lemma_reads_instance(b, map, instances.last(), groups.last());
        lemma_reads_both(
            a,
            all_lines(map, p, q),
            b,
            instance_lines(map, instances.last(), groups.last()),
            after_instance(b, map, instances.last(), groups.last()),
        );
    }
}

proof fn lemma_reads_note(a: Map<Seq<char>, bool>, s: Seq<char>)
    requires
        s.len() > 1,
        s[0] == '#',
        s.last() == '\n',
        lacks(s.drop_last(), '\n'),
    ensures
        reads(a, s, a),
{
    lemma_reads_comment(a, s.drop_last());
    assert(s.drop_last() + seq!['\n'] =~= s);
}

proof fn lemma_reads_preamble(a: Map<Seq<char>, bool>)
    ensures
        reads(a, preamble(), a),
{
    let l1 = "# masterbus-signalk Signal K mapping.\n"@;
    let l2 = "# Edit the true/false flags below while the service is STOPPED, then restart.\n"@;
    let l3 = "# Keys: <instance>.<menu>[.<group>] = true|false  (a group line overrides the\n"@;
    let l4 = "# menu line). New devices are added automatically: the menu-level toggle\n"@;
    let l5 = "# defaults to false and the battery `cluster` group to true.\n\n"@;
    reveal_strlit("# masterbus-signalk Signal K mapping.\n");
    lemma_reads_note(a, l1);
    reveal_strlit(
        "# Edit the true/false flags below while the service is STOPPED, then restart.\n",
    );
    lemma_reads_note(a, l2);
    reveal_strlit(
        "# Keys: <instance>.<menu>[.<group>] = true|false  (a group line overrides the\n",
    );
    lemma_reads_note(a, l3);
    reveal_strlit("# menu line). New devices are added automatically: the menu-level toggle\n");
    lemma_reads_note(a, l4);
    reveal_strlit("# defaults to false and the battery `cluster` group to true.\n\n");
    lemma_reads_note(a, l5.drop_last());
    lemma_reads_blank(a);
    reveal_strlit("\n");
    lemma_reads_both(a, l5.drop_last(), a, "\n"@, a);
    assert(l5.drop_last() + "\n"@ =~= l5);
    lemma_reads_both(a, l1, a, l2, a);
    lemma_reads_both(a, l1 + l2, a, l3, a);
    lemma_reads_both(a, l1 + l2 + l3, a, l4, a);
    lemma_reads_both(a, l1 + l2 + l3 + l4, a, l5, a);
}

/// Whether a file for instances with groups holds a key: that of the menu of an
/// instance, or of a group of an instance that has an entry.
pub open spec fn is_written(
    map: Map<Seq<char>, bool>,
    instances: Seq<Seq<char>>,
    groups: Seq<Seq<Seq<char>>>,
    k: Seq<char>,
) -> bool {
    ||| exists|i: int| 0 <= i < instances.len() && k == #[trigger] menu_key(instances[i], menu())
    ||| map.dom().contains(k) && exists|i: int, j: int|
        0 <= i < instances.len() && 0 <= j < groups[i].len() && k == #[trigger] group_key(
            instances[i],
            menu(),
            groups[i][j],
        )
}

proof fn lemma_after_groups(
    a: Map<Seq<char>, bool>,
    map: Map<Seq<char>, bool>,
    instance: Seq<char>,
    groups: Seq<Seq<char>>,
    k: Seq<char>,
)
    ensures
        ({
            let b = after_groups(a, map, instance, groups);
            let new = map.dom().contains(k) && exists|j: int|
                0 <= j < groups.len() && k == #[trigger] group_key(instance, menu(), groups[j]);
            &&& b.dom().contains(k) <==> a.dom().contains(k) || new
            &&& new ==> b[k] == map[k]
            &&& a.dom().contains(k) && !new ==> b[k] == a[k]
        }),
    decreases groups.len(),
{
    if groups.len() > 0 {
        let rest = groups.drop_last();
        lemma_after_groups(a, map, instance, rest, k);
        let last = groups.len() - 1;
        if k == group_key(instance, menu(), groups.last()) {
            assert(k == group_key(instance, menu(), groups[last]));
        }
        assert forall|j: int|
            0 <= j < groups.len() && k == #[trigger] group_key(
                instance,
                menu(),
                groups[j],
            ) && j < last implies k == group_key(instance, menu(), rest[j]) by {}
        if exists|j: int|
            0 <= j < rest.len() && k == #[trigger] group_key(instance, menu(), rest[j]) {
            let j = choose|j: int|
                0 <= j < rest.len() && k == #[trigger] group_key(instance, menu(), rest[j]);
            assert(k == group_key(instance, menu(), groups[j]));
        }
        if exists|j: int|
            0 <= j < groups.len() && k == #[trigger] group_key(instance, menu(), groups[j]) {
            let j = choose|j: int|
                0 <= j < groups.len() && k == #[trigger] group_key(instance, menu(), groups[j]);
            if j < last {
                assert(k == group_key(instance, menu(), rest[j]));
            }
        }
    }
}

proof fn lemma_after_all(
    map: Map<Seq<char>, bool>,
    instances: Seq<Seq<char>>,
    groups: Seq<Seq<Seq<char>>>,
    k: Seq<char>,
)
    requires
        instances.len() == groups.len(),
    ensures
        ({
            let b = after_all(Map::empty(), map, instances, groups);
            &&& b.dom().contains(k) <==> is_written(map, instances, groups, k)
            &&& b.dom().contains(k) ==> b[k] == (map.dom().contains(k) && map[k])
        }),
    decreases instances.len(),
{
    if instances.len() > 0 {
        let (p, q) = (instances.drop_last(), groups.drop_last());
        let n = instances.len() - 1;
        let (instance, own) = (instances.last(), groups.last());
        lemma_after_all(map, p, q, k);
        let a = after_all(Map::empty(), map, p, q);
        let mk = menu_key(instance, menu());
        lemma_after_groups(a.insert(mk, menu_on(map, instance)), map, instance, own, k);
        if is_written(map, p, q, k) {
            if exists|i: int| 0 <= i < p.len() && k == #[trigger] menu_key(p[i], menu()) {
                let i = choose|i: int| 0 <= i < p.len() && k == #[trigger] menu_key(p[i], menu());
                assert(k == menu_key(instances[i], menu()));
            } else {
                let (i, j) = choose|i: int, j: int|
                    0 <= i < p.len() && 0 <= j < q[i].len() && k == #[trigger] group_key(
                        p[i],
                        menu(),
                        q[i][j],
                    );
                assert(k == group_key(instances[i], menu(), groups[i][j]));
            }
        }
        if k == mk {
            assert(k == menu_key(instances[n], menu()));
        }
        if map.dom().contains(k) && exists|j: int|
            0 <= j < own.len() && k == #[trigger] group_key(instance, menu(), own[j]) {
            let j = choose|j: int|
                0 <= j < own.len() && k == #[trigger] group_key(instance, menu(), own[j]);
            assert(k == group_key(instances[n], menu(), groups[n][j]));
        }
        if is_written(map, instances, groups, k) {
            if exists|i: int|
                0 <= i < instances.len() && k == #[trigger] menu_key(instances[i], menu()) {
                let i = choose|i: int|
                    0 <= i < instances.len() && k == #[trigger] menu_key(instances[i], menu());
                if i < n {
                    assert(k == menu_key(p[i], menu()));
                }
            } else {
                let (i, j) = choose|i: int, j: int|
                    0 <= i < instances.len() && 0 <= j < groups[i].len() && k
                        == #[trigger] group_key(instances[i], menu(), groups[i][j]);
                if i < n {
                    assert(k == group_key(p[i], menu(), q[i][j]));
                } else {
                    assert(k == group_key(instance, menu(), own[j]));
                }
            }
        }
    }
}

/// What is written can be read back: a file that was written says of the menu of each
/// instance, and of each group with an entry, what the entries say, and nothing else.
/// A menu without an entry is written as off.
pub proof fn law_file_reads_back(
    map: Map<Seq<char>, bool>,
    instances: Seq<Seq<char>>,
    groups: Seq<Seq<Seq<char>>>,
    k: Seq<char>,
)
    requires
        segments(instances),
        instances.len() == groups.len(),
        forall|i: int| 0 <= i < groups.len() ==> segments(#[trigger] groups[i]),
    ensures
        ({
            let read = file_entries(file_text(map, instances, groups));
            &&& read.dom().contains(k) <==> is_written(map, instances, groups, k)
            &&& read.dom().contains(k) ==> read[k] == (map.dom().contains(k) && map[k])
        }),
{
    let a = Map::<Seq<char>, bool>::empty();
    let text = file_text(map, instances, groups);
    lemma_reads_preamble(a);
    lemma_reads_all(a, map, instances, groups);
    let b = after_all(a, map, instances, groups);
    lemma_reads_both(a, preamble(), a, all_lines(map, instances, groups), b);
    let e = Seq::<char>::empty();
    assert(text + e =~= text);
    assert(with_lines(a, split(text + e, '\n')) == with_lines(b, split(e, '\n')));
    lemma_split_one(e, '\n');
    assert(split(e, '\n') == seq![e]);
    assert(trimmed(e).len() == 0);
    let none = Seq::<Seq<char>>::empty();
    assert(seq![e].drop_first() =~= none);
    assert(with_line(b, e) == b);
    assert(with_lines(b, none) == b);
    assert(with_lines(b, seq![e]) == b);
    lemma_after_all(map, instances, groups, k);
}

/// Reading what was written, and adding entries first, decides the same of every group
/// of every instance as the entries do.
pub proof fn law_written_file_decides_the_same(
    map: Map<Seq<char>, bool>,
    instances: Seq<Seq<char>>,
    groups: Seq<Seq<Seq<char>>>,
    i: int,
    j: int,
)
    requires
        segments(instances),
        instances.len() == groups.len(),
        forall|i: int| 0 <= i < groups.len() ==> segments(#[trigger] groups[i]),
        0 <= i < instances.len(),
        0 <= j < groups[i].len(),
        map.dom().contains(menu_key(instances[i], menu())),
    ensures
        is_enabled(
            file_entries(file_text(map, instances, groups)),
            instances[i],
            menu(),
            groups[i][j],
        ) == is_enabled(map, instances[i], menu(), groups[i][j]),
{
    let (m, g) = (
        menu_key(instances[i], menu()),
        group_key(instances[i], menu(), groups[i][j]),
    );
    law_file_reads_back(map, instances, groups, m);
    law_file_reads_back(map, instances, groups, g);
    assert(is_written(map, instances, groups, m));
    if map.dom().contains(g) {
        assert(is_written(map, instances, groups, g));
    } else if is_written(map, instances, groups, g) {
        let n = choose|n: int|
            0 <= n < instances.len() && g == #[trigger] menu_key(instances[n], menu());
        reveal_strlit(".");
        reveal_strlit("monitoring");
        let (x, y) = (instances[i].len() as int, instances[n].len() as int);
        assert(segment(instances[n]) && segment(instances[i]));
        if x < y {
            assert(g[x] == '.');
            assert(g[x] == instances[n][x]);
            assert(safe(instances[n][x]));
        } else if y < x {
            assert(g[y] == instances[i][y]);
            assert(safe(instances[i][y]));
            assert(menu_key(instances[n], menu())[y] == '.');
        } else {
            assert(g.len() > m.len());
        }
    }
}

} // verus!
