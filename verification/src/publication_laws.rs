//! The file of a field configuration, read: its lines as TOML has them, its tables, and
//! the configuration that they hold.
//!
//! What is read here is the form in which files are written: comments stand on lines of
//! their own, keys are bare, and values are strings in double quotes or truth values.

use vstd::prelude::*;

use crate::publication::{
    config_text, device_entries, device_entry, field_entries, field_entry, heading, line, truth,
    ConfigModel, DeviceModel, FieldModel,
};
use crate::quote::{law_quoted_is_read, lemma_quoted_lacks, quotable, quoted, unquoted};
use crate::text::{
    find, is_white, lacks, lemma_find_unique, lemma_split_cat, lemma_split_one, lemma_trimmed_head,
    lemma_trimmed_id, split, trim_end, trim_start, trimmed,
};

verus! {

// ---- lines and tables ------------------------------------------------------------

/// A value in a file.
pub enum Entry {
    Text(Seq<char>),
    Truth(bool),
}

/// A table of an array of tables.
#[verifier::ext_equal]
pub struct Table {
    pub name: Seq<char>,
    pub entries: Map<Seq<char>, Entry>,
}

impl Table {
    /// With one more entry.
    pub open spec fn with(self, key: Seq<char>, value: Entry) -> Table {
        Table { entries: self.entries.insert(key, value), ..self }
    }

    /// A string of the table. There is none where the key is not there or has another
    /// kind of value.
    pub open spec fn text(self, key: Seq<char>) -> Option<Seq<char>> {
        if self.entries.dom().contains(key) {
            match self.entries[key] {
                Entry::Text(s) => Some(s),
                Entry::Truth(_) => None,
            }
        } else {
            None
        }
    }

    /// A truth value of the table, which is false where the key is not there. There is none
    /// where the key has another kind of value.
    pub open spec fn truth(self, key: Seq<char>) -> Option<bool> {
        if self.entries.dom().contains(key) {
            match self.entries[key] {
                Entry::Truth(b) => Some(b),
                Entry::Text(_) => None,
            }
        } else {
            Some(false)
        }
    }
}

/// A value, as it stands behind the `=`.
pub open spec fn entry_of(s: Seq<char>) -> Option<Entry> {
    if s == "true"@ {
        Some(Entry::Truth(true))
    } else if s == "false"@ {
        Some(Entry::Truth(false))
    } else {
        match unquoted(s) {
            Some(t) => Some(Entry::Text(t)),
            None => None,
        }
    }
}

/// The name of the table that a line opens.
pub open spec fn opened_table(l: Seq<char>) -> Option<Seq<char>> {
    if l.len() >= 4 && l[0] == '[' && l[1] == '[' && l[l.len() - 2] == ']' && l.last() == ']' {
        Some(trimmed(l.subrange(2, l.len() - 2)))
    } else {
        None
    }
}

/// The tables after one more line, or `None` where the line has no place there: an entry
/// before the first table, a key that the table has, or what is neither a comment, nor
/// opens a table, nor is an entry.
pub open spec fn with_line(tables: Option<Seq<Table>>, l: Seq<char>) -> Option<Seq<Table>> {
    let t = trimmed(l);
    let at = find(t, '=');
    match tables {
        None => None,
        Some(ts) => if t.len() == 0 || t[0] == '#' {
            Some(ts)
        } else if t[0] == '[' {
            match opened_table(t) {
                Some(name) => Some(ts.push(Table { name, entries: Map::empty() })),
                None => None,
            }
        } else if at >= t.len() || ts.len() == 0 {
            None
        } else {
            let key = trimmed(t.take(at));
            match entry_of(trimmed(t.skip(at + 1))) {
                Some(v) => if ts.last().entries.dom().contains(key) {
                    None
                } else {
                    Some(ts.drop_last().push(ts.last().with(key, v)))
                },
                None => None,
            }
        },
    }
}

/// The tables after more lines.
pub open spec fn with_lines(tables: Option<Seq<Table>>, lines: Seq<Seq<char>>) -> Option<
    Seq<Table>,
>
    decreases lines.len(),
{
    if lines.len() == 0 {
        tables
    } else {
        with_lines(with_line(tables, lines[0]), lines.drop_first())
    }
}

/// The tables of a file.
pub open spec fn tables_in(text: Seq<char>) -> Option<Seq<Table>> {
    with_lines(Some(Seq::empty()), split(text, '\n'))
}

// ---- configurations ----------------------------------------------------------------

/// The device that a table is of.
pub open spec fn device_of(t: Table) -> Option<DeviceModel> {
    match (
        (t.text("device"@), t.text("class"@), t.text("instance"@)),
        (t.truth("publish_name"@), t.truth("publish_manufacturer_name"@), t.truth(
            "publish_model"@,
        )),
    ) {
        (
            (Some(device), Some(class), Some(instance)),
            (Some(publish_name), Some(publish_manufacturer_name), Some(publish_model)),
        ) => Some(
            DeviceModel {
                device,
                class,
                instance,
                publish_name,
                publish_manufacturer_name,
                publish_model,
            },
        ),
        _ => None,
    }
}

/// The field that a table is of.
pub open spec fn field_of(t: Table) -> Option<FieldModel> {
    match (
        (t.text("device"@), t.text("class"@), t.text("instance"@), t.text("group"@)),
        (t.text("index"@), t.text("field"@), t.text("unit"@), t.truth("enabled"@)),
        (t.text("suggested_path"@), t.text("path"@)),
    ) {
        (
            (Some(device), Some(class), Some(instance), Some(group)),
            (Some(index), Some(field), Some(unit), Some(enabled)),
            (Some(suggested_path), Some(path)),
        ) => Some(
            FieldModel {
                device,
                class,
                instance,
                group,
                index,
                field,
                unit,
                enabled,
                suggested_path,
                path,
            },
        ),
        _ => None,
    }
}

/// The configuration that tables hold. Tables with other names do not count.
pub open spec fn config_of(tables: Seq<Table>) -> Option<ConfigModel>
    decreases tables.len(),
{
    if tables.len() == 0 {
        Some(ConfigModel { devices: Seq::empty(), fields: Seq::empty() })
    } else {
        let t = tables.last();
        match config_of(tables.drop_last()) {
            None => None,
            Some(c) => if t.name == "devices"@ {
                match device_of(t) {
                    Some(d) => Some(ConfigModel { devices: c.devices.push(d), ..c }),
                    None => None,
                }
            } else if t.name == "fields"@ {
                match field_of(t) {
                    Some(f) => Some(ConfigModel { fields: c.fields.push(f), ..c }),
                    None => None,
                }
            } else {
                Some(c)
            },
        }
    }
}

/// The configuration that a file holds, or `None` where the file cannot be read.
pub open spec fn read_config(text: Seq<char>) -> Option<ConfigModel> {
    match tables_in(text) {
        Some(ts) => config_of(ts),
        None => None,
    }
}

// ---- reading what is written -----------------------------------------------------

/// Whether a piece of text made of whole lines turns tables into others.
spec fn reads(a: Seq<Table>, text: Seq<char>, b: Seq<Table>) -> bool {
    forall|rest: Seq<char>|
        with_lines(Some(a), #[trigger] split(text + rest, '\n')) == with_lines(
            Some(b),
            split(rest, '\n'),
        )
}

proof fn lemma_reads_both(
    a: Seq<Table>,
    s: Seq<char>,
    b: Seq<Table>,
    t: Seq<char>,
    c: Seq<Table>,
)
    requires
        reads(a, s, b),
        reads(b, t, c),
    ensures
        reads(a, s + t, c),
{
    assert forall|rest: Seq<char>| with_lines(Some(a), #[trigger] split((s + t) + rest, '\n'))
        == with_lines(Some(c), split(rest, '\n')) by {
        assert((s + t) + rest =~= s + (t + rest));
        assert(with_lines(Some(a), split(s + (t + rest), '\n')) == with_lines(
            Some(b),
            split(t + rest, '\n'),
        ));
    }
}

proof fn lemma_reads_nothing(a: Seq<Table>)
    ensures
        reads(a, Seq::empty(), a),
{
    assert forall|rest: Seq<char>| with_lines(Some(a), #[trigger] split(
        Seq::<char>::empty() + rest,
        '\n',
    )) == with_lines(Some(a), split(rest, '\n')) by {
        assert(Seq::<char>::empty() + rest =~= rest);
    }
}

proof fn lemma_reads_line(a: Seq<Table>, l: Seq<char>, b: Seq<Table>)
    requires
        lacks(l, '\n'),
        with_line(Some(a), l) == Some(b),
    ensures
        reads(a, l + seq!['\n'], b),
{
    assert forall|rest: Seq<char>| with_lines(Some(a), #[trigger] split(
        (l + seq!['\n']) + rest,
        '\n',
    )) == with_lines(Some(b), split(rest, '\n')) by {
        lemma_split_cat(l, rest, '\n');
        lemma_split_one(l, '\n');
        let parts = split((l + seq!['\n']) + rest, '\n');
        assert(parts == seq![l] + split(rest, '\n'));
        assert(parts[0] == l);
        assert(parts.drop_first() =~= split(rest, '\n'));
    }
}

proof fn lemma_reads_blank(a: Seq<Table>)
    ensures
        reads(a, "\n"@, a),
{
    reveal_strlit("\n");
    assert(trimmed(Seq::<char>::empty()).len() == 0);
    lemma_reads_line(a, Seq::empty(), a);
    assert(Seq::<char>::empty() + seq!['\n'] =~= "\n"@);
}

proof fn lemma_reads_note(a: Seq<Table>, s: Seq<char>)
    requires
        s.len() > 1,
        s[0] == '#',
        s.last() == '\n',
        lacks(s.drop_last(), '\n'),
    ensures
        reads(a, s, a),
{
    let l = s.drop_last();
    lemma_trimmed_head(l);
    lemma_reads_line(a, l, a);
    assert(l + seq!['\n'] =~= s);
}

proof fn lemma_reads_heading(a: Seq<Table>)
    ensures
        reads(a, heading(), a),
{
    let l1 = "# masterbus-signalk field publication configuration.\n"@;
    let l2 = "# Managed by masterbus-config-web. Manual edits remain supported.\n"@;
    let l3 = "# Entries are keyed by MasterBus device address + field index.\n\n"@;
    reveal_strlit("# masterbus-signalk field publication configuration.\n");
    lemma_reads_note(a, l1);
    reveal_strlit("# Managed by masterbus-config-web. Manual edits remain supported.\n");
    lemma_reads_note(a, l2);
    reveal_strlit("# Entries are keyed by MasterBus device address + field index.\n\n");
    lemma_reads_note(a, l3.drop_last());
    lemma_reads_blank(a);
    reveal_strlit("\n");
    lemma_reads_both(a, l3.drop_last(), a, "\n"@, a);
    assert(l3.drop_last() + "\n"@ =~= l3);
    lemma_reads_both(a, l1, a, l2, a);
    lemma_reads_both(a, l1 + l2, a, l3, a);
}

/// The keys that files hold.
spec fn bare(k: Seq<char>) -> bool {
    k.len() > 0 && forall|i: int| 0 <= i < k.len() ==> 'a' <= #[trigger] k[i] <= 'z' || k[i] == '_'
}

/// Whether a value stands on one line, with no white space around it.
spec fn compact(v: Seq<char>) -> bool {
    v.len() > 0 && !is_white(v[0]) && !is_white(v.last()) && lacks(v, '\n')
}

proof fn lemma_reads_entry(a: Seq<Table>, t: Table, k: Seq<char>, v: Seq<char>, e: Entry)
    requires
        bare(k),
        compact(v),
        entry_of(v) == Some(e),
        !t.entries.dom().contains(k),
    ensures
        reads(a.push(t), line(k, v), a.push(t.with(k, e))),
{
    reveal_strlit(" = ");
    reveal_strlit("\n");
    assert("\n"@ =~= seq!['\n']);
    let l = k + " = "@ + v;
    assert('a' <= k[0] <= 'z' || k[0] == '_');
    assert('a' <= k[k.len() - 1] <= 'z' || k[k.len() - 1] == '_');
    assert(l[0] == k[0]);
    assert(l.last() == v.last());
    lemma_trimmed_id(l);
    let at = k.len() as int + 1;
    assert forall|i: int| 0 <= i < at implies l[i] != '=' by {
        if i < k.len() {
            assert(l[i] == k[i]);
            assert('a' <= k[i] <= 'z' || k[i] == '_');
        }
    }
    lemma_find_unique(l, '=', at);
    let key = l.take(at);
    assert(key =~= k + seq![' ']);
    assert(key.drop_last() =~= k);
    assert(trim_start(key) == key);
    lemma_trimmed_id(k);
    assert(trim_end(key) == trim_end(k));
    assert(trimmed(key) == k);
    let val = l.skip(at + 1);
    assert(val =~= seq![' '] + v);
    assert(val.drop_first() =~= v);
    assert(trim_start(v) == v);
    assert(trim_start(val) == v);
    assert(trimmed(val) == v);
    assert forall|i: int| 0 <= i < l.len() implies l[i] != '\n' by {
        if i < k.len() {
            assert(l[i] == k[i]);
            assert('a' <= k[i] <= 'z' || k[i] == '_');
        } else if i >= k.len() + 3 {
            assert(l[i] == v[i - k.len() - 3]);
        }
    }
    assert(a.push(t).drop_last() =~= a);
    lemma_reads_line(a.push(t), l, a.push(t.with(k, e)));
}

proof fn lemma_reads_text(a: Seq<Table>, t: Table, k: Seq<char>, s: Seq<char>)
    requires
        bare(k),
        quotable(s),
        !t.entries.dom().contains(k),
    ensures
        reads(a.push(t), line(k, quoted(s)), a.push(t.with(k, Entry::Text(s)))),
{
    law_quoted_is_read(s);
    lemma_quoted_lacks(s);
    let v = quoted(s);
    assert(v[0] == '"' && v.last() == '"');
    reveal_strlit("true");
    reveal_strlit("false");
    assert("true"@[0] == 't' && "false"@[0] == 'f');
    lemma_reads_entry(a, t, k, v, Entry::Text(s));
}

proof fn lemma_reads_truth(a: Seq<Table>, t: Table, k: Seq<char>, b: bool)
    requires
        bare(k),
        !t.entries.dom().contains(k),
    ensures
        reads(a.push(t), line(k, truth(b)), a.push(t.with(k, Entry::Truth(b)))),
{
    reveal_strlit("true");
    reveal_strlit("false");
    assert("true"@.len() == 4 && "false"@.len() == 5);
    lemma_reads_entry(a, t, k, truth(b), Entry::Truth(b));
}

/// The table of a device.
spec fn device_table(d: DeviceModel) -> Table {
    Table { name: "devices"@, entries: Map::empty() }.with(
        "device"@,
        Entry::Text(d.device),
    ).with("class"@, Entry::Text(d.class)).with("instance"@, Entry::Text(d.instance)).with(
        "publish_name"@,
        Entry::Truth(d.publish_name),
    ).with("publish_manufacturer_name"@, Entry::Truth(d.publish_manufacturer_name)).with(
        "publish_model"@,
        Entry::Truth(d.publish_model),
    )
}

/// The table of a field.
spec fn field_table(f: FieldModel) -> Table {
    Table { name: "fields"@, entries: Map::empty() }.with("device"@, Entry::Text(f.device)).with(
        "class"@,
        Entry::Text(f.class),
    ).with("instance"@, Entry::Text(f.instance)).with("group"@, Entry::Text(f.group)).with(
        "index"@,
        Entry::Text(f.index),
    ).with("field"@, Entry::Text(f.field)).with("unit"@, Entry::Text(f.unit)).with(
        "enabled"@,
        Entry::Truth(f.enabled),
    ).with("suggested_path"@, Entry::Text(f.suggested_path)).with("path"@, Entry::Text(f.path))
}

proof fn lemma_device_keys()
    ensures
        bare("device"@) && "device"@.len() == 6,
        bare("class"@) && "class"@.len() == 5 && "class"@[0] == 'c',
        bare("instance"@) && "instance"@.len() == 8,
        bare("publish_name"@) && "publish_name"@.len() == 12,
        bare("publish_manufacturer_name"@) && "publish_manufacturer_name"@.len() == 25,
        bare("publish_model"@) && "publish_model"@.len() == 13,
{
    reveal_strlit("device");
    reveal_strlit("class");
    reveal_strlit("instance");
    reveal_strlit("publish_name");
    reveal_strlit("publish_manufacturer_name");
    reveal_strlit("publish_model");
}

proof fn lemma_field_keys()
    ensures
        bare("group"@) && "group"@.len() == 5 && "group"@[0] == 'g',
        bare("index"@) && "index"@.len() == 5 && "index"@[0] == 'i',
        bare("field"@) && "field"@.len() == 5 && "field"@[0] == 'f',
        bare("unit"@) && "unit"@.len() == 4 && "unit"@[0] == 'u',
        bare("enabled"@) && "enabled"@.len() == 7,
        bare("suggested_path"@) && "suggested_path"@.len() == 14,
        bare("path"@) && "path"@.len() == 4 && "path"@[0] == 'p',
{
    reveal_strlit("group");
    reveal_strlit("index");
    reveal_strlit("field");
    reveal_strlit("unit");
    reveal_strlit("enabled");
    reveal_strlit("suggested_path");
    reveal_strlit("path");
}

proof fn lemma_reads_openings(a: Seq<Table>)
    ensures
        reads(a, "[[devices]]\n"@, a.push(Table { name: "devices"@, entries: Map::empty() })),
        reads(a, "[[fields]]\n"@, a.push(Table { name: "fields"@, entries: Map::empty() })),
{
    reveal_strlit("[[devices]]\n");
    reveal_strlit("[[fields]]\n");
    reveal_strlit("devices");
    reveal_strlit("fields");
    let (d, f) = ("[[devices]]\n"@.drop_last(), "[[fields]]\n"@.drop_last());
    lemma_trimmed_id(d);
    lemma_trimmed_id(f);
    lemma_trimmed_id("devices"@);
    lemma_trimmed_id("fields"@);
    assert(d.subrange(2, d.len() - 2) =~= "devices"@);
    assert(f.subrange(2, f.len() - 2) =~= "fields"@);
    lemma_reads_line(a, d, a.push(Table { name: "devices"@, entries: Map::empty() }));
    lemma_reads_line(a, f, a.push(Table { name: "fields"@, entries: Map::empty() }));
    assert(d + seq!['\n'] =~= "[[devices]]\n"@);
    assert(f + seq!['\n'] =~= "[[fields]]\n"@);
}

/// Whether the strings of a device can stand in quotes.
pub open spec fn device_quotable(d: DeviceModel) -> bool {
    quotable(d.device) && quotable(d.class) && quotable(d.instance)
}

/// Whether the strings of a field can stand in quotes.
pub open spec fn field_quotable(f: FieldModel) -> bool {
    &&& quotable(f.device) && quotable(f.class) && quotable(f.instance) && quotable(f.group)
    &&& quotable(f.index) && quotable(f.field) && quotable(f.unit)
    &&& quotable(f.suggested_path) && quotable(f.path)
}

proof fn lemma_reads_device(a: Seq<Table>, d: DeviceModel)
    requires
        device_quotable(d),
    ensures
        reads(a, device_entry(d), a.push(device_table(d))),
{
    reveal(device_entry);
    lemma_device_keys();
    lemma_reads_openings(a);
    let h = "[[devices]]\n"@;
    let t0 = Table { name: "devices"@, entries: Map::empty() };
    let t1 = t0.with("device"@, Entry::Text(d.device));
    let t2 = t1.with("class"@, Entry::Text(d.class));
    let t3 = t2.with("instance"@, Entry::Text(d.instance));
    let t4 = t3.with("publish_name"@, Entry::Truth(d.publish_name));
    let t5 = t4.with("publish_manufacturer_name"@, Entry::Truth(d.publish_manufacturer_name));
    let t6 = t5.with("publish_model"@, Entry::Truth(d.publish_model));
    lemma_reads_text(a, t0, "device"@, d.device);
    lemma_reads_text(a, t1, "class"@, d.class);
    lemma_reads_text(a, t2, "instance"@, d.instance);
    lemma_reads_truth(a, t3, "publish_name"@, d.publish_name);
    lemma_reads_truth(a, t4, "publish_manufacturer_name"@, d.publish_manufacturer_name);
    lemma_reads_truth(a, t5, "publish_model"@, d.publish_model);
    lemma_reads_blank(a.push(t6));
    let l1 = line("device"@, quoted(d.device));
    let l2 = line("class"@, quoted(d.class));
    let l3 = line("instance"@, quoted(d.instance));
    let l4 = line("publish_name"@, truth(d.publish_name));
    let l5 = line("publish_manufacturer_name"@, truth(d.publish_manufacturer_name));
    let l6 = line("publish_model"@, truth(d.publish_model));
    lemma_reads_both(a, h, a.push(t0), l1, a.push(t1));
    lemma_reads_both(a, h + l1, a.push(t1), l2, a.push(t2));
    lemma_reads_both(a, h + l1 + l2, a.push(t2), l3, a.push(t3));
    lemma_reads_both(a, h + l1 + l2 + l3, a.push(t3), l4, a.push(t4));
    lemma_reads_both(a, h + l1 + l2 + l3 + l4, a.push(t4), l5, a.push(t5));
    lemma_reads_both(a, h + l1 + l2 + l3 + l4 + l5, a.push(t5), l6, a.push(t6));
    lemma_reads_both(a, h + l1 + l2 + l3 + l4 + l5 + l6, a.push(t6), "\n"@, a.push(t6));
}

proof fn lemma_reads_field(a: Seq<Table>, f: FieldModel)
    requires
        field_quotable(f),
    ensures
        reads(a, field_entry(f), a.push(field_table(f))),
{
    reveal(field_entry);
    lemma_device_keys();
    lemma_field_keys();
    lemma_reads_openings(a);
    let h = "[[fields]]\n"@;
    let t0 = Table { name: "fields"@, entries: Map::empty() };
    let t1 = t0.with("device"@, Entry::Text(f.device));
    let t2 = t1.with("class"@, Entry::Text(f.class));
    let t3 = t2.with("instance"@, Entry::Text(f.instance));
    let t4 = t3.with("group"@, Entry::Text(f.group));
    let t5 = t4.with("index"@, Entry::Text(f.index));
    let t6 = t5.with("field"@, Entry::Text(f.field));
    let t7 = t6.with("unit"@, Entry::Text(f.unit));
    let t8 = t7.with("enabled"@, Entry::Truth(f.enabled));
    let t9 = t8.with("suggested_path"@, Entry::Text(f.suggested_path));
    let t10 = t9.with("path"@, Entry::Text(f.path));
    lemma_reads_text(a, t0, "device"@, f.device);
    lemma_reads_text(a, t1, "class"@, f.class);
    lemma_reads_text(a, t2, "instance"@, f.instance);
    lemma_reads_text(a, t3, "group"@, f.group);
    lemma_reads_text(a, t4, "index"@, f.index);
    lemma_reads_text(a, t5, "field"@, f.field);
    lemma_reads_text(a, t6, "unit"@, f.unit);
    lemma_reads_truth(a, t7, "enabled"@, f.enabled);
    lemma_reads_text(a, t8, "suggested_path"@, f.suggested_path);
    lemma_reads_text(a, t9, "path"@, f.path);
    lemma_reads_blank(a.push(t10));
    let l1 = line("device"@, quoted(f.device));
    let l2 = line("class"@, quoted(f.class));
    let l3 = line("instance"@, quoted(f.instance));
    let l4 = line("group"@, quoted(f.group));
    let l5 = line("index"@, quoted(f.index));
    let l6 = line("field"@, quoted(f.field));
    let l7 = line("unit"@, quoted(f.unit));
    let l8 = line("enabled"@, truth(f.enabled));
    let l9 = line("suggested_path"@, quoted(f.suggested_path));
    let l10 = line("path"@, quoted(f.path));
    lemma_reads_both(a, h, a.push(t0), l1, a.push(t1));
    lemma_reads_both(a, h + l1, a.push(t1), l2, a.push(t2));
    lemma_reads_both(a, h + l1 + l2, a.push(t2), l3, a.push(t3));
    let s3 = h + l1 + l2 + l3;
    lemma_reads_both(a, s3, a.push(t3), l4, a.push(t4));
    lemma_reads_both(a, s3 + l4, a.push(t4), l5, a.push(t5));
    lemma_reads_both(a, s3 + l4 + l5, a.push(t5), l6, a.push(t6));
    let s6 = s3 + l4 + l5 + l6;
    lemma_reads_both(a, s6, a.push(t6), l7, a.push(t7));
    lemma_reads_both(a, s6 + l7, a.push(t7), l8, a.push(t8));
    lemma_reads_both(a, s6 + l7 + l8, a.push(t8), l9, a.push(t9));
    lemma_reads_both(a, s6 + l7 + l8 + l9, a.push(t9), l10, a.push(t10));
    lemma_reads_both(a, s6 + l7 + l8 + l9 + l10, a.push(t10), "\n"@, a.push(t10));
}

proof fn lemma_device_of(d: DeviceModel)
    ensures
        device_of(device_table(d)) == Some(d),
{
    lemma_device_keys();
}

proof fn lemma_field_of(f: FieldModel)
    ensures
        field_of(field_table(f)) == Some(f),
{
    lemma_device_keys();
    lemma_field_keys();
}

/// The tables of devices.
spec fn device_tables(devices: Seq<DeviceModel>) -> Seq<Table> {
    devices.map_values(|d: DeviceModel| device_table(d))
}

/// The tables of fields.
spec fn field_tables(fields: Seq<FieldModel>) -> Seq<Table> {
    fields.map_values(|f: FieldModel| field_table(f))
}

proof fn lemma_reads_devices(devices: Seq<DeviceModel>)
    requires
        forall|i: int| 0 <= i < devices.len() ==> device_quotable(#[trigger] devices[i]),
    ensures
        reads(Seq::empty(), device_entries(devices), device_tables(devices)),
    decreases devices.len(),
{
    if devices.len() == 0 {
        assert(device_tables(devices) =~= Seq::empty());
        lemma_reads_nothing(Seq::empty());
    } else {
        let rest = devices.drop_last();
        assert forall|i: int| 0 <= i < rest.len() implies device_quotable(#[trigger] rest[i]) by {
            assert(rest[i] == devices[i]);
        }
        lemma_reads_devices(rest);
        let d = devices[devices.len() - 1];
        lemma_reads_device(device_tables(rest), d);
        assert(device_tables(devices) =~= device_tables(rest).push(device_table(d)));
        lemma_reads_both(
            Seq::empty(),
            device_entries(rest),
            device_tables(rest),
            device_entry(d),
            device_tables(devices),
        );
    }
}

proof fn lemma_reads_fields(a: Seq<Table>, fields: Seq<FieldModel>)
    requires
        forall|i: int| 0 <= i < fields.len() ==> field_quotable(#[trigger] fields[i]),
    ensures
        reads(a, field_entries(fields), a + field_tables(fields)),
    decreases fields.len(),
{
    if fields.len() == 0 {
        assert(a + field_tables(fields) =~= a);
        lemma_reads_nothing(a);
    } else {
        let rest = fields.drop_last();
        assert forall|i: int| 0 <= i < rest.len() implies field_quotable(#[trigger] rest[i]) by {
            assert(rest[i] == fields[i]);
        }
        lemma_reads_fields(a, rest);
        let f = fields[fields.len() - 1];
        let b = a + field_tables(rest);
        lemma_reads_field(b, f);
        assert(a + field_tables(fields) =~= b.push(field_table(f)));
        lemma_reads_both(a, field_entries(rest), b, field_entry(f), a + field_tables(fields));
    }
}

proof fn lemma_config_of_devices(devices: Seq<DeviceModel>)
    ensures
        config_of(device_tables(devices)) == Some(ConfigModel { devices, fields: Seq::empty() }),
    decreases devices.len(),
{
    if devices.len() == 0 {
        assert(device_tables(devices) =~= Seq::empty());
        assert(devices =~= Seq::empty());
    } else {
        let (rest, d) = (devices.drop_last(), devices.last());
        lemma_config_of_devices(rest);
        lemma_device_of(d);
        let ts = device_tables(devices);
        assert(ts.drop_last() =~= device_tables(rest));
        assert(ts.last() == device_table(d));
        assert(rest.push(d) =~= devices);
    }
}

proof fn lemma_config_of(cfg: ConfigModel)
    ensures
        config_of(device_tables(cfg.devices) + field_tables(cfg.fields)) == Some(cfg),
    decreases cfg.fields.len(),
{
    let a = device_tables(cfg.devices);
    if cfg.fields.len() == 0 {
        lemma_config_of_devices(cfg.devices);
        assert(a + field_tables(cfg.fields) =~= a);
        assert(cfg.fields =~= Seq::empty());
    } else {
        let (rest, f) = (cfg.fields.drop_last(), cfg.fields.last());
        lemma_config_of(ConfigModel { fields: rest, ..cfg });
        lemma_field_of(f);
        let ts = a + field_tables(cfg.fields);
        assert(ts.drop_last() =~= a + field_tables(rest));
        assert(ts.last() == field_table(f));
        assert(rest.push(f) =~= cfg.fields);
        reveal_strlit("devices");
        reveal_strlit("fields");
        assert("devices"@.len() == 7 && "fields"@.len() == 6);
    }
}

/// Whether every string of a configuration can stand in quotes.
pub open spec fn config_quotable(cfg: ConfigModel) -> bool {
    &&& forall|i: int| 0 <= i < cfg.devices.len() ==> device_quotable(#[trigger] cfg.devices[i])
    &&& forall|i: int| 0 <= i < cfg.fields.len() ==> field_quotable(#[trigger] cfg.fields[i])
}

/// What is written can be read: the text of a configuration holds the configuration, with
/// the same devices and fields in the same order. Left out are configurations with the
/// delete character in a string, which TOML does not allow there.
pub proof fn law_written_config_reads_back(cfg: ConfigModel)
    requires
        config_quotable(cfg),
    ensures
        read_config(config_text(cfg)) == Some(cfg),
{
    let none = Seq::<Table>::empty();
    let ds = device_tables(cfg.devices);
    let all = ds + field_tables(cfg.fields);
    lemma_reads_heading(none);
    lemma_reads_devices(cfg.devices);
    lemma_reads_fields(ds, cfg.fields);
    lemma_reads_both(none, heading(), none, device_entries(cfg.devices), ds);
    let most = heading() + device_entries(cfg.devices);
    lemma_reads_both(none, most, ds, field_entries(cfg.fields), all);
    let text = config_text(cfg);
    let rest = Seq::<char>::empty();
    assert(text + rest =~= text);
    assert(with_lines(Some(none), split(text + rest, '\n')) == with_lines(
        Some(all),
        split(rest, '\n'),
    ));
    lemma_split_one(rest, '\n');
    assert(trimmed(rest).len() == 0);
    assert(seq![rest].drop_first() =~= Seq::empty());
    assert(with_lines(Some(all), seq![rest]) == Some(all)) by {
        reveal_with_fuel(with_lines, 2);
        assert(seq![rest][0] == rest);
    }
    lemma_config_of(cfg);
}

} // verus!
