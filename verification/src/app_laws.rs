//! What the terminal program does with tabs, rows, editors and access levels, as it looks
//! from outside: what is marked, what is written, and what is asked for.

use vstd::prelude::*;
use vstd::utf8::encode_utf8;

use crate::app::{
    first_field, next_field, turned_choice, turned_level, typed, typed_password, untyped,
    untyped_password, with_values, writes, App, AppModel, Found, LoginAsk, TabAsk, WriteAsk,
};
use crate::panes::{
    field_rows, group_indexes, group_infos, group_rows, indexes, level, menu_words,
    on_second_channel, second_channel, tab, tab_words, AccessLevel, DeviceIdentity, EditKindModel,
    EditorModel, FieldInfoModel, Focus, GroupInfoModel, IdentityModel, LoginModel, LoginStageModel,
    Menu, PendingModel, RowModel, SubscribedModel, TabKind, VisualizationType,
};
use crate::slug::device_instance;
use crate::text::{decimal, hex, views};
use crate::value::{BusValue, Single};

verus! {

// ---- editors -------------------------------------------------------------------------

/// Whether a field can be edited by a choice of options.
pub open spec fn is_choice(f: FieldInfoModel) -> bool {
    f.viz_type == VisualizationType::Radio || f.viz_type == VisualizationType::DropDown
}

/// Whether a field is on or off.
pub open spec fn is_switch(f: FieldInfoModel) -> bool {
    f.viz_type == VisualizationType::CheckBox || f.viz_type == VisualizationType::ToggleButton
        || f.viz_type == VisualizationType::PushButton
}

/// An editor for a choice opens on the option that the field has, so that committing it at
/// once writes the option that the field has. Where the value names no option, the last one
/// is marked, and where no option is known, the first.
pub proof fn law_choice_opens_on_the_value(
    m: AppModel,
    number: Seq<char>,
    f: FieldInfoModel,
    ask: WriteAsk,
    typed_number: Option<Single>,
)
    requires
        m.selected() == Some(f),
        f.writeable,
        is_choice(f),
        f.options.len() > 0,
    ensures
        m.edit_begun(number).editor matches Some(e) && {
            &&& e.field == f.index && e.name == f.name
            &&& m.edit_begun(number) == (AppModel { editor: Some(e), ..m })
            &&& e.kind matches EditKindModel::Choice { options, sel } && {
                &&& options == f.options
                &&& 0 <= sel < options.len()
                &&& m.value_of(f.index) matches Some(BusValue::List { index, options: _ }) ==> {
                    &&& 0 <= index < options.len() ==> sel == index
                    &&& !(0 <= index < options.len()) ==> sel == options.len() - 1
                }
                &&& !(m.value_of(f.index) matches Some(BusValue::List { index, options: _ }))
                    ==> sel == 0
            }
            &&& writes(ask, m.cur_device, e, typed_number) ==> match m.cur_device {
                None => ask is None,
                Some(id) => ask matches Some((device, field, written)) && {
                    &&& device == id && field == f.index
                    &&& written matches BusValue::List { index: now, options: labels } && {
                        &&& views(labels@) == f.options
                        &&& m.value_of(f.index) matches Some(BusValue::List { index, options: _ })
                            ==> (0 <= index < f.options.len() ==> now == index)
                    }
                },
            }
        },
{
}

/// An editor for a text opens on the text that the field has, so that committing it at once
/// writes that text under the same number. A text that is not known yet is not edited.
pub proof fn law_text_opens_on_the_value(
    m: AppModel,
    number: Seq<char>,
    f: FieldInfoModel,
    ask: WriteAsk,
    typed_number: Option<Single>,
)
    requires
        m.selected() == Some(f),
        f.writeable,
        f.viz_type == VisualizationType::Text,
    ensures
        m.value_of(f.index) matches Some(BusValue::Text { sid, text }) ==> {
            &&& m.edit_begun(number).editor matches Some(e) && {
                &&& e == (EditorModel {
                    field: f.index,
                    name: f.name,
                    kind: EditKindModel::Text { str_id: sid, buf: text@ },
                })
                &&& m.edit_begun(number) == (AppModel { editor: Some(e), ..m })
                &&& writes(ask, m.cur_device, e, typed_number) ==> match m.cur_device {
                    None => ask is None,
                    Some(id) => ask matches Some((device, field, written)) && {
                        &&& device == id && field == f.index
                        &&& written matches BusValue::Text { sid: now, text: says } && now == sid
                            && says@ == text@
                    },
                }
            }
        },
        !(m.value_of(f.index) matches Some(BusValue::Text { sid, text })) ==> m.edit_begun(number)
            == (AppModel { status: f.name + ": value not loaded yet"@, ..m }),
{
}

/// An editor for a number opens on the number that is shown, or on nothing where there is
/// none. Committing writes the number that was typed, and nothing where none was.
pub proof fn law_number_opens_on_the_value(
    m: AppModel,
    number: Seq<char>,
    f: FieldInfoModel,
    ask: WriteAsk,
    typed_number: Option<Single>,
)
    requires
        m.selected() == Some(f),
        f.writeable,
        f.viz_type == VisualizationType::Float,
    ensures
        m.edit_begun(number).editor matches Some(e) && {
            &&& m.edit_begun(number) == (AppModel { editor: Some(e), ..m })
            &&& e.field == f.index && e.name == f.name
            &&& e.kind == EditKindModel::Number(
                match m.value_of(f.index) {
                    Some(BusValue::Float(x)) => if x.nan() {
                        Seq::empty()
                    } else {
                        number
                    },
                    _ => Seq::empty(),
                },
            )
            &&& writes(ask, m.cur_device, e, typed_number) ==> match (m.cur_device, typed_number) {
                (Some(id), Some(x)) => ask == Some((id, f.index, BusValue::Float(x))),
                _ => ask is None,
            }
        },
{
}

/// Where no editor opens nothing but the line of status changes: where no field is marked,
/// where the field is read-only, where it is on or off, and where it cannot be edited here.
/// Only a field that can be written and is on or off is turned round at once.
pub proof fn law_no_editor_opens(m: AppModel, number: Seq<char>, f: FieldInfoModel)
    ensures
        m.selected() is None ==> m.edit_begun(number) == m && !m.toggles(),
        m.selected() == Some(f) && !f.writeable ==> m.edit_begun(number) == (AppModel {
            status: f.name + " is read-only"@,
            ..m
        }) && !m.toggles(),
        m.selected() == Some(f) && f.writeable && is_switch(f) ==> m.edit_begun(number) == m
            && m.toggles(),
        m.selected() == Some(f) && f.writeable && !is_switch(f) ==> !m.toggles(),
        m.selected() == Some(f) && f.writeable && f.viz_type == VisualizationType::Other
            ==> m.edit_begun(number) == (AppModel {
            status: f.name + ": not editable in this demo"@,
            ..m
        }),
{
}

/// What can be typed: into a number digits, the point and the minus; into a text what can be
/// printed, blanks too, up to sixteen bytes; into a choice nothing. What is typed comes last,
/// and what is taken back is the last.
pub proof fn law_typing(kind: EditKindModel, c: char)
    ensures
        match kind {
            EditKindModel::Number(s) => {
                let fits = '0' <= c && c <= '9' || c == '.' || c == '-';
                &&& typed(kind, c) == EditKindModel::Number(
                    if fits {
                        s + seq![c]
                    } else {
                        s
                    },
                )
                &&& s.len() == 0 ==> untyped(kind) == kind
                &&& s.len() > 0 ==> untyped(kind) == EditKindModel::Number(
                    s.subrange(0, s.len() - 1),
                )
            },
            EditKindModel::Text { str_id, buf } => {
                let fits = ' ' <= c && c <= '~' && encode_utf8(buf).len() < 16;
                &&& encode_utf8(buf).len() <= usize::MAX ==> typed(kind, c)
                    == (EditKindModel::Text {
                    str_id,
                    buf: if fits {
                        buf + seq![c]
                    } else {
                        buf
                    },
                })
                &&& buf.len() == 0 ==> untyped(kind) == kind
                &&& buf.len() > 0 ==> untyped(kind) == (EditKindModel::Text {
                    str_id,
                    buf: buf.subrange(0, buf.len() - 1),
                })
            },
            EditKindModel::Choice { .. } => typed(kind, c) == kind && untyped(kind) == kind,
        },
{
    match kind {
        EditKindModel::Number(s) => {
            assert(s + seq![c] =~= s.push(c));
            if s.len() > 0 {
                assert(s.subrange(0, s.len() - 1) =~= s.drop_last());
            }
        },
        EditKindModel::Text { buf, .. } => {
            assert(buf + seq![c] =~= buf.push(c));
            if buf.len() > 0 {
                assert(buf.subrange(0, buf.len() - 1) =~= buf.drop_last());
            }
        },
        EditKindModel::Choice { .. } => {},
    }
}

/// Options are a ring: the mark moves by as many places as asked, behind the last one comes
/// the first, before the first the last, and the options stay.
pub proof fn law_choice_is_a_ring(options: Seq<Seq<char>>, sel: int, delta: int)
    requires
        0 <= sel < options.len(),
    ensures
        turned_choice(EditKindModel::Choice { options, sel }, delta)
            matches EditKindModel::Choice { options: same, sel: now } && {
            &&& same == options
            &&& 0 <= now < options.len()
            &&& 0 <= sel + delta < options.len() ==> now == sel + delta
            &&& sel + delta == options.len() ==> now == 0
            &&& sel + delta == -1 ==> now == options.len() - 1
            &&& exists|turns: int| #![trigger turns * options.len()]
                now == sel + delta + turns * options.len()
        },
{
    let n = options.len() as int;
    let x = sel + delta;
    vstd::arithmetic::div_mod::lemma_fundamental_div_mod(x, n);
    let q = x / n;
    assert(x % n == x + (-q) * n) by (nonlinear_arith)
        requires
            x == n * q + x % n,
    ;
    if 0 <= x < n {
        vstd::arithmetic::div_mod::lemma_small_mod(x as nat, n as nat);
    }
    if x == n {
        vstd::arithmetic::div_mod::lemma_mod_self_0(n);
    }
    if x == -1 {
        vstd::arithmetic::div_mod::lemma_fundamental_div_mod_converse(-1, n, -1, n - 1);
    }
}

/// The values of a field are shown with the one marked that the field has.
pub proof fn law_values_shown(m: AppModel, f: FieldInfoModel)
    requires
        m.selected() == Some(f),
    ensures
        f.options.len() == 0 ==> m.values_opened() == (AppModel {
            status: f.name + ": no list values to show"@,
            ..m
        }),
        f.options.len() > 0 ==> (m.values_opened().values_modal matches Some(v) && {
            &&& m.values_opened() == (AppModel { values_modal: Some(v), ..m })
            &&& v.field_name == f.name && v.options == f.options
            &&& m.value_of(f.index) matches Some(BusValue::List { index, options: _ })
                ==> v.current == Some(index)
            &&& m.value_of(f.index) matches Some(BusValue::Eventable { index, options: _ })
                ==> v.current == Some(index)
            &&& v.current is Some ==> m.value_of(f.index) is Some
        }),
{
}

/// A value that was read later counts, and the values of other fields stay.
pub proof fn law_latest_value_counts(
    values: Map<u16, BusValue>,
    updates: Seq<(u16, BusValue)>,
    field: u16,
    i: int,
)
    ensures
        0 <= i < updates.len() && updates[i].0 == field && (forall|j: int|
            i < j < updates.len() ==> (#[trigger] updates[j]).0 != field) ==> with_values(
            values,
            updates,
        ).dom().contains(field) && with_values(values, updates)[field] == updates[i].1,
        (forall|j: int| 0 <= j < updates.len() ==> (#[trigger] updates[j]).0 != field) ==> {
            &&& with_values(values, updates).dom().contains(field) == values.dom().contains(field)
            &&& values.dom().contains(field) ==> with_values(values, updates)[field]
                == values[field]
        },
    decreases updates.len(),
{
    if updates.len() > 0 {
        let rest = updates.drop_last();
        law_latest_value_counts(values, rest, field, i);
        assert forall|j: int| 0 <= j < rest.len() implies rest[j] == updates[j] by {}
        assert(updates.last() == updates[updates.len() - 1]);
        if forall|j: int| 0 <= j < updates.len() ==> (#[trigger] updates[j]).0 != field {
            assert forall|j: int| 0 <= j < rest.len() implies (#[trigger] rest[j]).0 != field by {
                assert(updates[j].0 != field);
            }
        }
        if 0 <= i < rest.len() && (forall|j: int|
            i < j < updates.len() ==> (#[trigger] updates[j]).0 != field) {
            assert forall|j: int| i < j < rest.len() implies (#[trigger] rest[j]).0 != field by {
                assert(updates[j].0 != field);
            }
        }
    }
}

// ---- rows ----------------------------------------------------------------------------

/// The marked field is the one in the marked row.
pub proof fn law_selected(m: AppModel, f: FieldInfoModel)
    ensures
        m.selected() == Some(f) <==> 0 <= m.row_sel < m.rows.len() && m.rows[m.row_sel]
            == RowModel::Field(f),
{
}

/// The first field is a field, and every row before it is none.
pub proof fn law_first_field(rows: Seq<RowModel>, from: int, j: int)
    requires
        0 <= from,
    ensures
        match first_field(rows, from) {
            Some(i) => from <= i < rows.len() && rows[i] is Field && (from <= j < i
                ==> rows[j] is Group),
            None => from <= j < rows.len() ==> rows[j] is Group,
        },
    decreases rows.len() - from,
{
    if from < rows.len() && !(rows[from] is Field) {
        law_first_field(rows, from + 1, j);
    }
}

/// Going down by one marks the next field below, and going up by one the next one above:
/// only groups lie between.
pub proof fn law_next_field(rows: Seq<RowModel>, from: int, delta: int, j: int)
    requires
        0 <= from < rows.len(),
        delta == 1 || delta == -1,
    ensures
        match next_field(rows, from, delta) {
            Some(i) => {
                &&& 0 <= i < rows.len() && rows[i] is Field
                &&& delta == 1 ==> from < i && (from < j < i ==> rows[j] is Group)
                &&& delta == -1 ==> i < from && (i < j < from ==> rows[j] is Group)
            },
            None => {
                &&& delta == 1 ==> (from < j < rows.len() ==> rows[j] is Group)
                &&& delta == -1 ==> (0 <= j < from ==> rows[j] is Group)
            },
        },
    decreases (if delta > 0 { rows.len() - from } else { from }),
{
    let i = from + delta;
    if 0 <= i < rows.len() && !(rows[i] is Field) {
        law_next_field(rows, i, delta, j);
    }
}

/// The rows of a group are its name and then its fields, and groups follow each other.
pub proof fn law_group_rows(groups: Seq<GroupInfoModel>, g: GroupInfoModel, i: int)
    ensures
        group_rows(Seq::empty()).len() == 0 && group_indexes(Seq::empty()).len() == 0,
        ({
            let (was, now) = (group_rows(groups), group_rows(groups.push(g)));
            let n = was.len() as int;
            &&& now.len() == n + 1 + g.fields.len()
            &&& 0 <= i < n ==> now[i] == was[i]
            &&& now[n] == RowModel::Group(g.name)
            &&& 0 <= i < g.fields.len() ==> now[n + 1 + i] == RowModel::Field(g.fields[i])
        }),
        ({
            let (was, now) = (group_indexes(groups), group_indexes(groups.push(g)));
            let n = was.len() as int;
            &&& now.len() == n + g.fields.len()
            &&& 0 <= i < n ==> now[i] == was[i]
            &&& 0 <= i < g.fields.len() ==> now[n + i] == g.fields[i].index
        }),
{
    assert(groups.push(g).drop_last() =~= groups);
    assert(groups.push(g).last() == g);
}

/// Settings are the fields one after the other, each under its number.
pub proof fn law_field_rows(fields: Seq<FieldInfoModel>, i: int)
    requires
        0 <= i < fields.len(),
    ensures
        field_rows(fields).len() == fields.len(),
        field_rows(fields)[i] == RowModel::Field(fields[i]),
        indexes(fields).len() == fields.len(),
        indexes(fields)[i] == fields[i].index,
{
}

/// The settings are the fields of the second channel, all of them and in their order.
pub proof fn law_second_channel(fields: Seq<FieldInfoModel>)
    ensures
        second_channel(fields) == fields.filter(
            |f: FieldInfoModel| (f.index as int / 256) % 2 == 1,
        ),
    decreases fields.len(),
{
    let keep = |f: FieldInfoModel| (f.index as int / 256) % 2 == 1;
    reveal(Seq::filter);
    if fields.len() > 0 {
        law_second_channel(fields.drop_last());
        assert(on_second_channel(fields.last().index) == keep(fields.last()));
    } else {
        assert(fields =~= fields.filter(keep));
    }
}

/// Rows that are shown start at the first field, with no value known yet, and the fields
/// among them are the ones listened to.
pub proof fn law_rows_shown(
    m: AppModel,
    id: u32,
    rows: Seq<RowModel>,
    fields: Seq<u16>,
    status: Seq<char>,
    j: int,
)
    ensures
        ({
            let now = m.shown(id, rows, fields, status);
            &&& now.rows == rows && now.status == status
            &&& now.values == Map::<u16, BusValue>::empty()
            &&& fields.len() == 0 ==> now.sub is None
            &&& fields.len() > 0 ==> now.sub == Some(SubscribedModel { device: id, fields })
            &&& 0 <= now.row_sel && (rows.len() > 0 ==> now.row_sel < rows.len())
            &&& 0 <= j < now.row_sel ==> rows[j] is Group
            &&& (exists|k: int| 0 <= k < rows.len() && #[trigger] rows[k] is Field)
                ==> rows[now.row_sel] is Field
            &&& now == (AppModel {
                rows,
                values: Map::empty(),
                sub: now.sub,
                row_sel: now.row_sel,
                status,
                ..m
            })
        }),
{
    law_first_field(rows, 0, j);
    if exists|k: int| 0 <= k < rows.len() && #[trigger] rows[k] is Field {
        let k = choose|k: int| 0 <= k < rows.len() && #[trigger] rows[k] is Field;
        law_first_field(rows, 0, k);
    }
}

// ---- tabs ----------------------------------------------------------------------------

/// The tabs stand in this order, and the levels of access in this one.
pub proof fn law_order()
    ensures
        tab(0) == TabKind::Summary && tab(1) == TabKind::Menu(Menu::Monitoring),
        tab(2) == TabKind::Menu(Menu::Configuration) && tab(3) == TabKind::Menu(Menu::Service),
        tab(4) == TabKind::Settings,
        level(0) == AccessLevel::EndUser && level(1) == AccessLevel::Installer,
        level(2) == AccessLevel::Distributor && level(3) == AccessLevel::MvService,
{
}

/// Turning by one goes to the tab beside, and round at both ends.
pub proof fn law_tabs_are_a_ring(m: AppModel, i: int, delta: int)
    requires
        0 <= i < 5,
        m.cur_tab == tab(i),
    ensures
        0 <= i + delta < 5 ==> m.turned(delta) == tab(i + delta),
        i + delta == 5 ==> m.turned(delta) == tab(0),
        i + delta == -1 ==> m.turned(delta) == tab(4),
{
}

/// Opening a device forgets what was known of the one before it, and starts at its summary.
/// What is open is the marked device; everything else stays.
pub proof fn law_opening_forgets(m: AppModel)
    ensures
        m.dev_sel >= m.device_ids.len() ==> m.opened() == m,
        m.dev_sel < m.device_ids.len() ==> {
            let now = m.opened();
            &&& now.cur_device == Some(m.device_ids[m.dev_sel])
            &&& now.cur_tab == TabKind::Summary && now.focus == Focus::Fields
            &&& now.loaded_menus == Set::<Menu>::empty() && !now.settings_loaded
            &&& now.rows.len() == 0 && now.row_sel == 0 && now.sub is None
            &&& now.values == Map::<u16, BusValue>::empty()
            &&& now.cur_serial is None && now.cur_instance.len() == 0
            &&& now.device_ids == m.device_ids && now.dev_sel == m.dev_sel
            &&& now.names == m.names && now.idents == m.idents && now.mapping == m.mapping
            &&& now.status == m.status && now.pending == m.pending && now.login == m.login
            &&& now.editor == m.editor && now.path_editor == m.path_editor
            &&& now.should_quit == m.should_quit && now.show_logs == m.show_logs
        },
{
}

/// The summary of a device takes in what the device said of itself: its serial number, where
/// it has one, and the instance that its name gives. Where it said nothing, what was known
/// stays.
pub proof fn law_summary(
    m: AppModel,
    id: u32,
    identity: Option<IdentityModel>,
    access: Option<AccessLevel>,
)
    requires
        m.cur_device == Some(id),
    ensures
        ({
            let now = m.summarized(identity, access);
            &&& now.cur_tab == TabKind::Summary && now.rows.len() == 0 && now.row_sel == 0
            &&& now.sub is None && now.cur_info == identity && now.cur_access_level == access
            &&& now.status == m.label(id) + " / Summary — Tab switch · Esc back"@
            &&& identity matches Some(i) ==> {
                &&& now.idents == m.idents.insert(id, i)
                &&& i.serial.len() == 0 ==> now.cur_serial is None
                &&& i.serial.len() > 0 ==> now.cur_serial == Some(i.serial)
                &&& now.cur_instance == device_instance(i.name, id as nat)
            }
            &&& identity is None ==> now.idents == m.idents && now.cur_serial == m.cur_serial
                && now.cur_instance == m.cur_instance
            &&& now.cur_device == m.cur_device && now.values == m.values && now.names == m.names
            &&& now.mapping == m.mapping && now.loaded_menus == m.loaded_menus
            &&& now.settings_loaded == m.settings_loaded && now.focus == m.focus
        }),
{
}

/// A device is called by its name, or by its number where it has none.
pub proof fn law_label(m: AppModel, id: u32)
    ensures
        m.names.dom().contains(id) ==> m.label(id) == m.names[id],
        !m.names.dom().contains(id) ==> m.label(id) == decimal(id as nat),
{
}

/// A tab is looked for once: where its rows were found, the next switch to it only reads
/// them, and until then each switch looks for them. Other menus still have to be found.
pub proof fn law_found_tabs_are_read(m: AppModel, id: u32, menu: Menu, other: Menu, gs: Seq<
    GroupInfoModel,
>)
    requires
        m.cur_device == Some(id),
    ensures
        m.tab_ask(TabKind::Summary) == TabAsk::Summary(id),
        ({
            let now = m.found_shown(id, TabKind::Menu(menu), gs);
            &&& now.tab_ask(TabKind::Menu(menu)) == TabAsk::ReadMenu(id, menu)
            &&& other != menu ==> now.tab_ask(TabKind::Menu(other)) == m.tab_ask(
                TabKind::Menu(other),
            )
            &&& now.tab_ask(TabKind::Settings) == m.tab_ask(TabKind::Settings)
            &&& now.rows == group_rows(gs)
        }),
        ({
            let now = m.found_shown(id, TabKind::Settings, gs);
            &&& now.tab_ask(TabKind::Settings) == TabAsk::ReadSettings(id)
            &&& now.tab_ask(TabKind::Menu(menu)) == m.tab_ask(TabKind::Menu(menu))
            &&& gs.len() > 0 ==> now.rows == field_rows(gs[0].fields)
            &&& gs.len() == 0 ==> now.rows.len() == 0
        }),
        m.loaded_menus == Set::<Menu>::empty() ==> m.tab_ask(TabKind::Menu(menu))
            == TabAsk::FindMenu(id, menu),
        !m.settings_loaded ==> m.tab_ask(TabKind::Settings) == TabAsk::FindSettings(id),
{
    law_first_field(group_rows(gs), 0, 0);
    if gs.len() > 0 {
        law_first_field(field_rows(gs[0].fields), 0, 0);
    }
}

/// Switching to a tab shows it as the one that is open. Where it has to be looked for, the
/// rows are gone and the wait is for this device and this tab. Where nothing is open,
/// nothing changes.
pub proof fn law_switching(m: AppModel, t: TabKind)
    ensures
        m.cur_device is None ==> m.switched(t) == m && m.tab_ask(t) == TabAsk::Nothing,
        m.cur_device matches Some(id) ==> {
            let now = m.switched(t);
            let looks = m.tab_ask(t) is FindMenu || m.tab_ask(t) is FindSettings;
            &&& now.cur_tab == t
            &&& looks ==> now.rows.len() == 0 && now.row_sel == 0 && now.pending == Some(
                PendingModel { id, tab: t, name: m.label(id) },
            )
            &&& !looks ==> now == (AppModel { cur_tab: t, ..m })
            &&& now.values == m.values && now.sub == m.sub && now.cur_device == m.cur_device
            &&& now.loaded_menus == m.loaded_menus && now.settings_loaded == m.settings_loaded
        },
        !m.can_turn() <==> m.cur_device is None || m.pending is Some,
{
}

/// What was looked for arrives where it was asked for: it is shown under the tab and for the
/// device of the wait, which is over. Nothing changes before it arrives, and where it fails
/// the devices are shown again.
pub proof fn law_waiting(m: AppModel, found: Found)
    ensures
        m.pending is None || found is NotYet ==> m.polled(found) == m,
        m.pending is Some && found is Failed ==> m.polled(found) == (AppModel {
            pending: None,
            focus: Focus::Devices,
            status: "discovery failed"@,
            ..m
        }),
        m.pending matches Some(p) ==> (found matches Found::Groups { groups, name } ==> {
            let gs = group_infos(groups@);
            let now = m.polled(found);
            &&& now.pending is None
            &&& name matches Some(n) ==> now.label(p.id) == n@
            &&& name is None ==> now.names == m.names
            &&& p.tab matches TabKind::Menu(menu) ==> now.rows == group_rows(gs)
                && now.loaded_menus == m.loaded_menus.insert(menu)
            &&& p.tab is Settings ==> now.settings_loaded && now.loaded_menus == m.loaded_menus
            &&& p.tab is Menu ==> now.settings_loaded == m.settings_loaded
            &&& now.cur_device == m.cur_device && now.cur_tab == m.cur_tab
        }),
{
}

/// What the line of status says of rows that are shown.
pub proof fn law_status_of_rows(
    m: AppModel,
    id: u32,
    menu: Menu,
    groups: Seq<GroupInfoModel>,
    fields: Seq<FieldInfoModel>,
)
    ensures
        m.mapping is None ==> m.groups_shown(id, menu, groups).status == m.label(id) + " / "@
            + menu_words(menu) + " — Tab switch · Enter edit · ? values"@ + ""@ + " · Esc back"@,
        m.mapping is Some ==> m.groups_shown(id, menu, groups).status == m.label(id) + " / "@
            + menu_words(menu) + " — Tab switch · Enter edit · ? values"@
            + " · + map · - unmap · a apply to article · w write"@ + " · Esc back"@,
        m.settings_shown(id, fields).status == m.label(id) + " / Settings ("@ + decimal(
            fields.len(),
        ) + " Btm3 fields) — Tab switch · Enter edit · ? values · Esc back"@,
        m.groups_shown(id, menu, groups).sub matches Some(s) ==> s.device == id && s.fields
            == group_indexes(groups),
        m.settings_shown(id, fields).sub matches Some(s) ==> s.device == id && s.fields
            == indexes(fields),
        menu_words(Menu::Monitoring) == "Monitoring"@,
        menu_words(Menu::Configuration) == "Configuration"@,
        menu_words(Menu::Service) == "Service"@,
        menu_words(Menu::Alarm) == "Alarms"@,
        menu_words(Menu::History) == "History"@,
        tab_words(TabKind::Summary) == "Summary"@,
        tab_words(TabKind::Settings) == "Settings"@,
        tab_words(TabKind::Menu(menu)) == menu_words(menu),
{
}

/// Whether a character is a hexadecimal digit, in small letters, that stands for `d`.
pub open spec fn small_digit(c: char, d: int) -> bool {
    0 <= d < 10 && c as int == 48 + d || 10 <= d < 16 && c as int == 97 + d - 10
}

/// A menu without a name is called by its number, in two hexadecimal digits.
pub proof fn law_other_menus(n: u8)
    ensures
        ({
            let w = menu_words(Menu::Other(n));
            &&& w.len() == 9
            &&& w.take(7) == "Menu 0x"@
            &&& small_digit(w[7], n as int / 16) && small_digit(w[8], n as int % 16)
        }),
{
    reveal_strlit("Menu 0x");
    assert(menu_words(Menu::Other(n)).take(7) =~= "Menu 0x"@);
}

// ---- access levels ---------------------------------------------------------------------

/// The prompt offers the levels as a ring while one is picked, and not while a password is
/// typed.
pub proof fn law_levels_are_a_ring(p: LoginModel, delta: int)
    requires
        0 <= p.sel < 4,
    ensures
        ({
            let now = turned_level(p, delta);
            &&& now.device == p.device && now.current == p.current && now.stage == p.stage
            &&& p.stage is EnterPassword ==> now.sel == p.sel
            &&& p.stage is PickLevel ==> {
                &&& 0 <= now.sel < 4
                &&& 0 <= p.sel + delta < 4 ==> now.sel == p.sel + delta
                &&& p.sel + delta == 4 ==> now.sel == 0
                &&& p.sel + delta == -1 ==> now.sel == 3
            }
        }),
{
}

/// Characters that can be printed are put behind a password, and the last one is taken back.
pub proof fn law_password_typing(p: LoginModel, c: char)
    ensures
        p.stage is PickLevel ==> typed_password(p, c) == p && untyped_password(p) == p,
        p.stage matches LoginStageModel::EnterPassword { level: l, buf } ==> {
            let fits = '!' <= c && c <= '~';
            &&& !fits ==> typed_password(p, c) == p
            &&& fits ==> typed_password(p, c) == (LoginModel {
                stage: LoginStageModel::EnterPassword { level: l, buf: buf.push(c) },
                ..p
            })
            &&& buf.len() == 0 ==> untyped_password(p) == p
            &&& buf.len() > 0 ==> untyped_password(p) == (LoginModel {
                stage: LoginStageModel::EnterPassword {
                    level: l,
                    buf: buf.subrange(0, buf.len() - 1),
                },
                ..p
            })
        },
{
    match p.stage {
        LoginStageModel::EnterPassword { buf, .. } => {
            if buf.len() > 0 {
                assert(buf.subrange(0, buf.len() - 1) =~= buf.drop_last());
            }
        },
        LoginStageModel::PickLevel => {},
    }
}

/// Picking the level of an end user asks for it at once and closes the prompt. Picking any
/// other asks for nothing yet but a password, and the password is sent for that level. The
/// device asked is the one of the prompt.
pub proof fn law_login_answers(m: AppModel, p: LoginModel, ask: LoginAsk)
    requires
        m.login == Some(p),
        0 <= p.sel < 4,
        m.login_asks(ask),
    ensures
        p.stage is PickLevel && p.sel == 0 ==> m.login_committed() == (AppModel {
            login: None,
            ..m
        }) && ask == (LoginAsk::Logout { device: p.device, prev: p.current }),
        p.stage is PickLevel && p.sel > 0 ==> ask is Nothing && m.login_committed() == (AppModel {
            login: Some(
                LoginModel {
                    device: p.device,
                    sel: p.sel,
                    current: p.current,
                    stage: LoginStageModel::EnterPassword {
                        level: if p.sel == 1 {
                            AccessLevel::Installer
                        } else if p.sel == 2 {
                            AccessLevel::Distributor
                        } else {
                            AccessLevel::MvService
                        },
                        buf: Seq::empty(),
                    },
                },
            ),
            status: "enter password — type · Enter submit · Esc cancel"@,
            ..m
        }),
        p.stage matches LoginStageModel::EnterPassword { level: l, buf } ==> {
            &&& m.login_committed() == (AppModel { login: None, ..m })
            &&& ask matches LoginAsk::Login { device, level: asked, password, prev } && device
                == p.device && asked == l && password@ == buf && prev == p.current
        },
{
}

/// The prompt is for the open device, or for the marked one where none is open.
pub proof fn law_login_device(m: AppModel)
    ensures
        m.cur_device is Some ==> m.login_device() == m.cur_device,
        m.cur_device is None && m.dev_sel < m.device_ids.len() ==> m.login_device() == Some(
            m.device_ids[m.dev_sel],
        ),
        m.cur_device is None && m.dev_sel >= m.device_ids.len() ==> m.login_device() is None,
{
}

/// A level that a device reports is told with its address, unless a password was sent and
/// the level is the one before.
pub proof fn law_level_report(
    device: u32,
    attempted: AccessLevel,
    reported: AccessLevel,
    prev: Option<AccessLevel>,
)
    ensures
        attempted == AccessLevel::EndUser || prev != Some(reported) ==> AppModel::level_report(
            device,
            attempted,
            reported,
            prev,
        ) == "device 0x"@ + hex(device as nat, 6) + " → "@ + match reported {
            AccessLevel::EndUser => "End User"@,
            AccessLevel::Installer => "Installer"@,
            AccessLevel::Distributor => "Distributor"@,
            AccessLevel::MvService => "MV Service"@,
        },
        attempted != AccessLevel::EndUser && prev == Some(reported) ==> AppModel::level_report(
            device,
            attempted,
            reported,
            prev,
        ) == "that seems to be an incorrect password"@,
{
}

/// After an open device reported its level, its tab is looked for again; its summary is only
/// asked for what the device says of itself. A level of another device changes no more than
/// the line of status.
pub proof fn law_level_applies_to_the_open_device(
    m: AppModel,
    device: u32,
    l: AccessLevel,
    status: Seq<char>,
)
    ensures
        m.cur_device != Some(device) ==> m.level_applied(device, l, status) == (AppModel {
            status,
            ..m
        }) && m.level_ask(device) == TabAsk::Nothing,
        m.cur_device == Some(device) ==> {
            let now = m.level_applied(device, l, status);
            &&& now.cur_device == m.cur_device && now.cur_tab == m.cur_tab && now.sub is None
            &&& m.cur_tab is Summary ==> m.level_ask(device) == TabAsk::Identity(device)
                && now.rows == m.rows && now.status == status && now.pending == m.pending
            &&& !(m.cur_tab is Summary) ==> m.level_ask(device) == AppModel {
                loaded_menus: Set::empty(),
                settings_loaded: false,
                ..m
            }.tab_ask(m.cur_tab) && now.rows.len() == 0 && now.row_sel == 0 && now.pending == Some(
                PendingModel { id: device, tab: m.cur_tab, name: m.label(device) },
            )
        },
{
}

/// A value is asked for where the marked field of an open device has none that is known.
pub proof fn law_missing_value(m: AppModel, f: FieldInfoModel)
    ensures
        m.cur_device is None || m.selected() is None ==> m.missing_value() is None,
        m.cur_device matches Some(id) ==> (m.selected() == Some(f) ==> {
            &&& m.values.dom().contains(f.index) ==> m.missing_value() is None
            &&& !m.values.dom().contains(f.index) ==> m.missing_value() == Some((id, f.index))
        }),
{
}

/// While the rows of a tab are looked for, it is said of which device and of which menu.
pub proof fn law_looking(m: AppModel, id: u32, menu: Menu)
    ensures
        m.looking(id, TabKind::Menu(menu)).status == "discovering "@ + m.label(id) + " / "@
            + menu_words(menu) + "…"@,
        m.looking(id, TabKind::Settings).status == "probing Btm3 fields of "@ + m.label(id) + "…"@,
{
}

/// Typing into an editor or into the prompt changes that alone, and nothing where none is
/// open.
pub proof fn law_typing_changes_the_editor(
    m: AppModel,
    change: spec_fn(EditKindModel) -> EditKindModel,
    turn: spec_fn(LoginModel) -> LoginModel,
)
    ensures
        m.editor is None ==> m.with_kind(change) == m,
        m.editor matches Some(e) ==> m.with_kind(change) == (AppModel {
            editor: Some(EditorModel { field: e.field, name: e.name, kind: change(e.kind) }),
            ..m
        }),
        m.login is None ==> m.with_prompt(turn) == m,
        m.login matches Some(p) ==> m.with_prompt(turn) == (AppModel { login: Some(turn(p)), ..m }),
{
}

/// The value of a field is the one that is known of it.
pub proof fn law_value_of(m: AppModel, field: u16)
    ensures
        m.values.dom().contains(field) ==> m.value_of(field) == Some(m.values[field]),
        !m.values.dom().contains(field) ==> m.value_of(field) is None,
{
}

/// Going by more than one row at a time lands on the first field among those rows, and stays
/// where the rows end before one.
pub proof fn law_next_field_in_steps(rows: Seq<RowModel>, from: int, delta: int, k: int)
    requires
        0 <= from,
        delta != 0,
        k >= 1,
        forall|j: int|
            1 <= j < k ==> 0 <= from + #[trigger] (j * delta) < rows.len() && rows[from + j
                * delta] is Group,
    ensures
        ({
            let to = from + k * delta;
            &&& 0 <= to < rows.len() && rows[to] is Field ==> next_field(rows, from, delta) == Some(
                to,
            )
            &&& to < 0 || to >= rows.len() ==> next_field(rows, from, delta) is None
        }),
    decreases k,
{
    let i = from + delta;
    assert(1 * delta == delta);
    if k > 1 {
        assert(0 <= from + 1 * delta < rows.len());
        assert forall|j: int| 1 <= j < k - 1 implies 0 <= i + #[trigger] (j * delta) < rows.len()
            && rows[i + j * delta] is Group by {
            assert((j + 1) * delta == j * delta + delta) by (nonlinear_arith);
            assert(0 <= from + (j + 1) * delta < rows.len());
        }
        assert(k * delta == (k - 1) * delta + delta) by (nonlinear_arith);
        law_next_field_in_steps(rows, i, delta, k - 1);
    }
}

// ---- one call after the other -----------------------------------------------------------

/// Opening an editor for a choice and committing it at once writes the option that the field
/// has.
pub proof fn law_choice_is_kept(
    a: &mut App,
    b: &mut App,
    number: &str,
    first: WriteAsk,
    typed_number: Option<Single>,
    ask: WriteAsk,
    f: FieldInfoModel,
    id: u32,
)
    requires
        call_ensures(App::begin_edit, (a, number), first),
        call_ensures(App::commit_edit, (b, typed_number), ask),
        old(b)@ == final(a)@,
        old(a)@.selected() == Some(f),
        old(a)@.cur_device == Some(id),
        f.writeable,
        is_choice(f),
    ensures
        first is None,
        final(b)@.editor is None,
        old(a)@.value_of(f.index) matches Some(BusValue::List { index, options: _ }) ==> (0 <= index
            < f.options.len() ==> (ask matches Some((device, field, written)) && {
            &&& device == id && field == f.index
            &&& written matches BusValue::List { index: now, options: labels } && now == index
                && views(labels@) == f.options
        })),
{
}

/// Opening an editor for a text and committing it at once writes the text that the field has.
pub proof fn law_text_is_kept(
    a: &mut App,
    b: &mut App,
    number: &str,
    first: WriteAsk,
    typed_number: Option<Single>,
    ask: WriteAsk,
    f: FieldInfoModel,
    id: u32,
)
    requires
        call_ensures(App::begin_edit, (a, number), first),
        call_ensures(App::commit_edit, (b, typed_number), ask),
        old(b)@ == final(a)@,
        old(a)@.selected() == Some(f),
        old(a)@.cur_device == Some(id),
        f.writeable,
        f.viz_type == VisualizationType::Text,
    ensures
        first is None,
        old(a)@.value_of(f.index) matches Some(BusValue::Text { sid, text }) ==> (ask matches Some((
            device,
            field,
            written,
        )) && {
            &&& device == id && field == f.index
            &&& written matches BusValue::Text { sid: now, text: says } && now == sid && says@
                == text@
        }),
{
}

/// A field that is on is turned off, and any other one of its kind is turned on.
pub proof fn law_switches_turn(
    a: &mut App,
    number: &str,
    ask: WriteAsk,
    f: FieldInfoModel,
    id: u32,
)
    requires
        call_ensures(App::begin_edit, (a, number), ask),
        old(a)@.selected() == Some(f),
        old(a)@.cur_device == Some(id),
        f.writeable,
        is_switch(f),
    ensures
        final(a)@ == old(a)@,
        old(a)@.value_of(f.index) == Some(BusValue::Boolean(true)) ==> ask == Some(
            (id, f.index, BusValue::Boolean(false)),
        ),
        old(a)@.value_of(f.index) != Some(BusValue::Boolean(true)) ==> ask == Some(
            (id, f.index, BusValue::Boolean(true)),
        ),
{
}

/// A value that was written is the one that the field has then; one that could not be
/// written changes no value.
pub proof fn law_written_value_is_shown(
    a: &mut App,
    field: u16,
    result: Result<BusValue, String>,
    other: u16,
)
    requires
        call_ensures(App::note_written, (a, field, result), ()),
    ensures
        result matches Ok(v) ==> final(a)@.value_of(field) == Some(v) && final(a)@.status
            == "set ok"@,
        result is Ok && other != field ==> final(a)@.value_of(other) == old(a)@.value_of(other),
        result matches Err(e) ==> final(a)@.values == old(a)@.values && final(a)@.status
            == "set failed: "@ + e@,
{
}

/// The mark among the devices moves as far as asked, but not beyond either end.
pub proof fn law_device_mark(a: &mut App, delta: i32)
    requires
        call_ensures(App::move_device, (a, delta), ()),
        old(a)@.device_ids.len() > 0,
    ensures
        ({
            let (n, to) = (old(a)@.device_ids.len(), old(a)@.dev_sel + delta);
            let now = final(a)@.dev_sel;
            &&& 0 <= now < n
            &&& 0 <= to < n ==> now == to
            &&& to < 0 ==> now == 0
            &&& to >= n ==> now == n - 1
        }),
        final(a)@.device_ids == old(a)@.device_ids,
{
}

/// A device that was heard is in the list, once, and the others keep their places.
pub proof fn law_heard_devices(a: &mut App, id: u32, i: int)
    requires
        call_ensures(App::note_alive, (a, id), ()),
    ensures
        final(a)@.device_ids.contains(id),
        0 <= i < old(a)@.device_ids.len() ==> final(a)@.device_ids[i] == old(a)@.device_ids[i],
        old(a)@.device_ids.no_duplicates() ==> final(a)@.device_ids.no_duplicates(),
        old(a)@.device_ids.contains(id) ==> final(a)@.device_ids == old(a)@.device_ids,
{
    let (was, now) = (old(a)@.device_ids, final(a)@.device_ids);
    if !was.contains(id) {
        assert(now[was.len() as int] == id);
    }
}

/// The prompt for an access level opens on the level that the device has, for that device,
/// and answering it at once asks the device for that level.
pub proof fn law_prompt_opens_on_the_level(
    a: &mut App,
    current: Option<AccessLevel>,
    id: u32,
)
    requires
        call_ensures(App::open_login, (a, current), ()),
        old(a)@.login_device() == Some(id),
    ensures
        final(a)@.login matches Some(p) && {
            &&& p.device == id && p.current == current && p.stage is PickLevel
            &&& 0 <= p.sel < 4
            &&& current is None ==> p.sel == 0
            &&& current matches Some(l) ==> level(p.sel) == l
        },
{
}

/// Cancelling closes the editor and changes nothing else but the line of status.
pub proof fn law_cancelling(a: &mut App)
    requires
        call_ensures(App::cancel_edit, (a,), ()),
    ensures
        final(a)@ == (AppModel { editor: None, status: "edit cancelled"@, ..old(a)@ }),
{
}

/// A name that is noted is what the device is called, and what it said of itself gives its
/// serial number.
pub proof fn law_noted_names(
    a: &mut App,
    id: u32,
    name: String,
    label: String,
    b: &App,
    c: &mut App,
    identity: DeviceIdentity,
)
    requires
        call_ensures(App::note_name, (a, id, name), ()),
        b@ == final(a)@,
        call_ensures(App::device_label, (b, id), label),
        call_ensures(App::note_identity, (c, id, identity), ()),
    ensures
        label@ == name@,
        identity.serial@.len() > 0 ==> final(c)@.serial(id) == Some(identity.serial@),
        identity.serial@.len() == 0 ==> final(c)@.serial(id) is None,
        final(c)@.names == old(c)@.names && final(a)@.idents == old(a)@.idents,
{
}

/// The log is shown and hidden in turn, where it goes to the program, and never shown where
/// it does not.
pub proof fn law_log_is_toggled(a: &mut App, b: &mut App)
    requires
        call_ensures(App::toggle_logs, (a,), ()),
        call_ensures(App::toggle_logs, (b,), ()),
        old(b)@ == final(a)@,
    ensures
        final(b)@ == old(a)@,
        old(a)@.logs_in_tui ==> final(a)@.show_logs != old(a)@.show_logs,
        !old(a)@.logs_in_tui ==> final(a)@ == old(a)@,
{
}

/// Going back to the devices leaves nothing open of the one before, and keeps what is known
/// of all devices.
pub proof fn law_going_back(a: &mut App)
    requires
        call_ensures(App::back_to_devices, (a,), ()),
    ensures
        ({
            let (was, now) = (old(a)@, final(a)@);
            &&& now.cur_device is None && now.cur_info is None && now.cur_access_level is None
            &&& now.rows.len() == 0 && now.sub is None && now.pending is None
            &&& now.loaded_menus == Set::<Menu>::empty() && !now.settings_loaded
            &&& now.focus == Focus::Devices && now.cur_tab == TabKind::Summary
            &&& now.device_ids == was.device_ids && now.dev_sel == was.dev_sel
            &&& now.names == was.names && now.idents == was.idents && now.mapping == was.mapping
        }),
{
}

/// A wait that is given up leaves the device closed.
pub proof fn law_giving_up(a: &mut App)
    requires
        call_ensures(App::cancel_pending, (a,), ()),
    ensures
        final(a)@ == (AppModel {
            pending: None,
            cur_device: None,
            focus: Focus::Devices,
            status: "discovery cancelled"@,
            ..old(a)@
        }),
{
}

/// Reading the marked field again forgets its value and asks for it.
pub proof fn law_reading_again(a: &mut App, ask: Option<(u32, u16)>, f: FieldInfoModel, id: u32)
    requires
        call_ensures(App::reread_selected, (a,), ask),
        old(a)@.selected() == Some(f),
        old(a)@.cur_device == Some(id),
    ensures
        ask == Some((id, f.index)),
        final(a)@.value_of(f.index) is None,
{
}

/// Values that come in by themselves count while they are listened for.
pub proof fn law_values_come_in(a: &mut App, updates: Vec<(u16, BusValue)>, field: u16, i: int)
    requires
        call_ensures(App::pump_subscription, (a, updates), ()),
    ensures
        old(a)@.sub is None ==> final(a)@ == old(a)@,
        old(a)@.sub is Some && 0 <= i < updates@.len() && updates@[i].0 == field && (forall|j: int|
            i < j < updates@.len() ==> (#[trigger] updates@[j]).0 != field) ==> final(a)@.value_of(
            field,
        ) == Some(updates@[i].1),
        old(a)@.sub is Some && (forall|j: int|
            0 <= j < updates@.len() ==> (#[trigger] updates@[j]).0 != field) ==> final(a)@.value_of(
            field,
        ) == old(a)@.value_of(field),
{
    law_latest_value_counts(old(a)@.values, updates@, field, i);
}

/// The next tab is the one behind and the previous tab the one before, round at both ends,
/// while nothing is waited for.
pub proof fn law_turning_tabs(a: &mut App, b: &mut App, x: TabAsk, y: TabAsk, i: int)
    requires
        call_ensures(App::next_tab, (a,), x),
        call_ensures(App::prev_tab, (b,), y),
        0 <= i < 5,
        old(a)@.cur_tab == tab(i) && old(b)@.cur_tab == tab(i),
        old(a)@.cur_device is Some && old(b)@.cur_device is Some,
    ensures
        old(a)@.pending is None ==> final(a)@.cur_tab == tab(
            if i == 4 {
                0
            } else {
                i + 1
            },
        ),
        old(b)@.pending is None ==> final(b)@.cur_tab == tab(
            if i == 0 {
                4
            } else {
                i - 1
            },
        ),
        old(a)@.pending is Some ==> final(a)@ == old(a)@ && x == TabAsk::Nothing,
        old(b)@.pending is Some ==> final(b)@ == old(b)@ && y == TabAsk::Nothing,
{
    law_tabs_are_a_ring(old(a)@, i, 1);
    law_tabs_are_a_ring(old(b)@, i, -1);
    law_switching(old(a)@, old(a)@.turned(1));
    law_switching(old(b)@, old(b)@.turned(-1));
}

/// A level that could not be asked for changes nothing but the line of status.
pub proof fn law_failed_login(
    a: &mut App,
    device: u32,
    attempted: AccessLevel,
    e: String,
    prev: Option<AccessLevel>,
    ask: TabAsk,
)
    requires
        call_ensures(
            App::apply_login_result,
            (a, device, attempted, Err::<AccessLevel, String>(e), prev),
            ask,
        ),
    ensures
        ask == TabAsk::Nothing,
        final(a)@ == (AppModel {
            status: "login on 0x"@ + hex(device as nat, 6) + " failed: "@ + e@,
            ..old(a)@
        }),
{
}

/// Committing without a number says so and writes nothing.
pub proof fn law_no_number(a: &mut App, ask: WriteAsk, e: EditorModel, buf: Seq<char>)
    requires
        call_ensures(App::commit_edit, (a, None::<Single>), ask),
        old(a)@.editor == Some(e),
        e.kind == EditKindModel::Number(buf),
    ensures
        ask is None,
        final(a)@ == (AppModel {
            editor: None,
            status: "'"@ + buf + "' is not a number"@,
            ..old(a)@
        }),
{
}

} // verus!
