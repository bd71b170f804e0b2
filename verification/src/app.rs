//! The state of the terminal program and what the keys do to it.
//!
//! The bus is asked from outside: what has to be asked is handed back by the function
//! that finds it out, and the answer is handed in to the function that needs it.

use std::collections::HashMap;
use vstd::prelude::*;
use vstd::utf8::encode_utf8;

use crate::editor::PathEditor;
use crate::panes::{
    field_rows, group_indexes, group_infos, group_rows, held, indexes, indexes_of_groups, infos,
    level, level_at, level_index, level_label, level_place, level_words, menu_label, menu_words,
    push_fields, push_indexes, row_models, rows_of_groups, tab, tab_at, tab_index, tab_place,
    AccessLevel, DeviceIdentity, EditKind, EditKindModel, Editor, EditorModel, FieldInfo,
    FieldInfoModel, Focus, GroupInfo, GroupInfoModel, IdentityModel, LoginModel, LoginPrompt,
    LoginStage, LoginStageModel, MappingSession, Menu, PathEditorModel, Pending, PendingModel, Row,
    RowModel, SessionModel, Subscribed, SubscribedModel, TabKind, ValuesModel, ValuesView,
    VisualizationType,
};
use crate::slug::{device_instance, instance_of};
use crate::text::{
    cat, cat3, decimal, decimal_text, digit, graphic, hex, hex_text, is_digit, is_graphic, trim,
    trimmed, views,
};
use crate::value::{Single, BusValue};

verus! {

broadcast use vstd::std_specs::hash::group_hash_axioms;

/// The state of the program.
pub struct App {
    pub device_ids: Vec<u32>,
    pub names: HashMap<u32, String>,
    /// The device that is marked, by its place.
    pub dev_sel: usize,
    pub focus: Focus,
    /// The device that is open.
    pub cur_device: Option<u32>,
    pub cur_info: Option<DeviceIdentity>,
    pub cur_access_level: Option<AccessLevel>,
    pub cur_tab: TabKind,
    /// The menus of the open device whose rows were found.
    pub loaded_menus: Vec<Menu>,
    pub settings_loaded: bool,
    pub rows: Vec<Row>,
    /// The row that is marked, by its place.
    pub row_sel: usize,
    /// The values of the open device that are known.
    pub values: HashMap<u16, BusValue>,
    pub sub: Option<Subscribed>,
    pub editor: Option<Editor>,
    pub values_modal: Option<ValuesView>,
    pub login: Option<LoginPrompt>,
    pub pending: Option<Pending>,
    pub tick: usize,
    pub status: String,
    pub should_quit: bool,
    pub show_logs: bool,
    /// Whether the log goes to this program.
    pub logs_in_tui: bool,
    pub idents: HashMap<u32, DeviceIdentity>,
    /// The mapping file, where it is edited.
    pub mapping: Option<MappingSession>,
    pub path_editor: Option<PathEditor>,
    /// The serial number of the open device.
    pub cur_serial: Option<String>,
    /// The instance proposed for the open device.
    pub cur_instance: String,
}

/// What the state of the program holds.
#[verifier::ext_equal]
pub struct AppModel {
    pub device_ids: Seq<u32>,
    pub names: Map<u32, Seq<char>>,
    pub dev_sel: int,
    pub focus: Focus,
    pub cur_device: Option<u32>,
    pub cur_info: Option<IdentityModel>,
    pub cur_access_level: Option<AccessLevel>,
    pub cur_tab: TabKind,
    pub loaded_menus: Set<Menu>,
    pub settings_loaded: bool,
    pub rows: Seq<RowModel>,
    pub row_sel: int,
    pub values: Map<u16, BusValue>,
    pub sub: Option<SubscribedModel>,
    pub editor: Option<EditorModel>,
    pub values_modal: Option<ValuesModel>,
    pub login: Option<LoginModel>,
    pub pending: Option<PendingModel>,
    pub tick: int,
    pub status: Seq<char>,
    pub should_quit: bool,
    pub show_logs: bool,
    pub logs_in_tui: bool,
    pub idents: Map<u32, IdentityModel>,
    pub mapping: Option<SessionModel>,
    pub path_editor: Option<PathEditorModel>,
    pub cur_serial: Option<Seq<char>>,
    pub cur_instance: Seq<char>,
}

/// What names are known.
pub open spec fn names_of(m: Map<u32, String>) -> Map<u32, Seq<char>> {
    m.map_values(|s: String| s@)
}

/// What devices said of themselves.
pub open spec fn idents_of(m: Map<u32, DeviceIdentity>) -> Map<u32, IdentityModel> {
    m.map_values(|i: DeviceIdentity| i@)
}

impl View for App {
    type V = AppModel;

    open spec fn view(&self) -> AppModel {
        AppModel {
            device_ids: self.device_ids@,
            names: names_of(self.names@),
            dev_sel: self.dev_sel as int,
            focus: self.focus,
            cur_device: self.cur_device,
            cur_info: held(self.cur_info),
            cur_access_level: self.cur_access_level,
            cur_tab: self.cur_tab,
            loaded_menus: self.loaded_menus@.to_set(),
            settings_loaded: self.settings_loaded,
            rows: row_models(self.rows@),
            row_sel: self.row_sel as int,
            values: self.values@,
            sub: held(self.sub),
            editor: held(self.editor),
            values_modal: held(self.values_modal),
            login: held(self.login),
            pending: held(self.pending),
            tick: self.tick as int,
            status: self.status@,
            should_quit: self.should_quit,
            show_logs: self.show_logs,
            logs_in_tui: self.logs_in_tui,
            idents: idents_of(self.idents@),
            mapping: held(self.mapping),
            path_editor: held(self.path_editor),
            cur_serial: held(self.cur_serial),
            cur_instance: self.cur_instance@,
        }
    }
}

/// What a tab has to be asked for.
#[derive(Debug, Clone, Copy, PartialEq, Eq, Structural)]
pub enum TabAsk {
    Nothing,
    /// What a device says of itself, and its access level.
    Summary(u32),
    /// What a device says of itself.
    Identity(u32),
    /// The groups of a menu that were found before.
    ReadMenu(u32, Menu),
    /// The fields that were found before.
    ReadSettings(u32),
    /// The groups of a menu, which takes time.
    FindMenu(u32, Menu),
    /// All fields, which takes time.
    FindSettings(u32),
}

/// What came of looking for the rows of a tab.
pub enum Found {
    /// Groups, and the name of the device where it is known.
    Groups { groups: Vec<GroupInfo>, name: Option<String> },
    /// Nothing yet.
    NotYet,
    Failed,
}

// ---- moving about ---------------------------------------------------------------------

/// A place on a ring of `n`, moved by `delta`.
pub fn wrapped(sel: usize, delta: i32, n: usize) -> (r: usize)
    requires
        n > 0,
    ensures
        r == (sel + delta) % (n as int),
        r < n,
{
    let x: i128 = sel as i128 + delta as i128;
    let m: i128 = n as i128;
    if x >= 0 {
        (x % m) as usize
    } else {
        let y: i128 = 0 - x;
        let e: i128 = y % m;
        let q: i128 = y / m;
        proof {
            vstd::arithmetic::div_mod::lemma_fundamental_div_mod(y as int, m as int);
            let (a, b) = (q as int, m as int);
            assert(y == b * a + e);
            assert(b * a == a * b) by (nonlinear_arith);
            if e == 0 {
                assert(-a * b == -(a * b)) by (nonlinear_arith);
                vstd::arithmetic::div_mod::lemma_fundamental_div_mod_converse(x as int, b, -a, 0);
            } else {
                assert((-a - 1) * b == -(a * b) - b) by (nonlinear_arith);
                vstd::arithmetic::div_mod::lemma_fundamental_div_mod_converse(
                    x as int,
                    b,
                    -a - 1,
                    b - e,
                );
            }
        }
        if e == 0 {
            0
        } else {
            (m - e) as usize
        }
    }
}

/// The first row with a field.
pub open spec fn first_field(rows: Seq<RowModel>, from: int) -> Option<int>
    decreases rows.len() - from,
{
    if from < 0 || from >= rows.len() {
        None
    } else if rows[from] is Field {
        Some(from)
    } else {
        first_field(rows, from + 1)
    }
}

/// The next row with a field, in steps of `delta`.
pub open spec fn next_field(rows: Seq<RowModel>, from: int, delta: int) -> Option<int>
    decreases (if delta > 0 { rows.len() - from } else { from }),
{
    let i = from + delta;
    if i < 0 || i >= rows.len() {
        None
    } else if rows[i] is Field {
        Some(i)
    } else if delta == 0 {
        None
    } else {
        next_field(rows, i, delta)
    }
}

impl AppModel {
    /// What a device is called: its name, or else its number.
    pub open spec fn label(self, id: u32) -> Seq<char> {
        if self.names.dom().contains(id) {
            self.names[id]
        } else {
            decimal(id as nat)
        }
    }

    /// The field that is marked.
    pub open spec fn selected(self) -> Option<FieldInfoModel> {
        if 0 <= self.row_sel < self.rows.len() {
            match self.rows[self.row_sel] {
                RowModel::Field(f) => Some(f),
                RowModel::Group(_) => None,
            }
        } else {
            None
        }
    }

    /// Whether what is marked is there: a device, a row, a level and an option.
    pub open spec fn within(self) -> bool {
        &&& self.dev_sel == 0 || 0 < self.dev_sel < self.device_ids.len()
        &&& 0 <= self.row_sel && (self.rows.len() > 0 ==> self.row_sel < self.rows.len())
        &&& self.login matches Some(p) ==> 0 <= p.sel < 4
        &&& self.editor matches Some(EditorModel {
            kind: EditKindModel::Choice { options, sel },
            ..
        }) ==> 0 <= sel && (options.len() > 0 ==> sel < options.len())
    }

    /// The value to be read: that of the marked field of an open device, unless it is
    /// known.
    pub open spec fn missing_value(self) -> Option<(u32, u16)> {
        match (self.cur_device, self.selected()) {
            (Some(id), Some(f)) => if self.values.dom().contains(f.index) {
                None
            } else {
                Some((id, f.index))
            },
            _ => None,
        }
    }

    /// With the first field marked.
    pub open spec fn first_marked(self) -> AppModel {
        match first_field(self.rows, 0) {
            Some(i) => AppModel { row_sel: i, ..self },
            None => self,
        }
    }
}

impl App {
    /// A program that was just started, with the devices that were heard so far.
    pub fn new(
        device_ids: Vec<u32>,
        names: HashMap<u32, String>,
        idents: HashMap<u32, DeviceIdentity>,
        mapping: Option<MappingSession>,
        logs_in_tui: bool,
    ) -> (a: App)
        ensures
            a@ == (AppModel {
                device_ids: device_ids@,
                names: names_of(names@),
                dev_sel: 0,
                focus: Focus::Devices,
                cur_device: None,
                cur_info: None,
                cur_access_level: None,
                cur_tab: TabKind::Summary,
                loaded_menus: Set::empty(),
                settings_loaded: false,
                rows: Seq::empty(),
                row_sel: 0,
                values: Map::empty(),
                sub: None,
                editor: None,
                values_modal: None,
                login: None,
                pending: None,
                tick: 0,
                status: if logs_in_tui {
                    "scanning bus… ↑/↓ select · Enter open · l login · ~ logs · q quit"@
                } else {
                    "scanning bus… ↑/↓ select · Enter open · l login · q quit"@
                },
                should_quit: false,
                show_logs: false,
                logs_in_tui,
                idents: idents_of(idents@),
                mapping: held(mapping),
                path_editor: None,
                cur_serial: None,
                cur_instance: Seq::empty(),
            }),
            a@.within(),
    {
        let a = App {
            device_ids,
            names,
            dev_sel: 0,
            focus: Focus::Devices,
            cur_device: None,
            cur_info: None,
            cur_access_level: None,
            cur_tab: TabKind::Summary,
            loaded_menus: Vec::new(),
            settings_loaded: false,
            rows: Vec::new(),
            row_sel: 0,
            values: HashMap::new(),
            sub: None,
            editor: None,
            values_modal: None,
            login: None,
            pending: None,
            tick: 0,
            status: if logs_in_tui {
                "scanning bus… ↑/↓ select · Enter open · l login · ~ logs · q quit".to_owned()
            } else {
                "scanning bus… ↑/↓ select · Enter open · l login · q quit".to_owned()
            },
            should_quit: false,
            show_logs: false,
            logs_in_tui,
            idents,
            mapping,
            path_editor: None,
            cur_serial: None,
            cur_instance: String::new(),
        };
        assert(a@.loaded_menus =~= Set::empty());
        assert(a@.rows =~= Seq::empty());
        assert(a@.values =~= Map::empty());
        a
    }

    /// Shows or hides the log, where it goes to this program.
    pub fn toggle_logs(&mut self)
        ensures
            final(self)@ == (AppModel {
                show_logs: if old(self)@.logs_in_tui {
                    !old(self)@.show_logs
                } else {
                    old(self)@.show_logs
                },
                ..old(self)@
            }),
    {
        if self.logs_in_tui {
            self.show_logs = !self.show_logs;
        }
    }

    pub fn quit(&mut self)
        ensures
            final(self)@ == (AppModel { should_quit: true, ..old(self)@ }),
    {
        self.should_quit = true;
    }

    // ---- the pane of devices ----------------------------------------------------------

    /// What a device is called.
    pub fn device_label(&self, id: u32) -> (s: String)
        ensures
            s@ == self@.label(id),
    {
        match self.names.get(&id) {
            Some(n) => n.clone(),
            None => decimal_text(id as u64),
        }
    }

    /// A device was heard.
    pub fn note_alive(&mut self, id: u32)
        ensures
            final(self)@ == (AppModel {
                device_ids: if old(self)@.device_ids.contains(id) {
                    old(self)@.device_ids
                } else {
                    old(self)@.device_ids.push(id)
                },
                ..old(self)@
            }),
            old(self)@.within() ==> final(self)@.within(),
    {
        let mut i: usize = 0;
        while i < self.device_ids.len()
            invariant
                i <= self.device_ids@.len(),
                *self == *old(self),
                forall|k: int| 0 <= k < i ==> self.device_ids@[k] != id,
            decreases self.device_ids@.len() - i,
        {
            if self.device_ids[i] == id {
                return;
            }
            i += 1;
        }
        self.device_ids.push(id);
    }

    /// The name of a device is known.
    pub fn note_name(&mut self, id: u32, name: String)
        ensures
            final(self)@ == (AppModel {
                names: old(self)@.names.insert(id, name@),
                ..old(self)@
            }),
    {
        let ghost before = self@.names;
        let ghost n = name@;
        self.names.insert(id, name);
        assert(self@.names =~= before.insert(id, n));
    }

    /// A device said what it is.
    pub fn note_identity(&mut self, id: u32, identity: DeviceIdentity)
        ensures
            final(self)@ == (AppModel {
                idents: old(self)@.idents.insert(id, identity@),
                ..old(self)@
            }),
    {
        let ghost before = self@.idents;
        let ghost i = identity@;
        self.idents.insert(id, identity);
        assert(self@.idents =~= before.insert(id, i));
    }

    /// Marks another device; the mark stops at the ends of the list.
    pub fn move_device(&mut self, delta: i32)
        ensures
            final(self)@ == (AppModel {
                dev_sel: if old(self)@.device_ids.len() == 0 {
                    old(self)@.dev_sel
                } else if old(self)@.dev_sel + delta < 0 {
                    0
                } else if old(self)@.dev_sel + delta >= old(self)@.device_ids.len() {
                    old(self)@.device_ids.len() - 1
                } else {
                    old(self)@.dev_sel + delta
                },
                ..old(self)@
            }),
            old(self)@.within() ==> final(self)@.within(),
    {
        let n: usize = self.device_ids.len();
        if n == 0 {
            return;
        }
        let x: i128 = self.dev_sel as i128 + delta as i128;
        self.dev_sel = if x < 0 {
            0
        } else if x >= n as i128 {
            n - 1
        } else {
            x as usize
        };
    }
}

// ---- tabs ---------------------------------------------------------------------------------

impl AppModel {
    /// With the marked device open, before it was asked for anything: its serial number and
    /// its instance are not known yet.
    pub open spec fn opened(self) -> AppModel {
        if self.dev_sel < self.device_ids.len() {
            AppModel {
                cur_device: Some(self.device_ids[self.dev_sel]),
                loaded_menus: Set::empty(),
                settings_loaded: false,
                sub: None,
                rows: Seq::empty(),
                values: Map::empty(),
                row_sel: 0,
                focus: Focus::Fields,
                cur_tab: TabKind::Summary,
                cur_serial: None,
                cur_instance: Seq::empty(),
                ..self
            }
        } else {
            self
        }
    }

    /// With the summary of the open device shown.
    pub open spec fn summarized(
        self,
        identity: Option<IdentityModel>,
        access: Option<AccessLevel>,
    ) -> AppModel {
        match self.cur_device {
            Some(id) => AppModel {
                cur_tab: TabKind::Summary,
                sub: None,
                rows: Seq::empty(),
                row_sel: 0,
                cur_info: identity,
                cur_serial: match identity {
                    Some(i) => if i.serial.len() > 0 {
                        Some(i.serial)
                    } else {
                        None
                    },
                    None => self.cur_serial,
                },
                cur_instance: match identity {
                    Some(i) => device_instance(i.name, id as nat),
                    None => self.cur_instance,
                },
                idents: match identity {
                    Some(i) => self.idents.insert(id, i),
                    None => self.idents,
                },
                cur_access_level: access,
                status: self.label(id) + " / Summary — Tab switch · Esc back"@,
                ..self
            },
            None => self,
        }
    }

    /// With the rows of a tab being looked for.
    pub open spec fn looking(self, id: u32, t: TabKind) -> AppModel {
        AppModel {
            rows: Seq::empty(),
            row_sel: 0,
            status: match t {
                TabKind::Menu(m) => "discovering "@ + self.label(id) + " / "@ + menu_words(m)
                    + "…"@,
                _ => "probing Btm3 fields of "@ + self.label(id) + "…"@,
            },
            pending: Some(PendingModel { id, tab: t, name: self.label(id) }),
            ..self
        }
    }

    /// What a tab has to be asked for.
    pub open spec fn tab_ask(self, t: TabKind) -> TabAsk {
        match (self.cur_device, t) {
            (Some(id), TabKind::Summary) => TabAsk::Summary(id),
            (Some(id), TabKind::Menu(m)) => if self.loaded_menus.contains(m) {
                TabAsk::ReadMenu(id, m)
            } else {
                TabAsk::FindMenu(id, m)
            },
            (Some(id), TabKind::Settings) => if self.settings_loaded {
                TabAsk::ReadSettings(id)
            } else {
                TabAsk::FindSettings(id)
            },
            (None, _) => TabAsk::Nothing,
        }
    }

    /// With a tab chosen.
    pub open spec fn switched(self, t: TabKind) -> AppModel {
        let m = AppModel { cur_tab: t, ..self };
        match self.tab_ask(t) {
            TabAsk::Nothing => self,
            TabAsk::FindMenu(id, _) => m.looking(id, t),
            TabAsk::FindSettings(id) => m.looking(id, t),
            _ => m,
        }
    }

    /// The tab `delta` places on.
    pub open spec fn turned(self, delta: int) -> TabKind {
        tab((tab_index(self.cur_tab) + delta) % 5)
    }

    /// Whether the tab can be changed: a device is open, and nothing is looked for.
    pub open spec fn can_turn(self) -> bool {
        self.cur_device is Some && self.pending is None
    }

    /// With rows and what they are about shown, and the first field marked.
    pub open spec fn shown(
        self,
        id: u32,
        rows: Seq<RowModel>,
        fields: Seq<u16>,
        status: Seq<char>,
    ) -> AppModel {
        let m = AppModel {
            rows,
            values: Map::empty(),
            sub: if fields.len() > 0 {
                Some(SubscribedModel { device: id, fields })
            } else {
                None
            },
            row_sel: 0,
            ..self
        };
        AppModel { status, ..m.first_marked() }
    }

    /// With the groups of a menu shown.
    pub open spec fn groups_shown(
        self,
        id: u32,
        menu: Menu,
        groups: Seq<GroupInfoModel>,
    ) -> AppModel {
        self.shown(
            id,
            group_rows(groups),
            group_indexes(groups),
            self.label(id) + " / "@ + menu_words(menu) + " — Tab switch · Enter edit · ? values"@
                + (if self.mapping is Some {
                " · + map · - unmap · a apply to article · w write"@
            } else {
                ""@
            }) + " · Esc back"@,
        )
    }

    /// With fields shown as settings.
    pub open spec fn settings_shown(self, id: u32, fields: Seq<FieldInfoModel>) -> AppModel {
        self.shown(
            id,
            field_rows(fields),
            indexes(fields),
            self.label(id) + " / Settings ("@ + decimal(fields.len())
                + " Btm3 fields) — Tab switch · Enter edit · ? values · Esc back"@,
        )
    }

    /// With what came of looking for the rows of a tab.
    pub open spec fn polled(self, found: Found) -> AppModel {
        match self.pending {
            None => self,
            Some(p) => match found {
                Found::NotYet => self,
                Found::Failed => AppModel {
                    pending: None,
                    focus: Focus::Devices,
                    status: "discovery failed"@,
                    ..self
                },
                Found::Groups { groups, name } => {
                    let gs = group_infos(groups@);
                    let m = AppModel {
                        pending: None,
                        names: match name {
                            Some(n) => self.names.insert(p.id, n@),
                            None => self.names,
                        },
                        ..self
                    };
                    m.found_shown(p.id, p.tab, gs)
                },
            },
        }
    }

    /// With the rows of a tab that were found.
    pub open spec fn found_shown(
        self,
        id: u32,
        t: TabKind,
        groups: Seq<GroupInfoModel>,
    ) -> AppModel {
        match t {
            TabKind::Menu(menu) => AppModel {
                loaded_menus: self.loaded_menus.insert(menu),
                ..self
            }.groups_shown(id, menu, groups),
            TabKind::Settings => AppModel { settings_loaded: true, ..self }.settings_shown(
                id,
                if groups.len() > 0 {
                    groups[0].fields
                } else {
                    Seq::empty()
                },
            ),
            TabKind::Summary => self,
        }
    }
}

fn is_loaded(menus: &Vec<Menu>, menu: Menu) -> (r: bool)
    ensures
        r == menus@.to_set().contains(menu),
{
    let mut i: usize = 0;
    while i < menus.len()
        invariant
            i <= menus@.len(),
            forall|k: int| 0 <= k < i ==> menus@[k] != menu,
        decreases menus@.len() - i,
    {
        if menus[i] == menu {
            assert(menus@[i as int] == menu);
            return true;
        }
        i += 1;
    }
    false
}

proof fn lemma_first_field(rows: Seq<RowModel>, from: int)
    requires
        0 <= from,
    ensures
        first_field(rows, from) matches Some(i) ==> from <= i < rows.len() && rows[i] is Field,
        first_field(rows, from) is None ==> forall|i: int|
            from <= i < rows.len() ==> !(#[trigger] rows[i] is Field),
    decreases rows.len() - from,
{
    if from < rows.len() && !(rows[from] is Field) {
        lemma_first_field(rows, from + 1);
    }
}

impl App {
    /// Opens the marked device. Says which device is to be asked for its summary.
    pub fn open_device(&mut self) -> (ask: Option<u32>)
        ensures
            final(self)@ == old(self)@.opened(),
            ask == if old(self)@.dev_sel < old(self)@.device_ids.len() {
                Some(old(self)@.device_ids[old(self)@.dev_sel])
            } else {
                None
            },
            old(self)@.within() ==> final(self)@.within(),
    {
        if self.dev_sel >= self.device_ids.len() {
            return None;
        }
        let id: u32 = self.device_ids[self.dev_sel];
        self.cur_device = Some(id);
        self.loaded_menus.clear();
        self.settings_loaded = false;
        self.sub = None;
        self.rows.clear();
        self.values.clear();
        self.row_sel = 0;
        self.focus = Focus::Fields;
        self.cur_tab = TabKind::Summary;
        self.cur_serial = None;
        self.cur_instance = String::new();
        assert(self.cur_instance@ =~= Seq::empty());
        assert(self@.loaded_menus =~= Set::empty());
        assert(self@.rows =~= Seq::empty());
        assert(self@.values =~= Map::empty());
        Some(id)
    }

    /// Shows the summary of the open device, with what it said of itself.
    pub fn enter_summary(
        &mut self,
        identity: Option<DeviceIdentity>,
        access: Option<AccessLevel>,
    )
        ensures
            final(self)@ == old(self)@.summarized(held(identity), access),
            old(self)@.within() ==> final(self)@.within(),
    {
        let id: u32 = match self.cur_device {
            Some(id) => id,
            None => {
                return;
            },
        };
        let ghost start = self@;
        let ghost said = held(identity);
        self.cur_tab = TabKind::Summary;
        self.sub = None;
        self.rows.clear();
        self.row_sel = 0;
        match &identity {
            Some(i) => {
                self.cur_serial = if i.serial.as_str().is_empty() {
                    None
                } else {
                    Some(i.serial.clone())
                };
                self.cur_instance = instance_of(i.name.as_str(), id);
                self.idents.insert(id, i.copied());
                assert(self@.idents =~= start.idents.insert(id, i@));
            },
            None => {},
        }
        self.cur_info = identity;
        self.cur_access_level = access;
        self.status = cat(
            self.device_label(id).as_str(),
            " / Summary — Tab switch · Esc back",
        );
        assert(self@.rows =~= Seq::empty());
        assert(self@ =~= start.summarized(said, access));
    }

    /// The next tab.
    pub fn next_tab(&mut self) -> (ask: TabAsk)
        ensures
            final(self)@ == if old(self)@.can_turn() {
                old(self)@.switched(old(self)@.turned(1))
            } else {
                old(self)@
            },
            ask == if old(self)@.can_turn() {
                old(self)@.tab_ask(old(self)@.turned(1))
            } else {
                TabAsk::Nothing
            },
            old(self)@.within() ==> final(self)@.within(),
    {
        self.cycle_tab(1)
    }

    /// The tab before.
    pub fn prev_tab(&mut self) -> (ask: TabAsk)
        ensures
            final(self)@ == if old(self)@.can_turn() {
                old(self)@.switched(old(self)@.turned(-1))
            } else {
                old(self)@
            },
            ask == if old(self)@.can_turn() {
                old(self)@.tab_ask(old(self)@.turned(-1))
            } else {
                TabAsk::Nothing
            },
            old(self)@.within() ==> final(self)@.within(),
    {
        self.cycle_tab(-1)
    }

    fn cycle_tab(&mut self, delta: i32) -> (ask: TabAsk)
        ensures
            final(self)@ == if old(self)@.can_turn() {
                old(self)@.switched(old(self)@.turned(delta as int))
            } else {
                old(self)@
            },
            ask == if old(self)@.can_turn() {
                old(self)@.tab_ask(old(self)@.turned(delta as int))
            } else {
                TabAsk::Nothing
            },
            old(self)@.within() ==> final(self)@.within(),
    {
        if self.cur_device.is_none() || self.pending.is_some() {
            return TabAsk::Nothing;
        }
        let next: usize = wrapped(tab_place(self.cur_tab), delta, 5);
        self.switch_tab(tab_at(next))
    }

    fn look_for(&mut self, id: u32, t: TabKind)
        ensures
            final(self)@ == old(self)@.looking(id, t),
            old(self)@.within() ==> final(self)@.within(),
    {
        let ghost start = self@;
        self.rows.clear();
        self.row_sel = 0;
        let name = self.device_label(id);
        self.status = match t {
            TabKind::Menu(m) => {
                let mut s = cat3("discovering ", name.as_str(), " / ");
                s.append(menu_label(m).as_str());
                s.append("…");
                s
            },
            _ => cat3("probing Btm3 fields of ", name.as_str(), "…"),
        };
        self.pending = Some(Pending { id, tab: t, name });
        assert(self@.rows =~= Seq::empty());
        assert(self@ =~= start.looking(id, t));
    }

    /// Chooses a tab of the open device. Says what has to be asked for.
    pub fn switch_tab(&mut self, t: TabKind) -> (ask: TabAsk)
        ensures
            final(self)@ == old(self)@.switched(t),
            ask == old(self)@.tab_ask(t),
            old(self)@.within() ==> final(self)@.within(),
    {
        let id: u32 = match self.cur_device {
            Some(id) => id,
            None => {
                return TabAsk::Nothing;
            },
        };
        self.cur_tab = t;
        match t {
            TabKind::Summary => TabAsk::Summary(id),
            TabKind::Menu(m) => {
                if is_loaded(&self.loaded_menus, m) {
                    TabAsk::ReadMenu(id, m)
                } else {
                    self.look_for(id, t);
                    TabAsk::FindMenu(id, m)
                }
            },
            TabKind::Settings => {
                if self.settings_loaded {
                    TabAsk::ReadSettings(id)
                } else {
                    self.look_for(id, t);
                    TabAsk::FindSettings(id)
                }
            },
        }
    }

    /// Whether the rows of a tab are being looked for.
    pub fn discovering(&self) -> (r: bool)
        ensures
            r == self@.pending is Some,
    {
        self.pending.is_some()
    }

    /// The device and the tab whose rows are being looked for.
    pub fn pending_info(&self) -> (r: Option<(&str, TabKind)>)
        ensures
            match r {
                Some((n, t)) => self@.pending matches Some(p) && p.name == n@ && p.tab == t,
                None => self@.pending is None,
            },
    {
        match &self.pending {
            Some(p) => Some((p.name.as_str(), p.tab)),
            None => None,
        }
    }

    fn note_menu(&mut self, m: Menu)
        ensures
            final(self)@ == (AppModel {
                loaded_menus: old(self)@.loaded_menus.insert(m),
                ..old(self)@
            }),
    {
        let ghost menus = self.loaded_menus@;
        if !is_loaded(&self.loaded_menus, m) {
            self.loaded_menus.push(m);
            proof {
                let now = self.loaded_menus@;
                assert(now[menus.len() as int] == m);
                assert forall|x: Menu| menus.contains(x) implies now.contains(x) by {
                    let j = menus.index_of(x);
                    assert(now[j] == x);
                }
                assert(now.to_set() =~= menus.to_set().insert(m));
            }
        } else {
            assert(menus.to_set() =~= menus.to_set().insert(m));
        }
    }

    fn show_found(&mut self, id: u32, t: TabKind, groups: &Vec<GroupInfo>)
        ensures
            final(self)@ == old(self)@.found_shown(id, t, group_infos(groups@)),
            old(self)@.within() ==> final(self)@.within(),
    {
        match t {
            TabKind::Menu(m) => {
                self.note_menu(m);
                self.show_groups(id, m, groups);
            },
            TabKind::Settings => {
                self.settings_loaded = true;
                if groups.len() > 0 {
                    assert(group_infos(groups@)[0] == groups@[0]@);
                    self.show_settings(id, &groups[0].fields);
                } else {
                    let none: Vec<FieldInfo> = Vec::new();
                    assert(infos(none@) =~= Seq::empty());
                    self.show_settings(id, &none);
                }
            },
            TabKind::Summary => {},
        }
    }

    /// Takes in what came of looking for the rows of a tab. Says which value has to be
    /// read.
    pub fn poll_pending(&mut self, found: Found) -> (ask: Option<(u32, u16)>)
        ensures
            final(self)@ == old(self)@.polled(found),
            ask == if old(self)@.pending is Some && found is Groups {
                final(self)@.missing_value()
            } else {
                None
            },
            old(self)@.within() ==> final(self)@.within(),
    {
        let (id, t) = match &self.pending {
            Some(p) => (p.id, p.tab),
            None => {
                return None;
            },
        };
        match found {
            Found::NotYet => None,
            Found::Failed => {
                self.pending = None;
                self.focus = Focus::Devices;
                self.status = "discovery failed".to_owned();
                None
            },
            Found::Groups { groups, name } => {
                self.pending = None;
                match name {
                    Some(n) => {
                        self.note_name(id, n);
                    },
                    None => {},
                }
                self.show_found(id, t, &groups);
                self.to_read()
            },
        }
    }

    /// Gives up looking for the rows of a tab.
    pub fn cancel_pending(&mut self)
        ensures
            final(self)@ == (AppModel {
                pending: None,
                cur_device: None,
                focus: Focus::Devices,
                status: "discovery cancelled"@,
                ..old(self)@
            }),
            old(self)@.within() ==> final(self)@.within(),
    {
        self.pending = None;
        self.cur_device = None;
        self.focus = Focus::Devices;
        self.status = "discovery cancelled".to_owned();
    }

    fn show(&mut self, id: u32, rows: Vec<Row>, fields: Vec<u16>, status: String)
        ensures
            final(self)@ == old(self)@.shown(id, row_models(rows@), fields@, status@),
            old(self)@.within() ==> final(self)@.within(),
    {
        let ghost start = self@;
        let ghost rm = row_models(rows@);
        let ghost fm = fields@;
        self.rows = rows;
        self.values.clear();
        self.sub = if fields.len() > 0 {
            Some(Subscribed { device: id, fields })
        } else {
            None
        };
        self.row_sel = 0;
        assert(self@.values =~= Map::empty());
        self.select_first_field();
        self.status = status;
        assert(self@ =~= start.shown(id, rm, fm, status@));
    }

    /// Shows the groups of a menu.
    pub fn show_groups(&mut self, id: u32, menu: Menu, groups: &Vec<GroupInfo>)
        ensures
            final(self)@ == old(self)@.groups_shown(id, menu, group_infos(groups@)),
            old(self)@.within() ==> final(self)@.within(),
    {
        let mut status = cat3(
            self.device_label(id).as_str(),
            " / ",
            menu_label(menu).as_str(),
        );
        status.append(" — Tab switch · Enter edit · ? values");
        status.append(
            if self.mapping.is_some() {
                " · + map · - unmap · a apply to article · w write"
            } else {
                ""
            },
        );
        status.append(" · Esc back");
        self.show(id, rows_of_groups(groups), indexes_of_groups(groups), status);
    }

    /// Shows fields as settings.
    pub fn show_settings(&mut self, id: u32, fields: &Vec<FieldInfo>)
        ensures
            final(self)@ == old(self)@.settings_shown(id, infos(fields@)),
            old(self)@.within() ==> final(self)@.within(),
    {
        let mut rows: Vec<Row> = Vec::new();
        let mut ids: Vec<u16> = Vec::new();
        let ghost m = infos(fields@);
        push_fields(&mut rows, fields);
        assert(row_models(rows@) =~= field_rows(m));
        push_indexes(&mut ids, fields);
        assert(ids@ =~= indexes(m));
        let mut status = cat3(
            self.device_label(id).as_str(),
            " / Settings (",
            decimal_text(fields.len() as u64).as_str(),
        );
        status.append(" Btm3 fields) — Tab switch · Enter edit · ? values · Esc back");
        self.show(id, rows, ids, status);
    }

    /// Leaves the open device.
    pub fn back_to_devices(&mut self)
        ensures
            final(self)@ == (AppModel {
                focus: Focus::Devices,
                sub: None,
                pending: None,
                rows: Seq::empty(),
                loaded_menus: Set::empty(),
                settings_loaded: false,
                cur_tab: TabKind::Summary,
                cur_info: None,
                cur_access_level: None,
                cur_device: None,
                status: "↑/↓ select · Enter open · q quit"@,
                ..old(self)@
            }),
            old(self)@.within() ==> final(self)@.within(),
    {
        self.focus = Focus::Devices;
        self.sub = None;
        self.pending = None;
        self.rows.clear();
        self.loaded_menus.clear();
        self.settings_loaded = false;
        self.cur_tab = TabKind::Summary;
        self.cur_info = None;
        self.cur_access_level = None;
        self.cur_device = None;
        self.status = "↑/↓ select · Enter open · q quit".to_owned();
        assert(self@.loaded_menus =~= Set::empty());
        assert(self@.rows =~= Seq::empty());
    }

    // ---- the pane of fields -------------------------------------------------------------

    fn select_first_field(&mut self)
        ensures
            final(self)@ == old(self)@.first_marked(),
            old(self)@.within() ==> final(self)@.within(),
    {
        let ghost rows = self@.rows;
        let mut i: usize = 0;
        proof {
            lemma_first_field(rows, 0);
        }
        while i < self.rows.len()
            invariant
                i <= self.rows@.len(),
                *self == *old(self),
                rows == row_models(self.rows@),
                first_field(rows, 0) == first_field(rows, i as int),
            decreases self.rows@.len() - i,
        {
            assert(rows[i as int] == self.rows@[i as int]@);
            let is_field: bool = match &self.rows[i] {
                Row::Field(_) => true,
                Row::Group(_) => false,
            };
            if is_field {
                self.row_sel = i;
                return;
            }
            i += 1;
        }
    }

    /// The value that has to be read: that of the marked field, unless it is known.
    pub fn to_read(&self) -> (ask: Option<(u32, u16)>)
        ensures
            ask == self@.missing_value(),
    {
        match (self.cur_device, self.selected_field()) {
            (Some(id), Some(f)) => {
                if self.values.contains_key(&f.index) {
                    None
                } else {
                    Some((id, f.index))
                }
            },
            _ => None,
        }
    }

    /// The field that is marked.
    pub fn selected_field(&self) -> (r: Option<&FieldInfo>)
        ensures
            match r {
                Some(f) => self@.selected() == Some(f@),
                None => self@.selected() is None,
            },
    {
        if self.row_sel >= self.rows.len() {
            return None;
        }
        assert(self@.rows[self.row_sel as int] == self.rows@[self.row_sel as int]@);
        match &self.rows[self.row_sel] {
            Row::Field(f) => Some(f),
            Row::Group(_) => None,
        }
    }

    /// Marks the next field in steps of `delta`, where there is one. Says which value has
    /// to be read.
    pub fn move_row(&mut self, delta: i32) -> (ask: Option<(u32, u16)>)
        requires
            delta != 0 || old(self)@.row_sel >= old(self)@.rows.len() || old(self)@.selected()
                is Some,
        ensures
            ({
                let m = old(self)@;
                match next_field(m.rows, m.row_sel, delta as int) {
                    Some(i) => {
                        &&& final(self)@ == (AppModel { row_sel: i, ..m })
                        &&& ask == final(self)@.missing_value()
                    },
                    None => final(self)@ == m && ask is None,
                }
            }),
            old(self)@.within() ==> final(self)@.within(),
    {
        let ghost m = self@;
        let count: usize = self.rows.len();
        let n: i128 = count as i128;
        let d: i128 = delta as i128;
        let mut i: i128 = self.row_sel as i128;
        loop
            invariant
                *self == *old(self),
                m == self@,
                n == count && count == self.rows@.len(),
                d == delta,
                0 <= i <= usize::MAX,
                d == 0 ==> i == m.row_sel && (i >= n || m.rows[i as int] is Field),
                next_field(m.rows, m.row_sel, d as int) == next_field(m.rows, i as int, d as int),
            decreases (if d > 0 { n - i } else { i as int }),
        {
            let next: i128 = i + d;
            if next < 0 || next >= n {
                return None;
            }
            assert(m.rows[next as int] == self.rows@[next as int]@);
            let is_field: bool = match &self.rows[next as usize] {
                Row::Field(_) => true,
                Row::Group(_) => false,
            };
            if is_field {
                self.row_sel = next as usize;
                return self.to_read();
            }
            i = next;
        }
    }

    /// A value was read.
    pub fn note_value(&mut self, field: u16, value: BusValue)
        ensures
            final(self)@ == (AppModel {
                values: old(self)@.values.insert(field, value),
                ..old(self)@
            }),
            old(self)@.within() ==> final(self)@.within(),
    {
        self.values.insert(field, value);
    }

    /// Forgets the value of the marked field. Says that it has to be read.
    pub fn reread_selected(&mut self) -> (ask: Option<(u32, u16)>)
        ensures
            match old(self)@.selected() {
                Some(f) => {
                    &&& final(self)@ == (AppModel {
                        values: old(self)@.values.remove(f.index),
                        status: "re-read"@,
                        ..old(self)@
                    })
                    &&& ask == final(self)@.missing_value()
                },
                None => final(self)@ == old(self)@ && ask is None,
            },
            old(self)@.within() ==> final(self)@.within(),
    {
        let index: u16 = match self.selected_field() {
            Some(f) => f.index,
            None => {
                return None;
            },
        };
        self.values.remove(&index);
        self.status = "re-read".to_owned();
        self.to_read()
    }

    /// Takes in values that came in by themselves, where any are waited for.
    pub fn pump_subscription(&mut self, updates: Vec<(u16, BusValue)>)
        ensures
            final(self)@ == (AppModel {
                values: if old(self)@.sub is Some {
                    with_values(old(self)@.values, updates@)
                } else {
                    old(self)@.values
                },
                ..old(self)@
            }),
            old(self)@.within() ==> final(self)@.within(),
    {
        if self.sub.is_none() {
            return;
        }
        let ghost start = self@;
        let ghost all = updates@;
        let mut rest = updates;
        assert(all.skip(0) =~= all);
        assert(with_values(start.values, all.take(0)) =~= start.values);
        let ghost mut done: int = 0;
        while rest.len() > 0
            invariant
                0 <= done <= all.len(),
                rest@ == all.skip(done),
                self@ == (AppModel {
                    values: with_values(start.values, all.take(done)),
                    ..start
                }),
            decreases rest@.len(),
        {
            let (f, v) = rest.remove(0);
            proof {
                let next = all.take(done + 1);
                assert(next.drop_last() =~= all.take(done));
                assert(next.last() == all[done]);
                assert(all.skip(done)[0] == all[done]);
                assert(all.skip(done).remove(0) =~= all.skip(done + 1));
            }
            self.values.insert(f, v);
            proof {
                done = done + 1;
            }
        }
        assert(all.take(done) =~= all);
    }
}

/// Values with later ones.
pub open spec fn with_values(values: Map<u16, BusValue>, updates: Seq<(u16, BusValue)>) -> Map<
    u16,
    BusValue,
>
    decreases updates.len(),
{
    if updates.len() == 0 {
        values
    } else {
        with_values(values, updates.drop_last()).insert(updates.last().0, updates.last().1)
    }
}

/// Going to the next tab and back again ends at the same tab, for a tab that is shown.
pub proof fn law_tabs_turn_back(m: AppModel)
    requires
        exists|i: int| 0 <= i < 5 && m.cur_tab == #[trigger] tab(i),
    ensures
        ({
            let next = AppModel { cur_tab: m.turned(1), ..m };
            &&& next.turned(-1) == m.cur_tab
            &&& exists|i: int| 0 <= i < 5 && next.cur_tab == #[trigger] tab(i)
        }),
{
    let i = choose|i: int| 0 <= i < 5 && m.cur_tab == #[trigger] tab(i);
    assert(m.turned(1) == tab((i + 1) % 5));
}

/// Only fields are marked once rows are shown, where there is a field among them.
pub proof fn law_a_field_is_marked(
    m: AppModel,
    id: u32,
    rows: Seq<RowModel>,
    fields: Seq<u16>,
    status: Seq<char>,
)
    requires
        exists|i: int| 0 <= i < rows.len() && #[trigger] rows[i] is Field,
    ensures
        m.shown(id, rows, fields, status).selected() is Some,
{
    lemma_first_field(rows, 0);
}

// ---- editing values -----------------------------------------------------------------------

/// How many bytes a text that is edited may have.
pub const MAX_EDITABLE_TEXT_BYTES: usize = 16;

/// The option that a value stands for, among `n`.
pub open spec fn marked_option(value: Option<BusValue>, n: int) -> int {
    match value {
        Some(BusValue::List { index, .. }) => if 0 <= index < n {
            index as int
        } else if n > 0 {
            n - 1
        } else {
            0
        },
        _ => 0,
    }
}

/// An editor after a character was typed: numbers are digits, `.` and `-`, and texts
/// are characters that can be printed, as long as there is room.
pub open spec fn typed(kind: EditKindModel, c: char) -> EditKindModel {
    match kind {
        EditKindModel::Number(s) => if is_digit(c) || c == '.' || c == '-' {
            EditKindModel::Number(s.push(c))
        } else {
            kind
        },
        EditKindModel::Text { str_id, buf } => if (is_graphic(c) || c == ' ') && (encode_utf8(
            buf,
        ).len() as usize) < MAX_EDITABLE_TEXT_BYTES {
            EditKindModel::Text { str_id, buf: buf.push(c) }
        } else {
            kind
        },
        EditKindModel::Choice { .. } => kind,
    }
}

/// A text without its last character.
pub open spec fn shortened(s: Seq<char>) -> Seq<char> {
    if s.len() > 0 {
        s.drop_last()
    } else {
        s
    }
}

/// An editor after its last character was taken back.
pub open spec fn untyped(kind: EditKindModel) -> EditKindModel {
    match kind {
        EditKindModel::Number(s) => EditKindModel::Number(shortened(s)),
        EditKindModel::Text { str_id, buf } => EditKindModel::Text { str_id, buf: shortened(buf) },
        EditKindModel::Choice { .. } => kind,
    }
}

/// An editor after another option was marked; the options are a ring.
pub open spec fn turned_choice(kind: EditKindModel, delta: int) -> EditKindModel {
    match kind {
        EditKindModel::Choice { options, sel } => if options.len() > 0 {
            EditKindModel::Choice { options, sel: (sel + delta) % (options.len() as int) }
        } else {
            kind
        },
        _ => kind,
    }
}

impl AppModel {
    /// The value of a field, if it is known.
    pub open spec fn value_of(self, field: u16) -> Option<BusValue> {
        if self.values.dom().contains(field) {
            Some(self.values[field])
        } else {
            None
        }
    }

    /// With an editor for the marked field, where the field has one; `number` is what is
    /// shown of a number.
    pub open spec fn edit_begun(self, number: Seq<char>) -> AppModel {
        match self.selected() {
            None => self,
            Some(f) => if !f.writeable {
                AppModel { status: f.name + " is read-only"@, ..self }
            } else {
                let edit = |kind: EditKindModel|
                    AppModel {
                        editor: Some(EditorModel { field: f.index, name: f.name, kind }),
                        ..self
                    };
                match f.viz_type {
                    VisualizationType::CheckBox => self,
                    VisualizationType::ToggleButton => self,
                    VisualizationType::PushButton => self,
                    VisualizationType::Float => edit(
                        EditKindModel::Number(
                            if self.value_of(f.index) matches Some(BusValue::Float(x)) && !x.nan() {
                                number
                            } else {
                                Seq::empty()
                            },
                        ),
                    ),
                    VisualizationType::Radio => edit(
                        EditKindModel::Choice {
                            options: f.options,
                            sel: marked_option(self.value_of(f.index), f.options.len() as int),
                        },
                    ),
                    VisualizationType::DropDown => edit(
                        EditKindModel::Choice {
                            options: f.options,
                            sel: marked_option(self.value_of(f.index), f.options.len() as int),
                        },
                    ),
                    VisualizationType::Text => match self.value_of(f.index) {
                        Some(BusValue::Text { sid, text }) => edit(
                            EditKindModel::Text { str_id: sid, buf: text@ },
                        ),
                        _ => AppModel { status: f.name + ": value not loaded yet"@, ..self },
                    },
                    VisualizationType::Other => AppModel {
                        status: f.name + ": not editable in this demo"@,
                        ..self
                    },
                }
            },
        }
    }

    /// Whether the marked field is turned round at once.
    pub open spec fn toggles(self) -> bool {
        self.selected() matches Some(f) && f.writeable && (f.viz_type
            == VisualizationType::CheckBox || f.viz_type == VisualizationType::ToggleButton
            || f.viz_type == VisualizationType::PushButton)
    }

    /// With the values that the marked field can have shown.
    pub open spec fn values_opened(self) -> AppModel {
        match self.selected() {
            None => self,
            Some(f) => if f.options.len() == 0 {
                AppModel { status: f.name + ": no list values to show"@, ..self }
            } else {
                AppModel {
                    values_modal: Some(
                        ValuesModel {
                            field_name: f.name,
                            options: f.options,
                            current: match self.value_of(f.index) {
                                Some(BusValue::List { index, .. }) => Some(index),
                                Some(BusValue::Eventable { index, .. }) => Some(index),
                                _ => None,
                            },
                        },
                    ),
                    ..self
                }
            },
        }
    }

    /// With another kind of editor in the place of the one that is open.
    pub open spec fn with_kind(self, change: spec_fn(EditKindModel) -> EditKindModel) -> AppModel {
        match self.editor {
            Some(e) => AppModel {
                editor: Some(EditorModel { kind: change(e.kind), ..e }),
                ..self
            },
            None => self,
        }
    }
}

/// A value that is to be written: device, field and value.
pub type WriteAsk = Option<(u32, u16, BusValue)>;

/// Whether a value is to be written as an editor holds it. Nothing is written while no
/// device is open.
pub open spec fn writes(
    ask: WriteAsk,
    device: Option<u32>,
    e: EditorModel,
    number: Option<Single>,
) -> bool {
    match device {
        None => ask is None,
        Some(id) => match e.kind {
            EditKindModel::Number(_) => match number {
                Some(x) => ask == Some((id, e.field, BusValue::Float(x))),
                None => ask is None,
            },
            EditKindModel::Choice { options, sel } => ask matches Some((
                d,
                f,
                BusValue::List { index, options: own },
            )) && d == id && f == e.field && views(own@) == options && index == (
            sel as usize) as i32,
            EditKindModel::Text { str_id, buf } => ask matches Some((
                d,
                f,
                BusValue::Text { sid, text },
            )) && d == id && f == e.field && sid == str_id && text@ == buf,
        },
    }
}

impl App {
    /// The number that the marked field has, which is what has to be shown of it.
    pub fn selected_number(&self) -> (r: Option<Single>)
        ensures
            r == match self@.selected() {
                Some(f) => match self@.value_of(f.index) {
                    Some(BusValue::Float(x)) => Some(x),
                    _ => None,
                },
                None => None,
            },
    {
        match self.selected_field() {
            Some(f) => match self.values.get(&f.index) {
                Some(BusValue::Float(x)) => Some(*x),
                _ => None,
            },
            None => None,
        }
    }

    fn ask_write(&self, field: u16, value: BusValue) -> (ask: WriteAsk)
        ensures
            ask == match self@.cur_device {
                Some(id) => Some((id, field, value)),
                None => None,
            },
    {
        match self.cur_device {
            Some(id) => Some((id, field, value)),
            None => None,
        }
    }

    /// Opens an editor for the marked field; `number` is what is shown of a number. A
    /// field that is on or off is turned round at once: the value to be written is
    /// handed back.
    pub fn begin_edit(&mut self, number: &str) -> (ask: WriteAsk)
        ensures
            final(self)@ == old(self)@.edit_begun(number@),
            ask == if old(self)@.toggles() && old(self)@.cur_device is Some {
                let f = old(self)@.selected()->0;
                Some(
                    (
                        old(self)@.cur_device->0,
                        f.index,
                        BusValue::Boolean(
                            old(self)@.value_of(f.index) != Some(BusValue::Boolean(true)),
                        ),
                    ),
                )
            } else {
                None
            },
            old(self)@.within() ==> final(self)@.within(),
    {
        let ghost start = self@;
        let info = match self.selected_field() {
            Some(f) => f.copied(),
            None => {
                return None;
            },
        };
        if !info.writeable {
            self.status = cat(info.name.as_str(), " is read-only");
            return None;
        }
        match info.viz_type {
            VisualizationType::CheckBox
            | VisualizationType::ToggleButton
            | VisualizationType::PushButton => {
                let on: bool = match self.values.get(&info.index) {
                    Some(BusValue::Boolean(b)) => *b,
                    _ => false,
                };
                self.ask_write(info.index, BusValue::Boolean(!on))
            },
            VisualizationType::Float => {
                let shown: bool = match self.values.get(&info.index) {
                    Some(BusValue::Float(x)) => !x.is_nan(),
                    _ => false,
                };
                let cur = if shown {
                    number.to_owned()
                } else {
                    String::new()
                };
                self.editor = Some(
                    Editor { field: info.index, name: info.name, kind: EditKind::Number(cur) },
                );
                None
            },
            VisualizationType::Radio | VisualizationType::DropDown => {
                let n: usize = info.options.len();
                let sel: usize = match self.values.get(&info.index) {
                    Some(BusValue::List { index, .. }) => {
                        if *index >= 0 && (*index as usize) < n {
                            *index as usize
                        } else if n > 0 {
                            n - 1
                        } else {
                            0
                        }
                    },
                    _ => 0,
                };
                assert(views(info.options@).len() == n);
                self.editor = Some(
                    Editor {
                        field: info.index,
                        name: info.name,
                        kind: EditKind::Choice { options: info.options, sel },
                    },
                );
                None
            },
            VisualizationType::Text => {
                let held_text: Option<(u16, String)> = match self.values.get(&info.index) {
                    Some(BusValue::Text { sid, text }) => Some((*sid, text.clone())),
                    _ => None,
                };
                match held_text {
                    Some((str_id, buf)) => {
                        self.editor = Some(
                            Editor {
                                field: info.index,
                                name: info.name,
                                kind: EditKind::Text { str_id, buf },
                            },
                        );
                    },
                    None => {
                        self.status = cat(info.name.as_str(), ": value not loaded yet");
                    },
                }
                None
            },
            VisualizationType::Other => {
                self.status = cat(info.name.as_str(), ": not editable in this demo");
                None
            },
        }
    }

    pub fn cancel_edit(&mut self)
        ensures
            final(self)@ == (AppModel {
                editor: None,
                status: "edit cancelled"@,
                ..old(self)@
            }),
            old(self)@.within() ==> final(self)@.within(),
    {
        self.editor = None;
        self.status = "edit cancelled".to_owned();
    }

    /// Shows the values that the marked field can have.
    pub fn open_values(&mut self)
        ensures
            final(self)@ == old(self)@.values_opened(),
            old(self)@.within() ==> final(self)@.within(),
    {
        let info = match self.selected_field() {
            Some(f) => f.copied(),
            None => {
                return;
            },
        };
        assert(views(info.options@).len() == info.options@.len());
        if info.options.len() == 0 {
            self.status = cat(info.name.as_str(), ": no list values to show");
            return;
        }
        let current: Option<i32> = match self.values.get(&info.index) {
            Some(BusValue::List { index, .. }) => Some(*index),
            Some(BusValue::Eventable { index, .. }) => Some(*index),
            _ => None,
        };
        self.values_modal = Some(
            ValuesView { field_name: info.name, options: info.options, current },
        );
    }

    pub fn close_values(&mut self)
        ensures
            final(self)@ == (AppModel { values_modal: None, ..old(self)@ }),
    {
        self.values_modal = None;
    }

    pub fn values_open(&self) -> (r: bool)
        ensures
            r == self@.values_modal is Some,
    {
        self.values_modal.is_some()
    }

    /// The number that is being typed, but for white space around it.
    pub fn typed_number(&self) -> (r: Option<String>)
        ensures
            match r {
                Some(s) => self@.editor matches Some(EditorModel {
                    kind: EditKindModel::Number(buf),
                    ..
                }) && s@ == trimmed(buf),
                None => !(self@.editor matches Some(EditorModel {
                    kind: EditKindModel::Number(buf),
                    ..
                })),
            },
    {
        match &self.editor {
            Some(e) => match &e.kind {
                EditKind::Number(buf) => Some(trim(buf.as_str()).to_owned()),
                _ => None,
            },
            None => None,
        }
    }

    /// Closes the editor. The value to be written is handed back; `number` is what was
    /// read from a number as typed.
    pub fn commit_edit(&mut self, number: Option<Single>) -> (ask: WriteAsk)
        ensures
            match old(self)@.editor {
                None => final(self)@ == old(self)@ && ask is None,
                Some(e) => {
                    &&& final(self)@ == (AppModel {
                        editor: None,
                        status: if e.kind is Number && number is None {
                            "'"@ + e.kind->Number_0 + "' is not a number"@
                        } else {
                            old(self)@.status
                        },
                        ..old(self)@
                    })
                    &&& writes(ask, old(self)@.cur_device, e, number)
                },
            },
            old(self)@.within() ==> final(self)@.within(),
    {
        let ed = match self.editor.take() {
            Some(e) => e,
            None => {
                return None;
            },
        };
        match ed.kind {
            EditKind::Number(buf) => match number {
                Some(x) => self.ask_write(ed.field, BusValue::Float(x)),
                None => {
                    self.status = cat3("'", buf.as_str(), "' is not a number");
                    None
                },
            },
            EditKind::Choice { options, sel } => self.ask_write(
                ed.field,
                BusValue::List { index: sel as i32, options },
            ),
            EditKind::Text { str_id, buf } => self.ask_write(
                ed.field,
                BusValue::Text { sid: str_id, text: buf },
            ),
        }
    }

    /// A character was typed into the editor.
    pub fn editor_char(&mut self, c: char)
        ensures
            final(self)@ == old(self)@.with_kind(|k: EditKindModel| typed(k, c)),
            old(self)@.within() ==> final(self)@.within(),
    {
        let Editor { field, name, kind } = match self.editor.take() {
            Some(e) => e,
            None => {
                return;
            },
        };
        let kind = match kind {
            EditKind::Number(s) => {
                let mut s = s;
                if digit(c) || c == '.' || c == '-' {
                    s.push(c);
                }
                EditKind::Number(s)
            },
            EditKind::Text { str_id, buf } => {
                let mut buf = buf;
                if (graphic(c) || c == ' ') && buf.as_str().len() < MAX_EDITABLE_TEXT_BYTES {
                    buf.push(c);
                }
                EditKind::Text { str_id, buf }
            },
            EditKind::Choice { options, sel } => EditKind::Choice { options, sel },
        };
        self.editor = Some(Editor { field, name, kind });
    }

    /// The last character in the editor is taken back.
    pub fn editor_backspace(&mut self)
        ensures
            final(self)@ == old(self)@.with_kind(|k: EditKindModel| untyped(k)),
            old(self)@.within() ==> final(self)@.within(),
    {
        let Editor { field, name, kind } = match self.editor.take() {
            Some(e) => e,
            None => {
                return;
            },
        };
        let kind = match kind {
            EditKind::Number(s) => {
                let mut s = s;
                s.pop();
                EditKind::Number(s)
            },
            EditKind::Text { str_id, buf } => {
                let mut buf = buf;
                buf.pop();
                EditKind::Text { str_id, buf }
            },
            EditKind::Choice { options, sel } => EditKind::Choice { options, sel },
        };
        self.editor = Some(Editor { field, name, kind });
    }

    /// Marks another option in the editor.
    pub fn editor_choice_move(&mut self, delta: i32)
        ensures
            final(self)@ == old(self)@.with_kind(
                |k: EditKindModel| turned_choice(k, delta as int),
            ),
            old(self)@.within() ==> final(self)@.within(),
    {
        let Editor { field, name, kind } = match self.editor.take() {
            Some(e) => e,
            None => {
                return;
            },
        };
        let kind = match kind {
            EditKind::Choice { options, sel } => {
                assert(views(options@).len() == options@.len());
                if options.len() == 0 {
                    EditKind::Choice { options, sel }
                } else {
                    let n: usize = options.len();
                    EditKind::Choice { options, sel: wrapped(sel, delta, n) }
                }
            },
            other => other,
        };
        self.editor = Some(Editor { field, name, kind });
    }

    /// A value was written, or could not be.
    pub fn note_written(&mut self, field: u16, result: Result<BusValue, String>)
        ensures
            final(self)@ == match result {
                Ok(v) => AppModel {
                    values: old(self)@.values.insert(field, v),
                    status: "set ok"@,
                    ..old(self)@
                },
                Err(e) => AppModel { status: "set failed: "@ + e@, ..old(self)@ },
            },
            old(self)@.within() ==> final(self)@.within(),
    {
        match result {
            Ok(v) => {
                self.values.insert(field, v);
                self.status = "set ok".to_owned();
            },
            Err(e) => {
                self.status = cat("set failed: ", e.as_str());
            },
        }
    }

    pub fn editing(&self) -> (r: bool)
        ensures
            r == self@.editor is Some,
    {
        self.editor.is_some()
    }
}

/// A text that fits keeps fitting, whatever is typed.
pub proof fn law_typed_text_fits(kind: EditKindModel, c: char)
    requires
        kind matches EditKindModel::Text { buf, .. } && vstd::utf8::is_ascii_chars(buf)
            && buf.len() <= MAX_EDITABLE_TEXT_BYTES,
    ensures
        typed(kind, c) matches EditKindModel::Text { buf, .. } && vstd::utf8::is_ascii_chars(buf)
            && buf.len() <= MAX_EDITABLE_TEXT_BYTES,
{
    let buf = kind->buf;
    vstd::utf8::is_ascii_chars_encode_utf8(buf);
    let all = buf.push(c);
    if is_graphic(c) || c == ' ' {
        assert forall|i: int| 0 <= i < all.len() implies '\0' <= #[trigger] all[i] <= '\u{7f}' by {
            if i < buf.len() {
                assert(all[i] == buf[i]);
            }
        }
    }
}

/// Taking back what was typed gives what was there before.
pub proof fn law_backspace_undoes_typing(kind: EditKindModel, c: char)
    requires
        typed(kind, c) != kind,
    ensures
        untyped(typed(kind, c)) == kind,
{
    match kind {
        EditKindModel::Number(s) => {
            assert(s.push(c).drop_last() =~= s);
        },
        EditKindModel::Text { buf, .. } => {
            assert(buf.push(c).drop_last() =~= buf);
        },
        EditKindModel::Choice { .. } => {},
    }
}

// ---- access levels ------------------------------------------------------------------------

/// What a device has to be asked for when the prompt for an access level is answered.
pub enum LoginAsk {
    Nothing,
    /// The access level of an end user.
    Logout { device: u32, prev: Option<AccessLevel> },
    /// A level with a password, as typed; what is no number counts as zero.
    Login { device: u32, level: AccessLevel, password: String, prev: Option<AccessLevel> },
}

/// A prompt after another level was marked; the levels are a ring.
pub open spec fn turned_level(p: LoginModel, delta: int) -> LoginModel {
    if p.stage is PickLevel {
        LoginModel { sel: (p.sel + delta) % 4, ..p }
    } else {
        p
    }
}

/// A prompt after a character was typed into a password.
pub open spec fn typed_password(p: LoginModel, c: char) -> LoginModel {
    match p.stage {
        LoginStageModel::EnterPassword { level, buf } => if is_graphic(c) {
            LoginModel {
                stage: LoginStageModel::EnterPassword { level, buf: buf.push(c) },
                ..p
            }
        } else {
            p
        },
        LoginStageModel::PickLevel => p,
    }
}

/// A prompt after the last character of a password was taken back.
pub open spec fn untyped_password(p: LoginModel) -> LoginModel {
    match p.stage {
        LoginStageModel::EnterPassword { level, buf } => LoginModel {
            stage: LoginStageModel::EnterPassword { level, buf: shortened(buf) },
            ..p
        },
        LoginStageModel::PickLevel => p,
    }
}

impl AppModel {
    /// The device that the prompt for an access level is for: the open one, or else the
    /// marked one.
    pub open spec fn login_device(self) -> Option<u32> {
        match self.cur_device {
            Some(id) => Some(id),
            None => if self.dev_sel < self.device_ids.len() {
                Some(self.device_ids[self.dev_sel])
            } else {
                None
            },
        }
    }

    /// With another prompt in the place of the one that is open.
    pub open spec fn with_prompt(self, change: spec_fn(LoginModel) -> LoginModel) -> AppModel {
        match self.login {
            Some(p) => AppModel { login: Some(change(p)), ..self },
            None => self,
        }
    }

    /// With the prompt answered.
    pub open spec fn login_committed(self) -> AppModel {
        match self.login {
            None => self,
            Some(p) => if p.stage is PickLevel && level(p.sel) != AccessLevel::EndUser {
                AppModel {
                    login: Some(
                        LoginModel {
                            stage: LoginStageModel::EnterPassword {
                                level: level(p.sel),
                                buf: Seq::empty(),
                            },
                            ..p
                        },
                    ),
                    status: "enter password — type · Enter submit · Esc cancel"@,
                    ..self
                }
            } else {
                AppModel { login: None, ..self }
            },
        }
    }

    /// Whether what is asked of a device is what the prompt says.
    pub open spec fn login_asks(self, ask: LoginAsk) -> bool {
        match self.login {
            None => ask is Nothing,
            Some(p) => match p.stage {
                LoginStageModel::PickLevel => if level(p.sel) == AccessLevel::EndUser {
                    ask == (LoginAsk::Logout { device: p.device, prev: p.current })
                } else {
                    ask is Nothing
                },
                LoginStageModel::EnterPassword { level: wanted, buf } => ask matches LoginAsk::Login {
                    device,
                    level: asked,
                    password,
                    prev,
                } && device == p.device && asked == wanted && password@ == buf && prev
                    == p.current,
            },
        }
    }

    /// What is said of a level that a device reports.
    pub open spec fn level_report(
        device: u32,
        attempted: AccessLevel,
        reported: AccessLevel,
        prev: Option<AccessLevel>,
    ) -> Seq<char> {
        if Some(reported) == prev && attempted != AccessLevel::EndUser {
            "that seems to be an incorrect password"@
        } else {
            "device 0x"@ + hex(device as nat, 6) + " → "@ + level_words(reported)
        }
    }

    /// With the level that a device reports; what was known of an open device no longer
    /// counts.
    pub open spec fn level_applied(
        self,
        device: u32,
        reported: AccessLevel,
        status: Seq<char>,
    ) -> AppModel {
        let m = AppModel { status, ..self };
        if self.cur_device == Some(device) {
            let fresh = AppModel {
                cur_access_level: Some(reported),
                loaded_menus: Set::empty(),
                settings_loaded: false,
                values: Map::empty(),
                sub: None,
                ..m
            };
            if self.cur_tab is Summary {
                fresh
            } else {
                AppModel { rows: Seq::empty(), row_sel: 0, ..fresh }.switched(self.cur_tab)
            }
        } else {
            m
        }
    }

    /// What has to be asked for after a device reported its level.
    pub open spec fn level_ask(self, device: u32) -> TabAsk {
        if self.cur_device == Some(device) {
            match self.cur_tab {
                TabKind::Summary => TabAsk::Identity(device),
                TabKind::Menu(m) => TabAsk::FindMenu(device, m),
                TabKind::Settings => TabAsk::FindSettings(device),
            }
        } else {
            TabAsk::Nothing
        }
    }
}

impl App {
    /// Whether the prompt for an access level is open.
    pub fn login_modal(&self) -> (r: bool)
        ensures
            r == self@.login is Some,
    {
        self.login.is_some()
    }

    /// Whether the prompt waits for a password.
    pub fn login_at_password_stage(&self) -> (r: bool)
        ensures
            r == (self@.login matches Some(p) && p.stage is EnterPassword),
    {
        match &self.login {
            Some(p) => match &p.stage {
                LoginStage::EnterPassword { .. } => true,
                LoginStage::PickLevel => false,
            },
            None => false,
        }
    }

    /// The device that the prompt for an access level is for.
    pub fn login_target(&self) -> (r: Option<u32>)
        ensures
            r == self@.login_device(),
    {
        match self.cur_device {
            Some(id) => Some(id),
            None => {
                if self.dev_sel < self.device_ids.len() {
                    Some(self.device_ids[self.dev_sel])
                } else {
                    None
                }
            },
        }
    }

    /// Opens the prompt for an access level, with the level that the device has.
    pub fn open_login(&mut self, current: Option<AccessLevel>)
        ensures
            final(self)@ == match old(self)@.login_device() {
                None => old(self)@,
                Some(device) => AppModel {
                    login: Some(
                        LoginModel {
                            device,
                            sel: match current {
                                Some(l) => level_index(l),
                                None => 0,
                            },
                            current,
                            stage: LoginStageModel::PickLevel,
                        },
                    ),
                    status: "select access level — ↑/↓ pick · Enter next · Esc cancel"@,
                    ..old(self)@
                },
            },
            old(self)@.within() ==> final(self)@.within(),
    {
        let device: u32 = match self.login_target() {
            Some(d) => d,
            None => {
                return;
            },
        };
        let sel: usize = match current {
            Some(l) => level_place(l),
            None => 0,
        };
        self.login = Some(LoginPrompt { device, sel, current, stage: LoginStage::PickLevel });
        self.status = "select access level — ↑/↓ pick · Enter next · Esc cancel".to_owned();
    }

    /// Marks another level.
    pub fn login_move(&mut self, delta: i32)
        ensures
            final(self)@ == old(self)@.with_prompt(|p: LoginModel| turned_level(p, delta as int)),
            old(self)@.within() ==> final(self)@.within(),
    {
        let LoginPrompt { device, sel, current, stage } = match self.login.take() {
            Some(p) => p,
            None => {
                return;
            },
        };
        let sel = match &stage {
            LoginStage::PickLevel => wrapped(sel, delta, 4),
            LoginStage::EnterPassword { .. } => sel,
        };
        self.login = Some(LoginPrompt { device, sel, current, stage });
    }

    pub fn cancel_login(&mut self)
        ensures
            final(self)@ == (AppModel {
                login: None,
                status: "login cancelled"@,
                ..old(self)@
            }),
            old(self)@.within() ==> final(self)@.within(),
    {
        self.login = None;
        self.status = "login cancelled".to_owned();
    }

    /// A character was typed into the prompt.
    pub fn login_char(&mut self, c: char)
        ensures
            final(self)@ == old(self)@.with_prompt(|p: LoginModel| typed_password(p, c)),
            old(self)@.within() ==> final(self)@.within(),
    {
        let LoginPrompt { device, sel, current, stage } = match self.login.take() {
            Some(p) => p,
            None => {
                return;
            },
        };
        let stage = match stage {
            LoginStage::EnterPassword { level, buf } => {
                let mut buf = buf;
                if graphic(c) {
                    buf.push(c);
                }
                LoginStage::EnterPassword { level, buf }
            },
            LoginStage::PickLevel => LoginStage::PickLevel,
        };
        self.login = Some(LoginPrompt { device, sel, current, stage });
    }

    /// The last character in the prompt is taken back.
    pub fn login_backspace(&mut self)
        ensures
            final(self)@ == old(self)@.with_prompt(|p: LoginModel| untyped_password(p)),
            old(self)@.within() ==> final(self)@.within(),
    {
        let LoginPrompt { device, sel, current, stage } = match self.login.take() {
            Some(p) => p,
            None => {
                return;
            },
        };
        let stage = match stage {
            LoginStage::EnterPassword { level, buf } => {
                let mut buf = buf;
                buf.pop();
                LoginStage::EnterPassword { level, buf }
            },
            LoginStage::PickLevel => LoginStage::PickLevel,
        };
        self.login = Some(LoginPrompt { device, sel, current, stage });
    }

    /// Answers the prompt: the level of an end user needs no password, any other asks
    /// for one first. Says what the device has to be asked for.
    pub fn commit_login(&mut self) -> (ask: LoginAsk)
        requires
            old(self)@.login matches Some(p) ==> p.stage is PickLevel ==> p.sel < 4,
        ensures
            final(self)@ == old(self)@.login_committed(),
            old(self)@.login_asks(ask),
            old(self)@.within() ==> final(self)@.within(),
    {
        let LoginPrompt { device, sel, current, stage } = match self.login.take() {
            Some(p) => p,
            None => {
                return LoginAsk::Nothing;
            },
        };
        match stage {
            LoginStage::PickLevel => {
                let wanted = level_at(sel);
                if wanted == AccessLevel::EndUser {
                    LoginAsk::Logout { device, prev: current }
                } else {
                    let stage = LoginStage::EnterPassword { level: wanted, buf: String::new() };
                    self.status =
                        "enter password — type · Enter submit · Esc cancel".to_owned();
                    self.login = Some(LoginPrompt { device, sel, current, stage });
                    LoginAsk::Nothing
                }
            },
            LoginStage::EnterPassword { level, buf } => LoginAsk::Login {
                device,
                level,
                password: buf,
                prev: current,
            },
        }
    }

    /// Takes in the level that a device reports, or why it does not. A level that is
    /// still the one before means that the password was wrong. Says what has to be asked
    /// for.
    pub fn apply_login_result(
        &mut self,
        device: u32,
        attempted: AccessLevel,
        reported: Result<AccessLevel, String>,
        prev: Option<AccessLevel>,
    ) -> (ask: TabAsk)
        ensures
            match reported {
                Ok(l) => {
                    &&& final(self)@ == old(self)@.level_applied(
                        device,
                        l,
                        AppModel::level_report(device, attempted, l, prev),
                    )
                    &&& ask == old(self)@.level_ask(device)
                },
                Err(e) => {
                    &&& final(self)@ == (AppModel {
                        status: "login on 0x"@ + hex(device as nat, 6) + " failed: "@ + e@,
                        ..old(self)@
                    })
                    &&& ask is Nothing
                },
            },
            old(self)@.within() ==> final(self)@.within(),
    {
        let reported = match reported {
            Ok(l) => l,
            Err(e) => {
                let mut s = cat3("login on 0x", hex_text(device, 6).as_str(), " failed: ");
                s.append(e.as_str());
                self.status = s;
                return TabAsk::Nothing;
            },
        };
        let same_as_before: bool = match prev {
            Some(p) => p == reported,
            None => false,
        };
        self.status = if same_as_before && attempted != AccessLevel::EndUser {
            "that seems to be an incorrect password".to_owned()
        } else {
            let mut s = cat3("device 0x", hex_text(device, 6).as_str(), " → ");
            s.append(level_label(reported));
            s
        };
        let open: bool = match self.cur_device {
            Some(id) => id == device,
            None => false,
        };
        if !open {
            return TabAsk::Nothing;
        }
        self.cur_access_level = Some(reported);
        self.loaded_menus.clear();
        self.settings_loaded = false;
        self.values.clear();
        self.sub = None;
        assert(self@.loaded_menus =~= Set::empty());
        assert(self@.values =~= Map::empty());
        match self.cur_tab {
            TabKind::Summary => TabAsk::Identity(device),
            t => {
                self.rows.clear();
                self.row_sel = 0;
                assert(self@.rows =~= Seq::empty());
                self.switch_tab(t)
            },
        }
    }

    /// The open device said again what it is.
    pub fn note_info(&mut self, identity: Option<DeviceIdentity>)
        ensures
            final(self)@ == (AppModel { cur_info: held(identity), ..old(self)@ }),
            old(self)@.within() ==> final(self)@.within(),
    {
        self.cur_info = identity;
    }
}

/// A password that is refused changes no level: where the level is still the one before,
/// the answer is that the password seems to be wrong.
pub proof fn law_refused_password(device: u32, attempted: AccessLevel, before: AccessLevel)
    requires
        attempted != AccessLevel::EndUser,
    ensures
        AppModel::level_report(device, attempted, before, Some(before))
            == "that seems to be an incorrect password"@,
{
}

/// After a device reported its level, nothing of it counts as found, so every tab of it is
/// looked for again.
pub proof fn law_level_change_forgets(m: AppModel, device: u32, l: AccessLevel, status: Seq<char>)
    requires
        m.cur_device == Some(device),
    ensures
        m.level_applied(device, l, status).loaded_menus == Set::<Menu>::empty(),
        !m.level_applied(device, l, status).settings_loaded,
        m.level_applied(device, l, status).values == Map::<u16, BusValue>::empty(),
        m.level_applied(device, l, status).cur_access_level == Some(l),
{
}

} // verus!
