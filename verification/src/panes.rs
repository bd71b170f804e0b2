//! What the terminal program shows: devices, tabs, rows, editors and prompts.

use vstd::prelude::*;

use crate::editor::copied_strings;
use crate::editor::{Origin, PathEditor, Stage};
use crate::mapping::{DeviceMappingModel, Mapping};
use crate::quote::nibble;
use crate::text::views;

verus! {

/// What an optional value holds.
pub open spec fn held<T: View>(o: Option<T>) -> Option<T::V> {
    match o {
        Some(x) => Some(x@),
        None => None,
    }
}

// ---- tabs and levels ------------------------------------------------------------------

/// The menus of a device.
#[derive(Debug, Clone, Copy, PartialEq, Eq, Structural)]
pub enum Menu {
    Monitoring,
    Configuration,
    Service,
    Alarm,
    History,
    Other(u8),
}

/// Which tab of a device is shown.
#[derive(Debug, Clone, Copy, PartialEq, Eq, Structural)]
pub enum TabKind {
    /// What the device is, and the access level.
    Summary,
    /// A menu with its groups.
    Menu(Menu),
    /// All fields of the second channel.
    Settings,
}

/// How many tabs there are.
pub const TAB_COUNT: usize = 5;

/// The tabs, in the order in which they are shown.
pub open spec fn tab(i: int) -> TabKind {
    if i == 1 {
        TabKind::Menu(Menu::Monitoring)
    } else if i == 2 {
        TabKind::Menu(Menu::Configuration)
    } else if i == 3 {
        TabKind::Menu(Menu::Service)
    } else if i == 4 {
        TabKind::Settings
    } else {
        TabKind::Summary
    }
}

/// Where a tab stands; a tab that is not shown counts as the first.
pub open spec fn tab_index(t: TabKind) -> int {
    if t == tab(1) {
        1
    } else if t == tab(2) {
        2
    } else if t == tab(3) {
        3
    } else if t == tab(4) {
        4
    } else {
        0
    }
}

/// A tab by its place.
pub fn tab_at(i: usize) -> (t: TabKind)
    ensures
        t == tab(i as int),
{
    match i {
        1 => TabKind::Menu(Menu::Monitoring),
        2 => TabKind::Menu(Menu::Configuration),
        3 => TabKind::Menu(Menu::Service),
        4 => TabKind::Settings,
        _ => TabKind::Summary,
    }
}

/// Where a tab stands.
pub fn tab_place(t: TabKind) -> (i: usize)
    ensures
        i == tab_index(t),
{
    match t {
        TabKind::Summary => 0,
        TabKind::Menu(Menu::Monitoring) => 1,
        TabKind::Menu(Menu::Configuration) => 2,
        TabKind::Menu(Menu::Service) => 3,
        TabKind::Menu(_) => 0,
        TabKind::Settings => 4,
    }
}

/// Levels of access to a device.
#[derive(Debug, Clone, Copy, PartialEq, Eq, Structural)]
pub enum AccessLevel {
    EndUser,
    Installer,
    Distributor,
    MvService,
}

/// How many levels of access there are.
pub const LEVEL_COUNT: usize = 4;

/// The levels of access, in the order in which they are offered.
pub open spec fn level(i: int) -> AccessLevel {
    if i == 1 {
        AccessLevel::Installer
    } else if i == 2 {
        AccessLevel::Distributor
    } else if i == 3 {
        AccessLevel::MvService
    } else {
        AccessLevel::EndUser
    }
}

/// Where a level of access stands.
pub open spec fn level_index(l: AccessLevel) -> int {
    match l {
        AccessLevel::EndUser => 0,
        AccessLevel::Installer => 1,
        AccessLevel::Distributor => 2,
        AccessLevel::MvService => 3,
    }
}

/// A level of access by its place.
pub fn level_at(i: usize) -> (l: AccessLevel)
    ensures
        l == level(i as int),
{
    match i {
        1 => AccessLevel::Installer,
        2 => AccessLevel::Distributor,
        3 => AccessLevel::MvService,
        _ => AccessLevel::EndUser,
    }
}

/// Where a level of access stands.
pub fn level_place(l: AccessLevel) -> (i: usize)
    ensures
        i == level_index(l),
        i < LEVEL_COUNT,
{
    match l {
        AccessLevel::EndUser => 0,
        AccessLevel::Installer => 1,
        AccessLevel::Distributor => 2,
        AccessLevel::MvService => 3,
    }
}

/// Every tab that is shown, and every level, is found at its place.
pub proof fn law_places(i: int)
    ensures
        0 <= i < TAB_COUNT ==> tab_index(tab(i)) == i,
        0 <= i < LEVEL_COUNT ==> level_index(level(i)) == i,
{
}

/// What a menu is called.
pub open spec fn menu_words(m: Menu) -> Seq<char> {
    match m {
        Menu::Monitoring => "Monitoring"@,
        Menu::Configuration => "Configuration"@,
        Menu::Service => "Service"@,
        Menu::Alarm => "Alarms"@,
        Menu::History => "History"@,
        Menu::Other(n) => "Menu 0x"@ + seq![nibble(n as int / 16), nibble(n as int % 16)],
    }
}

fn nibble_of(d: u8) -> (c: char)
    requires
        d < 16,
    ensures
        c == nibble(d as int),
{
    if d < 10 {
        (48 + d) as char
    } else {
        (87 + d) as char
    }
}

/// What a menu is called.
pub fn menu_label(menu: Menu) -> (s: String)
    ensures
        s@ == menu_words(menu),
{
    match menu {
        Menu::Monitoring => "Monitoring".to_owned(),
        Menu::Configuration => "Configuration".to_owned(),
        Menu::Service => "Service".to_owned(),
        Menu::Alarm => "Alarms".to_owned(),
        Menu::History => "History".to_owned(),
        Menu::Other(n) => {
            let mut s = "Menu 0x".to_owned();
            s.push(nibble_of(n / 16));
            s.push(nibble_of(n % 16));
            assert(s@ =~= menu_words(menu));
            s
        },
    }
}

/// What a tab is called.
pub open spec fn tab_words(t: TabKind) -> Seq<char> {
    match t {
        TabKind::Summary => "Summary"@,
        TabKind::Menu(m) => menu_words(m),
        TabKind::Settings => "Settings"@,
    }
}

/// What a tab is called.
pub fn tab_label(t: TabKind) -> (s: String)
    ensures
        s@ == tab_words(t),
{
    match t {
        TabKind::Summary => "Summary".to_owned(),
        TabKind::Menu(m) => menu_label(m),
        TabKind::Settings => "Settings".to_owned(),
    }
}

/// What a level of access is called.
pub open spec fn level_words(l: AccessLevel) -> Seq<char> {
    match l {
        AccessLevel::EndUser => "End User"@,
        AccessLevel::Installer => "Installer"@,
        AccessLevel::Distributor => "Distributor"@,
        AccessLevel::MvService => "MV Service"@,
    }
}

/// What a level of access is called.
pub fn level_label(l: AccessLevel) -> (s: &'static str)
    ensures
        s@ == level_words(l),
{
    match l {
        AccessLevel::EndUser => "End User",
        AccessLevel::Installer => "Installer",
        AccessLevel::Distributor => "Distributor",
        AccessLevel::MvService => "MV Service",
    }
}

// ---- devices and fields ---------------------------------------------------------------

/// What a device says of itself.
#[derive(Debug, PartialEq, Eq)]
pub struct DeviceIdentity {
    pub article: String,
    pub serial: String,
    pub revision: String,
    pub name: String,
    pub firmware: String,
}

/// What a device says of itself.
#[verifier::ext_equal]
pub struct IdentityModel {
    pub article: Seq<char>,
    pub serial: Seq<char>,
    pub revision: Seq<char>,
    pub name: Seq<char>,
    pub firmware: Seq<char>,
}

impl View for DeviceIdentity {
    type V = IdentityModel;

    open spec fn view(&self) -> IdentityModel {
        IdentityModel {
            article: self.article@,
            serial: self.serial@,
            revision: self.revision@,
            name: self.name@,
            firmware: self.firmware@,
        }
    }
}

impl DeviceIdentity {
    /// Another value that holds the same.
    pub fn copied(&self) -> (r: Self)
        ensures
            r@ == self@,
    {
        DeviceIdentity {
            article: self.article.clone(),
            serial: self.serial.clone(),
            revision: self.revision.clone(),
            name: self.name.clone(),
            firmware: self.firmware.clone(),
        }
    }
}

/// How a field is shown, which says how it is edited.
#[derive(Debug, Clone, Copy, PartialEq, Eq, Structural)]
pub enum VisualizationType {
    CheckBox,
    ToggleButton,
    PushButton,
    Float,
    Radio,
    DropDown,
    Text,
    /// A kind that cannot be edited here.
    Other,
}

/// What is known of a field.
#[derive(Debug, PartialEq, Eq)]
pub struct FieldInfo {
    pub index: u16,
    pub name: String,
    pub unit: String,
    pub options: Vec<String>,
    pub writeable: bool,
    pub viz_type: VisualizationType,
}

/// What is known of a field.
#[verifier::ext_equal]
pub struct FieldInfoModel {
    pub index: u16,
    pub name: Seq<char>,
    pub unit: Seq<char>,
    pub options: Seq<Seq<char>>,
    pub writeable: bool,
    pub viz_type: VisualizationType,
}

impl View for FieldInfo {
    type V = FieldInfoModel;

    open spec fn view(&self) -> FieldInfoModel {
        FieldInfoModel {
            index: self.index,
            name: self.name@,
            unit: self.unit@,
            options: views(self.options@),
            writeable: self.writeable,
            viz_type: self.viz_type,
        }
    }
}

/// What is known of fields.
pub open spec fn infos(v: Seq<FieldInfo>) -> Seq<FieldInfoModel> {
    v.map_values(|f: FieldInfo| f@)
}

impl FieldInfo {
    /// Another value that holds the same.
    pub fn copied(&self) -> (r: Self)
        ensures
            r@ == self@,
    {
        FieldInfo {
            index: self.index,
            name: self.name.clone(),
            unit: self.unit.clone(),
            options: copied_strings(&self.options),
            writeable: self.writeable,
            viz_type: self.viz_type,
        }
    }
}

/// Whether a field is on the second channel.
pub open spec fn on_second_channel(index: u16) -> bool {
    (index / 256) % 2 == 1
}

/// The fields of the second channel.
pub open spec fn second_channel(fields: Seq<FieldInfoModel>) -> Seq<FieldInfoModel>
    decreases fields.len(),
{
    if fields.len() == 0 {
        fields
    } else {
        let head = second_channel(fields.drop_last());
        if on_second_channel(fields.last().index) {
            head.push(fields.last())
        } else {
            head
        }
    }
}

/// The fields of the second channel, in order.
pub fn settings_fields(all: &Vec<FieldInfo>) -> (out: Vec<FieldInfo>)
    ensures
        infos(out@) == second_channel(infos(all@)),
{
    let ghost m = infos(all@);
    let mut out: Vec<FieldInfo> = Vec::new();
    let mut i: usize = 0;
    assert(infos(out@) =~= m.take(0));
    while i < all.len()
        invariant
            i <= all@.len(),
            m == infos(all@),
            infos(out@) == second_channel(m.take(i as int)),
        decreases all@.len() - i,
    {
        let ghost before = infos(out@);
        proof {
            let next = m.take(i as int + 1);
            assert(next.drop_last() =~= m.take(i as int));
            assert(next.last() == all@[i as int]@);
        }
        if (all[i].index / 256) % 2 == 1 {
            let f = all[i].copied();
            let ghost v = f@;
            out.push(f);
            assert(infos(out@) =~= before.push(v));
        }
        i += 1;
    }
    assert(m.take(i as int) =~= m);
    out
}

/// A group of fields.
#[derive(Debug, PartialEq, Eq)]
pub struct GroupInfo {
    pub name: String,
    pub fields: Vec<FieldInfo>,
}

/// What is known of a group.
#[verifier::ext_equal]
pub struct GroupInfoModel {
    pub name: Seq<char>,
    pub fields: Seq<FieldInfoModel>,
}

impl View for GroupInfo {
    type V = GroupInfoModel;

    open spec fn view(&self) -> GroupInfoModel {
        GroupInfoModel { name: self.name@, fields: infos(self.fields@) }
    }
}

/// What is known of groups.
pub open spec fn group_infos(v: Seq<GroupInfo>) -> Seq<GroupInfoModel> {
    v.map_values(|g: GroupInfo| g@)
}

/// A row of the pane of fields.
#[derive(Debug, PartialEq, Eq)]
pub enum Row {
    /// The name of a group.
    Group(String),
    Field(FieldInfo),
}

/// What a row shows.
pub enum RowModel {
    Group(Seq<char>),
    Field(FieldInfoModel),
}

impl View for Row {
    type V = RowModel;

    open spec fn view(&self) -> RowModel {
        match self {
            Row::Group(n) => RowModel::Group(n@),
            Row::Field(f) => RowModel::Field(f@),
        }
    }
}

/// What rows show.
pub open spec fn row_models(v: Seq<Row>) -> Seq<RowModel> {
    v.map_values(|r: Row| r@)
}

/// The rows of fields.
pub open spec fn field_rows(fields: Seq<FieldInfoModel>) -> Seq<RowModel> {
    Seq::new(fields.len(), |i: int| RowModel::Field(fields[i]))
}

/// The rows of groups: each with its name before its fields.
pub open spec fn group_rows(groups: Seq<GroupInfoModel>) -> Seq<RowModel>
    decreases groups.len(),
{
    if groups.len() == 0 {
        Seq::empty()
    } else {
        group_rows(groups.drop_last()).push(RowModel::Group(groups.last().name)) + field_rows(
            groups.last().fields,
        )
    }
}

/// The numbers of fields.
pub open spec fn indexes(fields: Seq<FieldInfoModel>) -> Seq<u16> {
    Seq::new(fields.len(), |i: int| fields[i].index)
}

/// The numbers of the fields of groups.
pub open spec fn group_indexes(groups: Seq<GroupInfoModel>) -> Seq<u16>
    decreases groups.len(),
{
    if groups.len() == 0 {
        Seq::empty()
    } else {
        group_indexes(groups.drop_last()) + indexes(groups.last().fields)
    }
}

pub(crate) fn push_fields(rows: &mut Vec<Row>, fields: &Vec<FieldInfo>)
    ensures
        row_models(final(rows)@) == row_models(old(rows)@) + field_rows(infos(fields@)),
{
    let ghost start = row_models(rows@);
    let ghost all = field_rows(infos(fields@));
    let mut i: usize = 0;
    assert(row_models(rows@) =~= start + all.take(0));
    while i < fields.len()
        invariant
            i <= fields@.len(),
            all == field_rows(infos(fields@)),
            row_models(rows@) == start + all.take(i as int),
        decreases fields@.len() - i,
    {
        let ghost before = row_models(rows@);
        let f = fields[i].copied();
        let ghost v = f@;
        rows.push(Row::Field(f));
        proof {
            assert(all[i as int] == RowModel::Field(v));
            assert(all.take(i as int + 1) =~= all.take(i as int).push(all[i as int]));
            assert(row_models(rows@) =~= before.push(RowModel::Field(v)));
            assert(row_models(rows@) =~= start + all.take(i as int + 1));
        }
        i += 1;
    }
    assert(all.take(i as int) =~= all);
}

pub(crate) fn rows_of_groups(groups: &Vec<GroupInfo>) -> (rows: Vec<Row>)
    ensures
        row_models(rows@) == group_rows(group_infos(groups@)),
{
    let ghost m = group_infos(groups@);
    let mut rows: Vec<Row> = Vec::new();
    let mut i: usize = 0;
    assert(row_models(rows@) =~= group_rows(m.take(0)));
    while i < groups.len()
        invariant
            i <= groups@.len(),
            m == group_infos(groups@),
            row_models(rows@) == group_rows(m.take(i as int)),
        decreases groups@.len() - i,
    {
        let ghost before = row_models(rows@);
        proof {
            let next = m.take(i as int + 1);
            assert(next.drop_last() =~= m.take(i as int));
            assert(next.last() == groups@[i as int]@);
        }
        rows.push(Row::Group(groups[i].name.clone()));
        assert(row_models(rows@) =~= before.push(RowModel::Group(groups@[i as int].name@)));
        push_fields(&mut rows, &groups[i].fields);
        i += 1;
    }
    assert(m.take(i as int) =~= m);
    rows
}

pub(crate) fn push_indexes(out: &mut Vec<u16>, fields: &Vec<FieldInfo>)
    ensures
        final(out)@ == old(out)@ + indexes(infos(fields@)),
{
    let ghost start = out@;
    let ghost all = indexes(infos(fields@));
    let mut i: usize = 0;
    while i < fields.len()
        invariant
            i <= fields@.len(),
            all == indexes(infos(fields@)),
            out@ =~= start + all.take(i as int),
        decreases fields@.len() - i,
    {
        out.push(fields[i].index);
        assert(all[i as int] == fields@[i as int].index);
        assert(all.take(i as int + 1) =~= all.take(i as int).push(all[i as int]));
        i += 1;
    }
    assert(all.take(i as int) =~= all);
}

pub(crate) fn indexes_of_groups(groups: &Vec<GroupInfo>) -> (out: Vec<u16>)
    ensures
        out@ == group_indexes(group_infos(groups@)),
{
    let ghost m = group_infos(groups@);
    let mut out: Vec<u16> = Vec::new();
    let mut i: usize = 0;
    assert(out@ =~= group_indexes(m.take(0)));
    while i < groups.len()
        invariant
            i <= groups@.len(),
            m == group_infos(groups@),
            out@ == group_indexes(m.take(i as int)),
        decreases groups@.len() - i,
    {
        proof {
            let next = m.take(i as int + 1);
            assert(next.drop_last() =~= m.take(i as int));
            assert(next.last() == groups@[i as int]@);
        }
        push_indexes(&mut out, &groups[i].fields);
        i += 1;
    }
    assert(m.take(i as int) =~= m);
    out
}

// ---- editors and prompts --------------------------------------------------------------

/// The values that a field can have.
#[derive(Debug, PartialEq, Eq)]
pub struct ValuesView {
    pub field_name: String,
    pub options: Vec<String>,
    /// The value that it has, if it is known.
    pub current: Option<i32>,
}

/// The values that a field can have.
#[verifier::ext_equal]
pub struct ValuesModel {
    pub field_name: Seq<char>,
    pub options: Seq<Seq<char>>,
    pub current: Option<i32>,
}

impl View for ValuesView {
    type V = ValuesModel;

    open spec fn view(&self) -> ValuesModel {
        ValuesModel {
            field_name: self.field_name@,
            options: views(self.options@),
            current: self.current,
        }
    }
}

/// Which pane the keys go to.
#[derive(Debug, Clone, Copy, PartialEq, Eq, Structural)]
pub enum Focus {
    Devices,
    Fields,
}

/// How a value is edited.
#[derive(Debug, PartialEq, Eq)]
pub enum EditKind {
    /// A number, as typed.
    Number(String),
    /// One of some options.
    Choice { options: Vec<String>, sel: usize },
    /// A text, as typed, for a slot of the string table.
    Text { str_id: u16, buf: String },
}

/// How a value is edited.
pub enum EditKindModel {
    Number(Seq<char>),
    Choice { options: Seq<Seq<char>>, sel: int },
    Text { str_id: u16, buf: Seq<char> },
}

impl View for EditKind {
    type V = EditKindModel;

    open spec fn view(&self) -> EditKindModel {
        match self {
            EditKind::Number(s) => EditKindModel::Number(s@),
            EditKind::Choice { options, sel } => EditKindModel::Choice {
                options: views(options@),
                sel: *sel as int,
            },
            EditKind::Text { str_id, buf } => EditKindModel::Text { str_id: *str_id, buf: buf@ },
        }
    }
}

/// A value while it is edited.
#[derive(Debug, PartialEq, Eq)]
pub struct Editor {
    pub field: u16,
    pub name: String,
    pub kind: EditKind,
}

/// A value while it is edited.
pub struct EditorModel {
    pub field: u16,
    pub name: Seq<char>,
    pub kind: EditKindModel,
}

impl View for Editor {
    type V = EditorModel;

    open spec fn view(&self) -> EditorModel {
        EditorModel { field: self.field, name: self.name@, kind: self.kind@ }
    }
}

/// What the prompt for an access level does.
#[derive(Debug, PartialEq, Eq)]
pub enum LoginStage {
    PickLevel,
    /// A password for a level, as typed.
    EnterPassword { level: AccessLevel, buf: String },
}

/// What the prompt for an access level does.
pub enum LoginStageModel {
    PickLevel,
    EnterPassword { level: AccessLevel, buf: Seq<char> },
}

impl View for LoginStage {
    type V = LoginStageModel;

    open spec fn view(&self) -> LoginStageModel {
        match self {
            LoginStage::PickLevel => LoginStageModel::PickLevel,
            LoginStage::EnterPassword { level, buf } => LoginStageModel::EnterPassword {
                level: *level,
                buf: buf@,
            },
        }
    }
}

/// The prompt for an access level.
#[derive(Debug, PartialEq, Eq)]
pub struct LoginPrompt {
    pub device: u32,
    /// The level that is marked, by its place.
    pub sel: usize,
    /// The level that the device had when the prompt was opened.
    pub current: Option<AccessLevel>,
    pub stage: LoginStage,
}

/// The prompt for an access level.
pub struct LoginModel {
    pub device: u32,
    pub sel: int,
    pub current: Option<AccessLevel>,
    pub stage: LoginStageModel,
}

impl View for LoginPrompt {
    type V = LoginModel;

    open spec fn view(&self) -> LoginModel {
        LoginModel {
            device: self.device,
            sel: self.sel as int,
            current: self.current,
            stage: self.stage@,
        }
    }
}

/// A tab whose rows are being looked for.
#[derive(Debug, PartialEq, Eq)]
pub struct Pending {
    pub id: u32,
    pub tab: TabKind,
    pub name: String,
}

/// A tab whose rows are being looked for.
#[verifier::ext_equal]
pub struct PendingModel {
    pub id: u32,
    pub tab: TabKind,
    pub name: Seq<char>,
}

impl View for Pending {
    type V = PendingModel;

    open spec fn view(&self) -> PendingModel {
        PendingModel { id: self.id, tab: self.tab, name: self.name@ }
    }
}

/// The fields of a device whose values are asked for again and again.
#[derive(Debug, PartialEq, Eq)]
pub struct Subscribed {
    pub device: u32,
    pub fields: Vec<u16>,
}

/// The fields of a device whose values are asked for again and again.
#[verifier::ext_equal]
pub struct SubscribedModel {
    pub device: u32,
    pub fields: Seq<u16>,
}

impl View for Subscribed {
    type V = SubscribedModel;

    open spec fn view(&self) -> SubscribedModel {
        SubscribedModel { device: self.device, fields: self.fields@ }
    }
}

/// The mapping file while it is edited. It is held as a whole, so that devices that are
/// not on the bus keep their entries.
pub struct MappingSession {
    /// The name of the file.
    pub path: String,
    pub map: Mapping,
    /// Whether there are changes that are not written.
    pub dirty: bool,
    /// Whether quitting was refused once because of them.
    pub quit_armed: bool,
}

/// The mapping file while it is edited.
#[verifier::ext_equal]
pub struct SessionModel {
    pub path: Seq<char>,
    pub map: Map<Seq<char>, DeviceMappingModel>,
    pub dirty: bool,
    pub quit_armed: bool,
}

impl View for MappingSession {
    type V = SessionModel;

    open spec fn view(&self) -> SessionModel {
        SessionModel {
            path: self.path@,
            map: self.map@,
            dirty: self.dirty,
            quit_armed: self.quit_armed,
        }
    }
}

/// Where one field goes, while it is being edited.
#[verifier::ext_equal]
pub struct PathEditorModel {
    pub field: u16,
    pub field_name: Seq<char>,
    pub unit: Seq<char>,
    pub options: Seq<Seq<char>>,
    pub buf: Seq<char>,
    pub invert: bool,
    pub truth: Map<Seq<char>, bool>,
    pub origin: Origin,
    pub stage: Stage,
}

impl View for PathEditor {
    type V = PathEditorModel;

    open spec fn view(&self) -> PathEditorModel {
        PathEditorModel {
            field: self.field,
            field_name: self.field_name@,
            unit: self.unit@,
            options: views(self.options@),
            buf: self.buf@,
            invert: self.invert,
            truth: self.truth@,
            origin: self.origin,
            stage: self.stage,
        }
    }
}

} // verus!
